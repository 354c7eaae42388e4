//! Sequences kept in strictly increasing order of a string key: the form in
//! which this library holds what is elsewhere a `BTreeMap<String, _>` or a
//! `BTreeSet<String>`.

use vstd::prelude::*;

use crate::tokens::strings_view;
use crate::text::{chars_equal, chars_lt, chars_of, lemma_seq_lt_irrefl, lemma_seq_lt_total, lemma_seq_lt_trans, seq_lt};

verus! {

/// Keys strictly increasing: the order a `BTreeMap` iterates in.
pub open spec fn keys_sorted<V>(t: Seq<(Seq<char>, V)>) -> bool {
    forall|i: int, j: int| 0 <= i < j < t.len() ==> seq_lt(#[trigger] t[i].0, #[trigger] t[j].0)
}

pub open spec fn has_key<V>(t: Seq<(Seq<char>, V)>, k: Seq<char>) -> bool {
    exists|i: int| 0 <= i < t.len() && #[trigger] t[i].0 == k
}

/// The number of leading entries whose key is below `k`.
pub open spec fn key_lower_bound<V>(t: Seq<(Seq<char>, V)>, k: Seq<char>) -> int
    decreases t.len(),
{
    if t.len() == 0 {
        0
    } else if seq_lt(t[0].0, k) {
        1 + key_lower_bound(t.drop_first(), k)
    } else {
        0
    }
}

/// `t` with `(k, v)` placed where the order puts it.
pub open spec fn insert_key<V>(t: Seq<(Seq<char>, V)>, k: Seq<char>, v: V) -> Seq<(Seq<char>, V)> {
    t.insert(key_lower_bound(t, k), (k, v))
}

/// The value stored under `k`, if any.
pub open spec fn key_value<V>(t: Seq<(Seq<char>, V)>, k: Seq<char>) -> Option<V>
    decreases t.len(),
{
    if t.len() == 0 {
        None
    } else if t[0].0 == k {
        Some(t[0].1)
    } else {
        key_value(t.drop_first(), k)
    }
}

pub proof fn lemma_lower_bound<V>(t: Seq<(Seq<char>, V)>, k: Seq<char>)
    requires
        keys_sorted(t),
    ensures
        0 <= key_lower_bound(t, k) <= t.len(),
        forall|i: int| 0 <= i < key_lower_bound(t, k) ==> seq_lt(#[trigger] t[i].0, k),
        forall|i: int| key_lower_bound(t, k) <= i < t.len() ==> !seq_lt(#[trigger] t[i].0, k),
        has_key(t, k) <==> (key_lower_bound(t, k) < t.len() && t[key_lower_bound(t, k)].0 == k),
    decreases t.len(),
{
    if t.len() > 0 {
        let r = t.drop_first();
        assert(keys_sorted(r)) by {
            assert forall|i: int, j: int| 0 <= i < j < r.len() implies seq_lt(#[trigger] r[i].0, #[trigger] r[j].0) by {
                assert(r[i] == t[i + 1] && r[j] == t[j + 1]);
            }
        }
        lemma_lower_bound(r, k);
        let p = key_lower_bound(t, k);
        if seq_lt(t[0].0, k) {
            assert forall|i: int| 0 <= i < p implies seq_lt(#[trigger] t[i].0, k) by {
                if i > 0 {
                    assert(t[i] == r[i - 1]);
                }
            }
            assert forall|i: int| p <= i < t.len() implies !seq_lt(#[trigger] t[i].0, k) by {
                assert(t[i] == r[i - 1]);
            }
        } else {
            assert forall|i: int| 0 <= i < t.len() implies !seq_lt(#[trigger] t[i].0, k) by {
                if i > 0 {
                    assert(seq_lt(t[0].0, t[i].0));
                    if seq_lt(t[i].0, k) {
                        lemma_seq_lt_trans(t[0].0, t[i].0, k);
                    }
                }
            }
        }
        if has_key(t, k) {
            let w = choose|i: int| 0 <= i < t.len() && #[trigger] t[i].0 == k;
            lemma_seq_lt_irrefl(k);
            if w < p {
                assert(seq_lt(t[w].0, k));
            }
            if w > p && p < t.len() {
                assert(seq_lt(t[p].0, t[w].0));
                lemma_seq_lt_total(t[p].0, k);
            }
        }
        if p < t.len() && t[p].0 == k {
            assert(has_key(t, k));
        }
    }
}

pub proof fn lemma_insert_key_sorted<V>(t: Seq<(Seq<char>, V)>, k: Seq<char>, v: V)
    requires
        keys_sorted(t),
        !has_key(t, k),
    ensures
        keys_sorted(insert_key(t, k, v)),
        insert_key(t, k, v).len() == t.len() + 1,
{
    lemma_lower_bound(t, k);
    let p = key_lower_bound(t, k);
    let r = insert_key(t, k, v);
    assert forall|i: int, j: int| 0 <= i < j < r.len() implies seq_lt(#[trigger] r[i].0, #[trigger] r[j].0) by {
        if j < p {
            assert(r[i] == t[i] && r[j] == t[j]);
        } else if j == p {
            assert(r[i] == t[i]);
        } else if i == p {
            assert(r[j] == t[j - 1]);
            lemma_seq_lt_total(t[j - 1].0, k);
            if j - 1 > p {
                assert(seq_lt(t[p].0, t[j - 1].0));
                lemma_seq_lt_total(t[p].0, k);
                if seq_lt(k, t[p].0) {
                    lemma_seq_lt_trans(k, t[p].0, t[j - 1].0);
                }
            }
        } else if i < p {
            assert(r[i] == t[i] && r[j] == t[j - 1]);
        } else {
            assert(r[i] == t[i - 1] && r[j] == t[j - 1]);
        }
    }
}

pub proof fn lemma_key_value<V>(t: Seq<(Seq<char>, V)>, k: Seq<char>)
    requires
        keys_sorted(t),
    ensures
        key_value(t, k) is Some <==> has_key(t, k),
        has_key(t, k) ==> key_value(t, k) == Some(t[key_lower_bound(t, k)].1),
    decreases t.len(),
{
    lemma_lower_bound(t, k);
    if t.len() > 0 {
        let r = t.drop_first();
        assert(keys_sorted(r)) by {
            assert forall|i: int, j: int| 0 <= i < j < r.len() implies seq_lt(#[trigger] r[i].0, #[trigger] r[j].0) by {
                assert(r[i] == t[i + 1] && r[j] == t[j + 1]);
            }
        }
        lemma_key_value(r, k);
        lemma_lower_bound(r, k);
        if t[0].0 != k {
            assert(has_key(t, k) <==> has_key(r, k)) by {
                if has_key(t, k) {
                    let w = choose|i: int| 0 <= i < t.len() && #[trigger] t[i].0 == k;
                    assert(r[w - 1].0 == k);
                }
                if has_key(r, k) {
                    let w = choose|i: int| 0 <= i < r.len() && #[trigger] r[i].0 == k;
                    assert(t[w + 1].0 == k);
                }
            }
            if has_key(t, k) {
                lemma_seq_lt_total(t[0].0, k);
                assert(seq_lt(t[0].0, k));
            }
        } else {
            assert(t[0].0 == k);
            lemma_seq_lt_irrefl(k);
            assert(has_key(t, k));
        }
    }
}

/// The pairs' keys as character sequences.
pub open spec fn pairs_view<V>(v: Seq<(String, V)>) -> Seq<(Seq<char>, V)> {
    v.map_values(|e: (String, V)| (e.0@, e.1))
}

/// Where `key` goes in `v` and whether it is already there.
pub fn find_key<V>(v: &Vec<(String, V)>, key: &Vec<char>) -> (r: (usize, bool))
    requires
        keys_sorted(pairs_view(v@)),
    ensures
        r.0 == key_lower_bound(pairs_view(v@), key@),
        r.1 == has_key(pairs_view(v@), key@),
{
    let ghost t = pairs_view(v@);
    proof {
        lemma_lower_bound(t, key@);
    }
    let n = v.len();
    let mut i: usize = 0;
    while i < n && chars_lt(&chars_of(v[i].0.as_str()), key)
        invariant
            n == v@.len() == t.len(),
            t == pairs_view(v@),
            i <= n,
            forall|q: int| 0 <= q < i ==> seq_lt(#[trigger] t[q].0, key@),
        decreases n - i,
    {
        i = i + 1;
    }
    assert(i == key_lower_bound(t, key@)) by {
        let lb = key_lower_bound(t, key@);
        if i < lb {
            assert(seq_lt(t[i as int].0, key@));
        }
        if i > lb {
            assert(seq_lt(t[lb].0, key@));
        }
    }
    if i < n {
        let found = chars_equal(&chars_of(v[i].0.as_str()), key);
        (i, found)
    } else {
        (i, false)
    }
}

// ---------------------------------------------------------------------------
// Sets of strings
// ---------------------------------------------------------------------------

/// Strictly increasing: the order a `BTreeSet<String>` iterates in.
pub open spec fn strs_sorted(s: Seq<Seq<char>>) -> bool {
    forall|i: int, j: int| 0 <= i < j < s.len() ==> seq_lt(#[trigger] s[i], #[trigger] s[j])
}

/// A set as the keys of a keyed sequence with no values.
pub open spec fn as_keyed(s: Seq<Seq<char>>) -> Seq<(Seq<char>, ())> {
    s.map_values(|x: Seq<char>| (x, ()))
}

/// `s` with `x` added in order (unchanged if already present).
pub open spec fn set_insert(s: Seq<Seq<char>>, x: Seq<char>) -> Seq<Seq<char>> {
    if s.contains(x) {
        s
    } else {
        s.insert(key_lower_bound(as_keyed(s), x), x)
    }
}

pub proof fn lemma_as_keyed<V>(s: Seq<Seq<char>>)
    ensures
        strs_sorted(s) <==> keys_sorted(as_keyed(s)),
        forall|x: Seq<char>| s.contains(x) <==> has_key(#[trigger] as_keyed(s), x),
{
    let t = as_keyed(s);
    assert forall|x: Seq<char>| s.contains(x) <==> has_key(#[trigger] as_keyed(s), x) by {
        if s.contains(x) {
            let w = choose|i: int| 0 <= i < s.len() && s[i] == x;
            assert(t[w].0 == x);
        }
        if has_key(t, x) {
            let w = choose|i: int| 0 <= i < t.len() && #[trigger] t[i].0 == x;
            assert(s[w] == x);
        }
    }
    if strs_sorted(s) {
        assert forall|i: int, j: int| 0 <= i < j < t.len() implies seq_lt(#[trigger] t[i].0, #[trigger] t[j].0) by {
            assert(t[i].0 == s[i] && t[j].0 == s[j]);
        }
    }
    if keys_sorted(t) {
        assert forall|i: int, j: int| 0 <= i < j < s.len() implies seq_lt(#[trigger] s[i], #[trigger] s[j]) by {
            assert(t[i].0 == s[i] && t[j].0 == s[j]);
        }
    }
}

pub proof fn lemma_set_insert_sorted(s: Seq<Seq<char>>, x: Seq<char>)
    requires
        strs_sorted(s),
    ensures
        strs_sorted(set_insert(s, x)),
        set_insert(s, x).contains(x),
        forall|y: Seq<char>| s.contains(y) ==> set_insert(s, x).contains(y),
        forall|y: Seq<char>| #[trigger] set_insert(s, x).contains(y) ==> y == x || s.contains(y),
{
    lemma_as_keyed::<()>(s);
    if !s.contains(x) {
        let t = as_keyed(s);
        lemma_insert_key_sorted(t, x, ());
        let p = key_lower_bound(t, x);
        lemma_lower_bound(t, x);
        let r = set_insert(s, x);
        assert(as_keyed(r) =~= insert_key(t, x, ()));
        lemma_as_keyed::<()>(r);
        assert(r[p] == x);
        assert forall|y: Seq<char>| s.contains(y) implies set_insert(s, x).contains(y) by {
            let w = choose|i: int| 0 <= i < s.len() && s[i] == y;
            if w < p {
                assert(r[w] == y);
            } else {
                assert(r[w + 1] == y);
            }
        }
        assert forall|y: Seq<char>| #[trigger] set_insert(s, x).contains(y) implies y == x || s.contains(y) by {
            let w = choose|i: int| 0 <= i < r.len() && r[i] == y;
            if w < p {
                assert(s[w] == y);
            } else if w > p {
                assert(s[w - 1] == y);
            }
        }
    }
}

/// Whether `x` is in the sorted set `v`, and where it goes.
pub fn find_str(v: &Vec<String>, x: &Vec<char>) -> (r: (usize, bool))
    requires
        strs_sorted(strings_view(v@)),
    ensures
        r.0 == key_lower_bound(as_keyed(strings_view(v@)), x@),
        r.1 == strings_view(v@).contains(x@),
{
    let ghost s = strings_view(v@);
    let ghost t = as_keyed(s);
    proof {
        lemma_as_keyed::<()>(s);
        lemma_lower_bound(t, x@);
    }
    let n = v.len();
    let mut i: usize = 0;
    while i < n && chars_lt(&chars_of(v[i].as_str()), x)
        invariant
            n == v@.len() == t.len(),
            s == strings_view(v@),
            t == as_keyed(s),
            i <= n,
            forall|q: int| 0 <= q < i ==> seq_lt(#[trigger] t[q].0, x@),
        decreases n - i,
    {
        assert(t[i as int].0 == v@[i as int]@);
        i = i + 1;
    }
    assert(i == key_lower_bound(t, x@)) by {
        let lb = key_lower_bound(t, x@);
        if i < lb {
            assert(t[i as int].0 == v@[i as int]@);
            assert(seq_lt(t[i as int].0, x@));
        }
        if i > lb {
            assert(seq_lt(t[lb].0, x@));
        }
    }
    if i < n {
        assert(t[i as int].0 == v@[i as int]@);
        let found = chars_equal(&chars_of(v[i].as_str()), x);
        (i, found)
    } else {
        (i, false)
    }
}


// ---------------------------------------------------------------------------
// Stable insertion
// ---------------------------------------------------------------------------

/// Filtering keeps nothing when no element passes.
pub proof fn lemma_filter_none<T>(s: Seq<T>, pred: spec_fn(T) -> bool)
    requires
        forall|i: int| 0 <= i < s.len() ==> !pred(#[trigger] s[i]),
    ensures
        s.filter(pred) == Seq::<T>::empty(),
    decreases s.len(),
{
    reveal(Seq::filter);
    if s.len() > 0 {
        lemma_filter_none(s.drop_last(), pred);
    }
}

/// Filtering after a push.
pub proof fn lemma_filter_push<T>(s: Seq<T>, u: T, pred: spec_fn(T) -> bool)
    ensures
        s.push(u).filter(pred) == if pred(u) {
            s.filter(pred).push(u)
        } else {
            s.filter(pred)
        },
{
    reveal(Seq::filter);
    assert(s.push(u).drop_last() =~= s);
}

/// Inserting `u` at `p`, where no later element passes when `u` does,
/// extends what passes the filter by `u` at its end.
pub proof fn lemma_filter_insert<T>(s: Seq<T>, p: int, u: T, pred: spec_fn(T) -> bool)
    requires
        0 <= p <= s.len(),
        pred(u) ==> forall|q: int| p <= q < s.len() ==> !pred(#[trigger] s[q]),
    ensures
        s.insert(p, u).filter(pred) == if pred(u) {
            s.filter(pred).push(u)
        } else {
            s.filter(pred)
        },
{
    let a = s.take(p);
    let b = s.skip(p);
    assert(s.insert(p, u) =~= a.push(u) + b);
    assert(s =~= a + b);
    Seq::filter_distributes_over_add(a.push(u), b, pred);
    Seq::filter_distributes_over_add(a, b, pred);
    lemma_filter_push(a, u, pred);
    if pred(u) {
        assert forall|i: int| 0 <= i < b.len() implies !pred(#[trigger] b[i]) by {
            assert(b[i] == s[p + i]);
        }
        lemma_filter_none(b, pred);
        assert(a.filter(pred).push(u) + b.filter(pred) =~= a.filter(pred).push(u));
        assert(a.filter(pred) + b.filter(pred) =~= a.filter(pred));
    }
}

} // verus!
