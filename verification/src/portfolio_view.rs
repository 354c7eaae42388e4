//! Holdings cells: the native ETH and ERC-20 amounts aggregated in one cell
//! of the holdings grid, and their compact text.

use vstd::prelude::*;

use crate::primitives::{dec_digits, u256_add, u256_modulus, u256_of_value, u256_pow, U256};
use crate::text::{chars_lt, chars_of, push_chars, seq_lt, string_of};
use crate::units::{fixed_dec, pow10, split_units, zeros};

verus! {

// ---------------------------------------------------------------------------
// Thousands separators
// ---------------------------------------------------------------------------

/// The first `k` characters of `cs` with a `,` before each character at
/// index `i > 0` whose distance `byte_len - i` from the end is a multiple of
/// three (`byte_len` being the UTF-8 length of the whole text).
pub open spec fn sep_build(cs: Seq<char>, byte_len: int, k: int) -> Seq<char>
    decreases k,
{
    if k <= 0 {
        seq![]
    } else {
        let i = k - 1;
        let comma: Seq<char> = if i > 0 && i <= byte_len && (byte_len - i) % 3 == 0 {
            seq![',']
        } else {
            seq![]
        };
        sep_build(cs, byte_len, k - 1) + comma + seq![cs[i]]
    }
}

/// `add_thousands_separators`: texts of up to three bytes are unchanged.
pub open spec fn sep_spec(cs: Seq<char>, byte_len: int) -> Seq<char> {
    if byte_len <= 3 {
        cs
    } else {
        sep_build(cs, byte_len, cs.len() as int)
    }
}

fn sep_chars(cs: &Vec<char>, byte_len: usize) -> (r: Vec<char>)
    ensures
        r@ == sep_spec(cs@, byte_len as int),
{
    if byte_len <= 3 {
        let mut r: Vec<char> = Vec::new();
        push_chars(&mut r, cs);
        assert(r@ =~= cs@);
        return r;
    }
    let mut out: Vec<char> = Vec::new();
    let mut i: usize = 0;
    while i < cs.len()
        invariant
            i <= cs@.len(),
            byte_len > 3,
            out@ == sep_build(cs@, byte_len as int, i as int),
        decreases cs@.len() - i,
    {
        let ghost prev = out@;
        if i > 0 && i <= byte_len && (byte_len - i) % 3 == 0 {
            out.push(',');
        }
        out.push(cs[i]);
        i = i + 1;
        assert(out@ =~= sep_build(cs@, byte_len as int, i as int));
    }
    out
}

/// Inserts `,` between groups of three digits, counted from the right.
pub fn add_thousands_separators(int_str: &str) -> (r: String)
    ensures
        r@ == sep_spec(int_str@, int_str.len() as int),
{
    let len = int_str.len();
    let cs = chars_of(int_str);
    let v = sep_chars(&cs, len);
    string_of(&v)
}

/// Separators only add commas: dropping them gives the digits back.
pub proof fn law_separators_only_add_commas(cs: Seq<char>, byte_len: int)
    requires
        forall|i: int| 0 <= i < cs.len() ==> #[trigger] cs[i] != ',',
    ensures
        sep_spec(cs, byte_len).filter(|c: char| c != ',') == cs,
{
    if byte_len > 3 {
        lemma_sep_filter(cs, byte_len, cs.len() as int);
        assert(cs.take(cs.len() as int) =~= cs);
    } else {
        assert(cs.filter(|c: char| c != ',') =~= cs) by {
            lemma_filter_no_commas(cs);
        }
    }
}

/// Groups of three characters from the end, each after a `,`.
pub open spec fn comma_groups(s: Seq<char>) -> Seq<char>
    decreases s.len(),
{
    if s.len() < 3 {
        seq![]
    } else {
        comma_groups(s.take(s.len() - 3)) + seq![','] + s.skip(s.len() - 3)
    }
}

/// The length of the leading group of a text of `n` characters: 1 to 3.
pub open spec fn first_group_len(n: int) -> int {
    (n - 1) % 3 + 1
}

proof fn lemma_sep_first_group(cs: Seq<char>, n: int, k: int)
    requires
        n == cs.len(),
        n >= 1,
        0 <= k <= first_group_len(n),
    ensures
        sep_build(cs, n, k) == cs.take(k),
    decreases k,
{
    if k > 0 {
        lemma_sep_first_group(cs, n, k - 1);
        let i = k - 1;
        assert(!(i > 0 && (n - i) % 3 == 0));
        assert(cs.take(k - 1) + seq![cs[i]] =~= cs.take(k));
    } else {
        assert(cs.take(0) =~= Seq::<char>::empty());
    }
}

proof fn lemma_sep_later_groups(cs: Seq<char>, n: int, m: int)
    requires
        n == cs.len(),
        n >= 1,
        m >= 0,
        first_group_len(n) + 3 * m <= n,
    ensures
        sep_build(cs, n, first_group_len(n) + 3 * m) == cs.take(first_group_len(n)) + comma_groups(
            cs.subrange(first_group_len(n), first_group_len(n) + 3 * m),
        ),
    decreases m,
{
    let g = first_group_len(n);
    if m == 0 {
        lemma_sep_first_group(cs, n, g);
        assert(cs.subrange(g, g) =~= Seq::<char>::empty());
    } else {
        lemma_sep_later_groups(cs, n, m - 1);
        let a = g + 3 * (m - 1);
        assert((n - a) % 3 == 0);
        assert(!((n - (a + 1)) % 3 == 0));
        assert(!((n - (a + 2)) % 3 == 0));
        assert(sep_build(cs, n, a + 1) == sep_build(cs, n, a) + seq![','] + seq![cs[a]]);
        assert(sep_build(cs, n, a + 2) == sep_build(cs, n, a + 1) + Seq::<char>::empty() + seq![cs[a + 1]]);
        assert(sep_build(cs, n, a + 3) == sep_build(cs, n, a + 2) + Seq::<char>::empty() + seq![cs[a + 2]]);
        let t = cs.subrange(g, a + 3);
        assert(t.take(t.len() - 3) =~= cs.subrange(g, a));
        assert(t.skip(t.len() - 3) =~= seq![cs[a], cs[a + 1], cs[a + 2]]);
        assert(sep_build(cs, n, a + 3) =~= cs.take(g) + comma_groups(t));
    }
}

/// The separated text of `n` one-byte characters (digits) is its first
/// group of 1 to 3 characters, then groups of exactly 3, each after a `,`.
pub proof fn law_separator_groups(cs: Seq<char>)
    requires
        cs.len() >= 1,
    ensures
        1 <= first_group_len(cs.len() as int) <= 3,
        (cs.len() - first_group_len(cs.len() as int)) % 3 == 0,
        sep_spec(cs, cs.len() as int) == cs.take(first_group_len(cs.len() as int)) + comma_groups(
            cs.skip(first_group_len(cs.len() as int)),
        ),
{
    let n = cs.len() as int;
    let g = first_group_len(n);
    let m = (n - g) / 3;
    assert(g + 3 * m == n);
    if n <= 3 {
        assert(g == n);
        assert(cs.take(n) =~= cs);
        assert(cs.skip(n) =~= Seq::<char>::empty());
    } else {
        lemma_sep_later_groups(cs, n, m);
        assert(cs.subrange(g, n) =~= cs.skip(g));
    }
}

proof fn lemma_filter_no_commas(cs: Seq<char>)
    requires
        forall|i: int| 0 <= i < cs.len() ==> #[trigger] cs[i] != ',',
    ensures
        cs.filter(|c: char| c != ',') == cs,
    decreases cs.len(),
{
    reveal_with_fuel(Seq::<_>::filter, 1);
    if cs.len() > 0 {
        lemma_filter_no_commas(cs.drop_last());
        assert(cs.drop_last().push(cs.last()) =~= cs);
    } else {
        assert(cs.filter(|c: char| c != ',') =~= cs);
    }
}

proof fn lemma_sep_filter(cs: Seq<char>, byte_len: int, k: int)
    requires
        0 <= k <= cs.len(),
        forall|i: int| 0 <= i < cs.len() ==> #[trigger] cs[i] != ',',
    ensures
        sep_build(cs, byte_len, k).filter(|c: char| c != ',') == cs.take(k),
    decreases k,
{
    reveal_with_fuel(Seq::<_>::filter, 1);
    if k == 0 {
        assert(sep_build(cs, byte_len, 0) =~= Seq::<char>::empty());
        assert(Seq::<char>::empty().filter(|c: char| c != ',') =~= Seq::<char>::empty());
        assert(cs.take(0) =~= Seq::<char>::empty());
    } else {
        lemma_sep_filter(cs, byte_len, k - 1);
        let i = k - 1;
        let prev = sep_build(cs, byte_len, k - 1);
        let comma: Seq<char> = if i > 0 && i <= byte_len && (byte_len - i) % 3 == 0 {
            seq![',']
        } else {
            seq![]
        };
        let f = |c: char| c != ',';
        Seq::filter_distributes_over_add(prev + comma, seq![cs[i]], f);
        Seq::filter_distributes_over_add(prev, comma, f);
        assert(comma.filter(f) =~= Seq::<char>::empty()) by {
            if comma.len() > 0 {
                assert(comma.drop_last() =~= Seq::<char>::empty());
                assert(Seq::<char>::empty().filter(f) =~= Seq::<char>::empty());
            } else {
                assert(comma =~= Seq::<char>::empty());
            }
        }
        assert(seq![cs[i]].filter(f) =~= seq![cs[i]]) by {
            assert(seq![cs[i]].drop_last() =~= Seq::<char>::empty());
            assert(Seq::<char>::empty().filter(f) =~= Seq::<char>::empty());
        }
        assert(cs.take(k) =~= cs.take(k - 1) + seq![cs[i]]);
    }
}

// ---------------------------------------------------------------------------
// Compact amounts
// ---------------------------------------------------------------------------

/// `frac_digits` fractional digits (truncated, zero filled) after the whole
/// part with thousands separators; no point when `frac_digits` is zero.
pub open spec fn compact_text(n: nat, decimals: nat, frac_digits: nat) -> Seq<char> {
    let whole = dec_digits(n / pow10(decimals));
    let frac = (fixed_dec(n % pow10(decimals), decimals) + zeros(frac_digits)).take(frac_digits as int);
    let w = sep_spec(whole, whole.len() as int);
    if frac_digits == 0 {
        w
    } else {
        w + seq!['.'] + frac
    }
}

pub fn format_amount_compact(amount: U256, decimals: u8, frac_digits: u8) -> (r: String)
    ensures
        r@ == compact_text(amount@, decimals as nat, frac_digits as nat),
{
    let target = frac_digits as usize;
    let (whole, frac_full) = split_units(amount, decimals as u32);
    proof {
        crate::units::lemma_fixed_dec_len(amount@ % pow10(decimals as nat), decimals as nat);
    }
    let mut frac: Vec<char> = Vec::new();
    let mut i: usize = 0;
    let ghost full = frac_full@ + zeros(target as nat);
    while i < target
        invariant
            i <= target,
            full == frac_full@ + zeros(target as nat),
            frac@ == full.take(i as int),
        decreases target - i,
    {
        if i < frac_full.len() {
            frac.push(frac_full[i]);
        } else {
            frac.push('0');
        }
        i = i + 1;
        assert(frac@ =~= full.take(i as int));
    }
    let mut out = sep_chars(&whole, whole.len());
    if target > 0 {
        out.push('.');
        push_chars(&mut out, &frac);
    }
    assert(out@ =~= compact_text(amount@, decimals as nat, frac_digits as nat));
    string_of(&out)
}

/// A token amount worth showing: nonzero, and at least 0.01 of a unit
/// (`10^(decimals - 2)` raw units, as U256 `pow` computes it) unless the
/// token has fewer than two decimals.
pub open spec fn meets_threshold_spec(amount: U256, decimals: u8) -> bool {
    amount@ != 0 && (decimals < 2 || amount@ >= vstd::arithmetic::power::pow(10, (decimals - 2) as nat)
        as nat % u256_modulus())
}

fn meets_token_threshold(amount: U256, decimals: u8) -> (b: bool)
    ensures
        b == meets_threshold_spec(amount, decimals),
{
    if amount.is_zero() {
        return false;
    }
    if decimals < 2 {
        return true;
    }
    let scale = u256_pow(U256::from_u64(10), U256::from_u64((decimals - 2) as u64));
    amount.ge(&scale)
}

// ---------------------------------------------------------------------------
// Cells
// ---------------------------------------------------------------------------

/// One holdings cell (or a row/column total): native ETH plus ERC-20
/// holdings keyed by symbol as `(symbol, amount, decimals)`, kept sorted by
/// symbol with no symbol twice.
#[derive(Debug)]
pub struct CellAgg {
    pub native_wei: U256,
    pub tokens: Vec<(String, U256, u8)>,
}

pub open spec fn token_rows(v: Seq<(String, U256, u8)>) -> Seq<(Seq<char>, U256, u8)> {
    v.map_values(|x: (String, U256, u8)| (x.0@, x.1, x.2))
}

pub struct CellView {
    pub native: U256,
    pub tokens: Seq<(Seq<char>, U256, u8)>,
}

impl View for CellAgg {
    type V = CellView;

    open spec fn view(&self) -> CellView {
        CellView { native: self.native_wei, tokens: token_rows(self.tokens@) }
    }
}

/// Symbols strictly increase.
pub open spec fn sorted_symbols(t: Seq<(Seq<char>, U256, u8)>) -> bool {
    forall|i: int, j: int| 0 <= i < j < t.len() ==> seq_lt(#[trigger] t[i].0, #[trigger] t[j].0)
}

/// Where `k` belongs: the number of leading symbols below it.
pub open spec fn lower_bound(t: Seq<(Seq<char>, U256, u8)>, k: Seq<char>) -> int
    decreases t.len(),
{
    if t.len() == 0 {
        0
    } else if seq_lt(t[0].0, k) {
        1 + lower_bound(t.drop_first(), k)
    } else {
        0
    }
}

/// `amount` added (modulo 2^256, as U256 `+=`) to the entry for `k`, which is
/// created with `decimals` if missing; an existing entry keeps its decimals.
pub open spec fn add_token_spec(t: Seq<(Seq<char>, U256, u8)>, k: Seq<char>, amount: U256, decimals: u8) -> Seq<
    (Seq<char>, U256, u8),
> {
    let p = lower_bound(t, k);
    if p < t.len() && t[p].0 == k {
        t.update(p, (k, u256_of_value((t[p].1@ + amount@) % u256_modulus()), t[p].2))
    } else {
        t.insert(p, (k, amount, decimals))
    }
}

/// Adding every entry of `o`, in order.
pub open spec fn merge_tokens_spec(t: Seq<(Seq<char>, U256, u8)>, o: Seq<(Seq<char>, U256, u8)>) -> Seq<
    (Seq<char>, U256, u8),
>
    decreases o.len(),
{
    if o.len() == 0 {
        t
    } else {
        let r = merge_tokens_spec(t, o.drop_last());
        add_token_spec(r, o.last().0, o.last().1, o.last().2)
    }
}

proof fn lemma_lower_bound(t: Seq<(Seq<char>, U256, u8)>, k: Seq<char>)
    requires
        sorted_symbols(t),
    ensures
        0 <= lower_bound(t, k) <= t.len(),
        forall|i: int| 0 <= i < lower_bound(t, k) ==> seq_lt(#[trigger] t[i].0, k),
        forall|i: int| lower_bound(t, k) <= i < t.len() ==> !seq_lt(#[trigger] t[i].0, k),
    decreases t.len(),
{
    if t.len() > 0 {
        let r = t.drop_first();
        assert(sorted_symbols(r)) by {
            assert forall|i: int, j: int| 0 <= i < j < r.len() implies seq_lt(#[trigger] r[i].0, #[trigger] r[j].0) by {
                assert(r[i] == t[i + 1] && r[j] == t[j + 1]);
            }
        }
        lemma_lower_bound(r, k);
        if seq_lt(t[0].0, k) {
            assert forall|i: int| 0 <= i < lower_bound(t, k) implies seq_lt(#[trigger] t[i].0, k) by {
                if i > 0 {
                    assert(t[i] == r[i - 1]);
                }
            }
            assert forall|i: int| lower_bound(t, k) <= i < t.len() implies !seq_lt(#[trigger] t[i].0, k) by {
                assert(t[i] == r[i - 1]);
            }
        } else {
            assert forall|i: int| 0 <= i < t.len() implies !seq_lt(#[trigger] t[i].0, k) by {
                if i > 0 {
                    assert(seq_lt(t[0].0, t[i].0));
                    if seq_lt(t[i].0, k) {
                        crate::text::lemma_seq_lt_trans(t[0].0, t[i].0, k);
                    }
                }
            }
        }
    }
}

proof fn lemma_add_token_sorted(t: Seq<(Seq<char>, U256, u8)>, k: Seq<char>, amount: U256, decimals: u8)
    requires
        sorted_symbols(t),
    ensures
        sorted_symbols(add_token_spec(t, k, amount, decimals)),
{
    lemma_lower_bound(t, k);
    let p = lower_bound(t, k);
    let r = add_token_spec(t, k, amount, decimals);
    if p < t.len() && t[p].0 == k {
        assert forall|i: int, j: int| 0 <= i < j < r.len() implies seq_lt(#[trigger] r[i].0, #[trigger] r[j].0) by {
            assert(r[i].0 == t[i].0 && r[j].0 == t[j].0);
        }
    } else {
        assert forall|i: int, j: int| 0 <= i < j < r.len() implies seq_lt(#[trigger] r[i].0, #[trigger] r[j].0) by {
            if j < p {
                assert(r[i] == t[i] && r[j] == t[j]);
            } else if j == p {
                assert(r[i] == t[i]);
            } else if i == p {
                assert(r[j] == t[j - 1]);
                crate::text::lemma_seq_lt_total(t[j - 1].0, k);
                if j - 1 > p {
                    assert(seq_lt(t[p].0, t[j - 1].0));
                    crate::text::lemma_seq_lt_total(t[p].0, k);
                    if seq_lt(k, t[p].0) {
                        crate::text::lemma_seq_lt_trans(k, t[p].0, t[j - 1].0);
                    }
                }
            } else if i < p {
                assert(r[i] == t[i] && r[j] == t[j - 1]);
            } else {
                assert(r[i] == t[i - 1] && r[j] == t[j - 1]);
            }
        }
    }
}

fn symbol_lt(tokens: &Vec<(String, U256, u8)>, i: usize, key: &Vec<char>) -> (b: bool)
    requires
        i < tokens@.len(),
    ensures
        b == seq_lt(token_rows(tokens@)[i as int].0, key@),
{
    let cur = chars_of(tokens[i].0.as_str());
    chars_lt(&cur, key)
}

impl CellAgg {
    pub open spec fn wf(&self) -> bool {
        sorted_symbols(self@.tokens)
    }

    /// A cell with nothing in it.
    pub fn new() -> (r: CellAgg)
        ensures
            r@.native@ == 0,
            r@.tokens.len() == 0,
            r.wf(),
    {
        CellAgg { native_wei: U256::zero(), tokens: Vec::new() }
    }

    pub fn add_native(&mut self, wei: U256)
        ensures
            final(self)@.native@ == (old(self)@.native@ + wei@) % u256_modulus(),
            final(self)@.tokens == old(self)@.tokens,
    {
        self.native_wei = u256_add(self.native_wei, wei);
    }

    pub fn add_token(&mut self, symbol: &str, amount: U256, decimals: u8)
        requires
            old(self).wf(),
        ensures
            final(self).wf(),
            final(self)@.native == old(self)@.native,
            final(self)@.tokens == add_token_spec(old(self)@.tokens, symbol@, amount, decimals),
    {
        let key = chars_of(symbol);
        let n = self.tokens.len();
        let mut i: usize = 0;
        let ghost t = self@.tokens;
        proof {
            lemma_lower_bound(t, symbol@);
        }
        while i < n && symbol_lt(&self.tokens, i, &key)
            invariant
                n == self.tokens@.len(),
                t == self@.tokens,
                sorted_symbols(t),
                key@ == symbol@,
                i <= n,
                forall|q: int| 0 <= q < i ==> seq_lt(#[trigger] t[q].0, symbol@),
            decreases n - i,
        {
            i = i + 1;
        }
        assert(i == lower_bound(t, symbol@)) by {
            let lb = lower_bound(t, symbol@);
            if i < lb {
                assert(seq_lt(t[i as int].0, symbol@));
            }
            if i > lb {
                assert(seq_lt(t[lb].0, symbol@));
            }
        }
        proof {
            lemma_add_token_sorted(t, symbol@, amount, decimals);
        }
        if i < n {
            let cur = chars_of(self.tokens[i].0.as_str());
            if crate::text::chars_equal(&cur, &key) {
                let total = u256_add(self.tokens[i].1, amount);
                proof {
                    crate::primitives::lemma_u256_of_value_self(total);
                }
                let name = self.tokens[i].0.clone();
                let dec = self.tokens[i].2;
                self.tokens.set(i, (name, total, dec));
                assert(self@.tokens =~= add_token_spec(t, symbol@, amount, decimals));
                return;
            }
        }
        let name = string_of(&key);
        self.tokens.insert(i, (name, amount, decimals));
        assert(self@.tokens =~= add_token_spec(t, symbol@, amount, decimals));
    }

    /// Adds another cell's native and token amounts into this one.
    pub fn merge(&mut self, other: &CellAgg)
        requires
            old(self).wf(),
        ensures
            final(self).wf(),
            final(self)@.native@ == (old(self)@.native@ + other@.native@) % u256_modulus(),
            final(self)@.tokens == merge_tokens_spec(old(self)@.tokens, other@.tokens),
    {
        self.add_native(other.native_wei);
        let ghost start = self@.tokens;
        let ghost o = other@.tokens;
        let mut i: usize = 0;
        while i < other.tokens.len()
            invariant
                i <= other.tokens@.len(),
                o == other@.tokens,
                self.wf(),
                self@.tokens == merge_tokens_spec(start, o.take(i as int)),
                self@.native@ == (old(self)@.native@ + other@.native@) % u256_modulus(),
            decreases other.tokens@.len() - i,
        {
            let sym = other.tokens[i].0.as_str();
            let amt = other.tokens[i].1;
            let dec = other.tokens[i].2;
            proof {
                assert(o.take(i + 1).drop_last() =~= o.take(i as int));
                assert(o.take(i + 1).last() == o[i as int]);
            }
            self.add_token(sym, amt, dec);
            i = i + 1;
        }
        assert(o.take(o.len() as int) =~= o);
    }

    /// `(amount_text, symbol)` for each shown line: native ETH always, then
    /// each token above the display threshold, in symbol order.
    pub fn entries(&self) -> (r: Vec<(String, String)>)
        ensures
            entry_rows(r@) == entries_spec(self@),
    {
        let mut out: Vec<(String, String)> = Vec::new();
        proof {
            reveal_strlit("ETH");
        }
        out.push((format_amount_compact(self.native_wei, 18, 4), string_of(&chars_of("ETH"))));
        let ghost t = self@.tokens;
        assert(entry_rows(out@) =~~= token_entries(t.take(0), compact_text(self.native_wei@, 18, 4)));
        let mut i: usize = 0;
        while i < self.tokens.len()
            invariant
                i <= self.tokens@.len(),
                t == self@.tokens,
                entry_rows(out@) == token_entries(t.take(i as int), compact_text(self.native_wei@, 18, 4)),
            decreases self.tokens@.len() - i,
        {
            let amt = self.tokens[i].1;
            let dec = self.tokens[i].2;
            proof {
                assert(t.take(i + 1).drop_last() =~= t.take(i as int));
                assert(t.take(i + 1).last() == t[i as int]);
            }
            if meets_token_threshold(amt, dec) {
                let ghost prev = out@;
                let text = format_amount_compact(amt, dec, 2);
                let sym = self.tokens[i].0.clone();
                out.push((text, sym));
                assert(entry_rows(out@) =~= entry_rows(prev).push((compact_text(amt@, dec as nat, 2), t[i as int].0)));
            }
            i = i + 1;
        }
        assert(t.take(t.len() as int) =~= t);
        out
    }

    /// The entries one per line, amounts right-aligned to the widest.
    pub fn render(&self) -> (r: String)
        ensures
            r@ == render_spec(entries_spec(self@)),
    {
        let entries = self.entries();
        let ghost ev = entry_rows(entries@);
        let mut width: usize = 0;
        let mut i: usize = 0;
        while i < entries.len()
            invariant
                i <= entries@.len(),
                ev == entry_rows(entries@),
                width == max_width(ev.take(i as int)),
            decreases entries@.len() - i,
        {
            let w = chars_of(entries[i].0.as_str()).len();
            proof {
                assert(ev.take(i + 1).drop_last() =~= ev.take(i as int));
            }
            if w > width {
                width = w;
            }
            i = i + 1;
        }
        assert(ev.take(ev.len() as int) =~= ev);
        let mut out: Vec<char> = Vec::new();
        let mut j: usize = 0;
        while j < entries.len()
            invariant
                j <= entries@.len(),
                ev == entry_rows(entries@),
                width == max_width(ev),
                out@ == render_lines(ev.take(j as int), width as nat),
            decreases entries@.len() - j,
        {
            let amt = chars_of(entries[j].0.as_str());
            let sym = chars_of(entries[j].1.as_str());
            let ghost prev = out@;
            if j > 0 {
                out.push('\n');
            }
            let mut k: usize = amt.len();
            assert(out@ =~= prev + (if j > 0 { seq!['\n'] } else { seq![] }) + spaces(0));
            while k < width
                invariant
                    k == amt@.len() || (amt@.len() < k <= width),
                    out@ == prev + (if j > 0 { seq!['\n'] } else { seq![] }) + spaces((k - amt@.len()) as nat),
                decreases width - k,
            {
                out.push(' ');
                k = k + 1;
                assert(out@ =~= prev + (if j > 0 { seq!['\n'] } else { seq![] }) + spaces((k - amt@.len()) as nat));
            }
            push_chars(&mut out, &amt);
            out.push(' ');
            push_chars(&mut out, &sym);
            proof {
                assert(ev.take(j + 1).drop_last() =~= ev.take(j as int));
                assert(ev.take(j + 1).last() == ev[j as int]);
            }
            assert(out@ =~= render_lines(ev.take(j + 1), width as nat));
            j = j + 1;
        }
        assert(ev.take(ev.len() as int) =~= ev);
        string_of(&out)
    }
}

pub open spec fn entry_rows(v: Seq<(String, String)>) -> Seq<(Seq<char>, Seq<char>)> {
    v.map_values(|x: (String, String)| (x.0@, x.1@))
}

/// The native line, then the shown token lines, in order.
pub open spec fn token_entries(
    t: Seq<(Seq<char>, U256, u8)>,
    native_text: Seq<char>,
) -> Seq<(Seq<char>, Seq<char>)>
    decreases t.len(),
{
    if t.len() == 0 {
        seq![(native_text, seq!['E', 'T', 'H'])]
    } else {
        let rest = token_entries(t.drop_last(), native_text);
        let x = t.last();
        if meets_threshold_spec(x.1, x.2) {
            rest.push((compact_text(x.1@, x.2 as nat, 2), x.0))
        } else {
            rest
        }
    }
}

/// The lines of a cell: native ETH with four decimals, then each token at or
/// above the threshold with two.
pub open spec fn entries_spec(c: CellView) -> Seq<(Seq<char>, Seq<char>)> {
    token_entries(c.tokens, compact_text(c.native@, 18, 4))
}

/// The widest amount text.
pub open spec fn max_width(e: Seq<(Seq<char>, Seq<char>)>) -> nat
    decreases e.len(),
{
    if e.len() == 0 {
        0
    } else {
        let w = max_width(e.drop_last());
        let l = e.last().0.len();
        if l > w {
            l
        } else {
            w
        }
    }
}

pub open spec fn spaces(k: nat) -> Seq<char> {
    Seq::new(k, |i: int| ' ')
}

/// `amount` right-aligned in `width`, a space, the symbol; lines joined by `\n`.
pub open spec fn render_lines(e: Seq<(Seq<char>, Seq<char>)>, width: nat) -> Seq<char>
    decreases e.len(),
{
    if e.len() == 0 {
        seq![]
    } else {
        let x = e.last();
        let pad = if x.0.len() < width {
            spaces((width - x.0.len()) as nat)
        } else {
            seq![]
        };
        render_lines(e.drop_last(), width) + (if e.len() > 1 { seq!['\n'] } else { seq![] }) + pad + x.0 + seq![' ']
            + x.1
    }
}

pub open spec fn render_spec(e: Seq<(Seq<char>, Seq<char>)>) -> Seq<char> {
    render_lines(e, max_width(e))
}


/// The amount held of `k`: that of its entry, 0 without one.
pub open spec fn token_amount(t: Seq<(Seq<char>, U256, u8)>, k: Seq<char>) -> nat
    decreases t.len(),
{
    if t.len() == 0 {
        0
    } else if t.last().0 == k {
        t.last().1@
    } else {
        token_amount(t.drop_last(), k)
    }
}

proof fn lemma_sorted_prefix(t: Seq<(Seq<char>, U256, u8)>)
    requires
        sorted_symbols(t),
        t.len() > 0,
    ensures
        sorted_symbols(t.drop_last()),
        forall|i: int| 0 <= i < t.len() - 1 ==> #[trigger] t[i].0 != t.last().0,
{
    let d = t.drop_last();
    assert forall|i: int, j: int| 0 <= i < j < d.len() implies seq_lt(#[trigger] d[i].0, #[trigger] d[j].0) by {
        assert(d[i] == t[i] && d[j] == t[j]);
    }
    assert forall|i: int| 0 <= i < t.len() - 1 implies #[trigger] t[i].0 != t.last().0 by {
        assert(seq_lt(t[i].0, t[t.len() - 1].0));
        crate::text::lemma_seq_lt_irrefl(t[i].0);
    }
}

/// With distinct symbols, the amount of `k` is that of the entry at `i` when
/// its symbol is `k`, and 0 when no entry has it.
proof fn lemma_token_amount_at(t: Seq<(Seq<char>, U256, u8)>, k: Seq<char>)
    requires
        sorted_symbols(t),
    ensures
        forall|i: int| 0 <= i < t.len() && #[trigger] t[i].0 == k ==> token_amount(t, k) == t[i].1@,
        (forall|i: int| 0 <= i < t.len() ==> #[trigger] t[i].0 != k) ==> token_amount(t, k) == 0,
    decreases t.len(),
{
    if t.len() > 0 {
        lemma_sorted_prefix(t);
        let d = t.drop_last();
        lemma_token_amount_at(d, k);
        assert forall|i: int| 0 <= i < t.len() && #[trigger] t[i].0 == k implies token_amount(t, k) == t[i].1@ by {
            if i < t.len() - 1 {
                assert(d[i] == t[i]);
            }
        }
        if forall|i: int| 0 <= i < t.len() ==> #[trigger] t[i].0 != k {
            assert(t[t.len() - 1].0 != k);
            assert forall|i: int| 0 <= i < d.len() implies #[trigger] d[i].0 != k by {
                assert(d[i] == t[i]);
            }
        }
    }
}

proof fn lemma_add_token_amount(t: Seq<(Seq<char>, U256, u8)>, k: Seq<char>, amount: U256, decimals: u8, q: Seq<char>)
    requires
        sorted_symbols(t),
    ensures
        token_amount(add_token_spec(t, k, amount, decimals), q) == if q == k {
            (token_amount(t, k) + amount@) % u256_modulus()
        } else {
            token_amount(t, q)
        },
{
    lemma_lower_bound(t, k);
    lemma_add_token_sorted(t, k, amount, decimals);
    let p = lower_bound(t, k);
    let r = add_token_spec(t, k, amount, decimals);
    lemma_token_amount_at(t, q);
    lemma_token_amount_at(r, q);
    crate::primitives::lemma_u256_bounds(amount);
    if p < t.len() && t[p].0 == k {
        let v = (t[p].1@ + amount@) % u256_modulus();
        crate::primitives::lemma_u256_of_value(v);
        assert(r[p].1@ == v);
        if q == k {
            assert(r[p].0 == q);
        } else {
            assert forall|i: int| 0 <= i < r.len() && #[trigger] r[i].0 == q implies t[i].0 == q && r[i] == t[i] by {}
            assert forall|i: int| 0 <= i < t.len() && #[trigger] t[i].0 == q implies r[i].0 == q && r[i] == t[i] by {}
        }
    } else {
        assert(forall|i: int| 0 <= i < t.len() ==> #[trigger] t[i].0 != k) by {
            assert forall|i: int| 0 <= i < t.len() implies #[trigger] t[i].0 != k by {
                if i < p {
                    assert(seq_lt(t[i].0, k));
                    crate::text::lemma_seq_lt_irrefl(k);
                } else if i > p {
                    assert(seq_lt(t[p].0, t[i].0));
                    crate::text::lemma_seq_lt_total(t[p].0, k);
                    if t[i].0 == k {
                        assert(!seq_lt(t[p].0, k));
                        assert(t[p].0 != k);
                        assert(seq_lt(k, t[p].0));
                        crate::text::lemma_seq_lt_total(k, t[p].0);
                    }
                }
            }
        }
        vstd::arithmetic::div_mod::lemma_small_mod(amount@, u256_modulus());
        if q == k {
            assert(r[p].0 == q);
        } else {
            assert forall|i: int| 0 <= i < r.len() && #[trigger] r[i].0 == q implies exists|j: int| 0 <= j < t.len() && t[j] == r[i] by {
                if i < p {
                    assert(t[i] == r[i]);
                } else {
                    assert(i != p);
                    assert(t[i - 1] == r[i]);
                }
            }
            assert forall|i: int| 0 <= i < t.len() && #[trigger] t[i].0 == q implies (if i < p { r[i] } else { r[i + 1] }) == t[i] by {}
            if exists|i: int| 0 <= i < t.len() && #[trigger] t[i].0 == q {
                let w = choose|i: int| 0 <= i < t.len() && #[trigger] t[i].0 == q;
                if w < p {
                    assert(r[w] == t[w]);
                } else {
                    assert(r[w + 1] == t[w]);
                }
            } else {
                assert forall|i: int| 0 <= i < r.len() implies #[trigger] r[i].0 != q by {
                    if i < p {
                        assert(r[i] == t[i]);
                    } else if i > p {
                        assert(r[i] == t[i - 1]);
                    }
                }
            }
        }
    }
}

/// Merging one cell into another adds the amounts symbol by symbol (each
/// modulo 2^256, as `U256` addition does).
pub proof fn law_merge_adds_amounts(t: Seq<(Seq<char>, U256, u8)>, o: Seq<(Seq<char>, U256, u8)>, k: Seq<char>)
    requires
        sorted_symbols(t),
        sorted_symbols(o),
    ensures
        token_amount(merge_tokens_spec(t, o), k) == (token_amount(t, k) + token_amount(o, k)) % u256_modulus(),
        sorted_symbols(merge_tokens_spec(t, o)),
    decreases o.len(),
{
    if o.len() == 0 {
        lemma_token_amount_bound(t, k);
        vstd::arithmetic::div_mod::lemma_small_mod(token_amount(t, k), u256_modulus());
    } else {
        lemma_sorted_prefix(o);
        let d = o.drop_last();
        law_merge_adds_amounts(t, d, k);
        let m = merge_tokens_spec(t, d);
        let (key, amt, dec) = o.last();
        lemma_add_token_amount(m, key, amt, dec, k);
        lemma_add_token_sorted(m, key, amt, dec);
        let x = token_amount(t, k);
        let y = token_amount(d, k);
        if k == key {
            lemma_token_amount_at(d, k);
            assert(y == 0);
            vstd::arithmetic::div_mod::lemma_add_mod_noop(x as int, 0, u256_modulus() as int);
            lemma_token_amount_bound(t, k);
            vstd::arithmetic::div_mod::lemma_small_mod(x, u256_modulus());
        }
    }
}

proof fn lemma_token_amount_bound(t: Seq<(Seq<char>, U256, u8)>, k: Seq<char>)
    ensures
        token_amount(t, k) < u256_modulus(),
    decreases t.len(),
{
    if t.len() > 0 {
        lemma_token_amount_bound(t.drop_last(), k);
        crate::primitives::lemma_u256_bounds(t.last().1);
    }
}

/// Merging a cell into an empty one gives the same amounts.
pub proof fn law_merge_into_empty(o: Seq<(Seq<char>, U256, u8)>, k: Seq<char>)
    requires
        sorted_symbols(o),
    ensures
        token_amount(merge_tokens_spec(seq![], o), k) == token_amount(o, k),
{
    law_merge_adds_amounts(seq![], o, k);
    lemma_token_amount_bound(o, k);
    vstd::arithmetic::div_mod::lemma_small_mod(token_amount(o, k), u256_modulus());
}

} // verus!
