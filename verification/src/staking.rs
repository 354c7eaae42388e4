//! Beacon-node validator balances: the query URL and the summary of what the
//! node answered.

use vstd::prelude::*;

use crate::primitives::dec_digits;
use crate::text::{chars_of, push_decimal, push_text, string_of};

verus! {

/// Validators found on the beacon node and their summed balance.
#[derive(Debug, Clone, Copy)]
pub struct StakingSummary {
    pub validator_count: u64,
    pub total_balance_gwei: u64,
}

/// Sum of the balances, in gwei.
pub open spec fn gwei_total(s: Seq<u64>) -> nat
    decreases s.len(),
{
    if s.len() == 0 {
        0
    } else {
        gwei_total(s.drop_last()) + s.last() as nat
    }
}

/// The summary of the balances a beacon node reported, one per validator.
/// With no validators asked for, nothing is fetched and this is the empty
/// summary.
pub fn summarize_balances(balances: &[u64]) -> (r: StakingSummary)
    requires
        gwei_total(balances@) <= u64::MAX,
    ensures
        r.validator_count == balances@.len(),
        r.total_balance_gwei == gwei_total(balances@),
{
    let mut total: u64 = 0;
    let mut i: usize = 0;
    while i < balances.len()
        invariant
            i <= balances@.len(),
            total == gwei_total(balances@.take(i as int)),
            gwei_total(balances@) <= u64::MAX,
        decreases balances@.len() - i,
    {
        assert(balances@.take(i + 1).drop_last() =~= balances@.take(i as int));
        proof {
            lemma_gwei_total_prefix(balances@, i + 1);
        }
        total = total + balances[i];
        i = i + 1;
    }
    assert(balances@.take(balances@.len() as int) =~= balances@);
    StakingSummary { validator_count: balances.len() as u64, total_balance_gwei: total }
}

proof fn lemma_gwei_total_prefix(s: Seq<u64>, k: int)
    requires
        0 <= k <= s.len(),
    ensures
        gwei_total(s.take(k)) <= gwei_total(s),
    decreases s.len() - k,
{
    if k < s.len() {
        let t = s.drop_last();
        assert(t.take(k) =~= s.take(k));
        lemma_gwei_total_prefix(t, k);
    } else {
        assert(s.take(k) =~= s);
    }
}

/// `s` with every trailing `c` removed (`str::trim_end_matches` on a char).
pub open spec fn trim_end_char(s: Seq<char>, c: char) -> Seq<char>
    decreases s.len(),
{
    if s.len() > 0 && s.last() == c {
        trim_end_char(s.drop_last(), c)
    } else {
        s
    }
}

/// The beacon node's base URL without trailing slashes.
pub fn beacon_base_url(url: &str) -> (r: String)
    ensures
        r@ == trim_end_char(url@, '/'),
{
    let v = chars_of(url);
    let mut n: usize = v.len();
    assert(v@.take(n as int) =~= v@);
    while n > 0 && v[n - 1] == '/'
        invariant
            n <= v@.len(),
            trim_end_char(v@.take(n as int), '/') == trim_end_char(v@, '/'),
        decreases n,
    {
        assert(v@.take(n - 1) =~= v@.take(n as int).drop_last());
        n = n - 1;
    }
    assert(v@.take(v@.len() as int) =~= v@);
    let mut out: Vec<char> = Vec::new();
    let mut i: usize = 0;
    while i < n
        invariant
            i <= n <= v@.len(),
            out@ == v@.take(i as int),
        decreases n - i,
    {
        out.push(v[i]);
        i = i + 1;
        assert(out@ =~= v@.take(i as int));
    }
    string_of(&out)
}

/// The decimal indices joined by commas.
pub open spec fn joined_ids(ids: Seq<u64>) -> Seq<char>
    decreases ids.len(),
{
    if ids.len() == 0 {
        seq![]
    } else if ids.len() == 1 {
        dec_digits(ids[0] as nat)
    } else {
        joined_ids(ids.drop_last()) + seq![','] + dec_digits(ids.last() as nat)
    }
}

/// Appends the indices, decimal and comma-separated, to `out`.
pub fn push_joined_ids(out: &mut Vec<char>, ids: &[u64])
    ensures
        final(out)@ == old(out)@ + joined_ids(ids@),
{
    let ghost start = out@;
    let mut i: usize = 0;
    while i < ids.len()
        invariant
            i <= ids@.len(),
            out@ == start + joined_ids(ids@.take(i as int)),
        decreases ids@.len() - i,
    {
        let ghost before = out@;
        assert(ids@.take(i + 1).drop_last() =~= ids@.take(i as int));
        if i > 0 {
            out.push(',');
        }
        push_decimal(out, ids[i]);
        i = i + 1;
        proof {
            if i == 1 {
                assert(joined_ids(ids@.take(0)) =~= Seq::<char>::empty());
                assert(out@ =~= start + joined_ids(ids@.take(1)));
            } else {
                assert(out@ =~= start + joined_ids(ids@.take(i as int)));
            }
        }
    }
    assert(ids@.take(ids@.len() as int) =~= ids@);
}

pub open spec fn validators_path() -> Seq<char> {
    "/eth/v1/beacon/states/head/validators?id="@
}

/// The beacon API URL that asks for the given validators at the head state.
pub fn validators_url(base_url: &str, indices: &[u64]) -> (r: String)
    ensures
        r@ == trim_end_char(base_url@, '/') + validators_path() + joined_ids(indices@),
{
    let base = beacon_base_url(base_url);
    let mut out = chars_of(base.as_str());
    push_text(&mut out, "/eth/v1/beacon/states/head/validators?id=");
    push_joined_ids(&mut out, indices);
    string_of(&out)
}

} // verus!
