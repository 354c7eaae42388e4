//! The portfolio snapshot: native balances per address and chain, beacon
//! staking totals and Lido CSM bonds, and the totals the summary shows.

use vstd::prelude::*;

use crate::chain::{all_chains_spec, Chain};
use crate::primitives::{u256_add, u256_modulus, u256_mul, u256_of_value, Address, U256};
use crate::staking::StakingSummary;
use crate::config::{chain_url, Config};
use crate::csm::CsmBond;
use crate::text::{chars_equal, chars_lt, chars_of, seq_lt, string_of};

verus! {

/// Seconds the cached staking summary stays fresh.
pub const STAKING_CACHE_TTL_SECS: u64 = 300;

/// Wei per gwei.
pub const GWEI_PER_ETH: u64 = 1_000_000_000;

#[derive(Debug)]
pub struct NativeRow {
    pub alias: String,
    pub address: Address,
    pub chain: Chain,
    pub balance_wei: U256,
}

#[derive(Debug)]
pub struct StakingRow {
    pub alias: String,
    pub validator_count: u64,
    pub total_balance_gwei: u64,
    pub from_cache: bool,
}

#[derive(Debug, Clone, Copy)]
pub struct CsmRow {
    pub operator_id: u64,
    pub bond_steth_wei: U256,
}

#[derive(Debug)]
pub struct PortfolioSnapshot {
    pub native: Vec<NativeRow>,
    pub staking: Vec<StakingRow>,
    pub csm: Vec<CsmRow>,
}

pub open spec fn gwei_value(gwei: u64) -> nat {
    gwei as nat * 1_000_000_000
}

/// Gwei to wei: exact, as 1e9 times a `u64` fits in 256 bits.
pub fn gwei_to_wei(gwei: u64) -> (r: U256)
    ensures
        r@ == gwei_value(gwei),
{
    let r = u256_mul(U256::from_u64(gwei), U256::from_u64(GWEI_PER_ETH));
    assert(gwei as nat * 1_000_000_000 < u256_modulus()) by (nonlinear_arith)
        requires
            gwei <= u64::MAX,
    ;
    proof {
        vstd::arithmetic::div_mod::lemma_small_mod(gwei as nat * 1_000_000_000, u256_modulus());
    }
    r
}

/// Sum of native balances, wrapping at 2^256 as U256 `+=` does.
pub open spec fn native_sum(rows: Seq<NativeRow>) -> nat
    decreases rows.len(),
{
    if rows.len() == 0 {
        0
    } else {
        (native_sum(rows.drop_last()) + rows.last().balance_wei@) % u256_modulus()
    }
}

/// `start` plus the staking balances in wei, wrapping at 2^256.
pub open spec fn staking_sum(start: nat, rows: Seq<StakingRow>) -> nat
    decreases rows.len(),
{
    if rows.len() == 0 {
        start
    } else {
        (staking_sum(start, rows.drop_last()) + gwei_value(rows.last().total_balance_gwei)) % u256_modulus()
    }
}

pub open spec fn csm_sum(rows: Seq<CsmRow>) -> nat
    decreases rows.len(),
{
    if rows.len() == 0 {
        0
    } else {
        (csm_sum(rows.drop_last()) + rows.last().bond_steth_wei@) % u256_modulus()
    }
}

/// Native balances on `chain`, summed in row order.
pub open spec fn chain_sum(rows: Seq<NativeRow>, chain: Chain) -> nat
    decreases rows.len(),
{
    if rows.len() == 0 {
        0
    } else {
        let rest = chain_sum(rows.drop_last(), chain);
        if rows.last().chain == chain {
            (rest + rows.last().balance_wei@) % u256_modulus()
        } else {
            rest
        }
    }
}

pub open spec fn has_chain(rows: Seq<NativeRow>, chain: Chain) -> bool {
    exists|i: int| 0 <= i < rows.len() && #[trigger] rows[i].chain == chain
}

/// `(chain, total)` for each chain that has a row, in chain order.
pub open spec fn by_chain_spec(rows: Seq<NativeRow>, chains: Seq<Chain>) -> Seq<(Chain, nat)>
    decreases chains.len(),
{
    if chains.len() == 0 {
        seq![]
    } else {
        let rest = by_chain_spec(rows, chains.drop_last());
        let c = chains.last();
        if has_chain(rows, c) {
            rest.push((c, chain_sum(rows, c)))
        } else {
            rest
        }
    }
}

pub open spec fn pairs_value(v: Seq<(Chain, U256)>) -> Seq<(Chain, nat)> {
    v.map_values(|x: (Chain, U256)| (x.0, x.1@))
}

impl PortfolioSnapshot {
    /// Native balances plus validator balances, in wei.
    pub fn grand_total_eth_wei(&self) -> (r: U256)
        ensures
            r@ == staking_sum(native_sum(self.native@), self.staking@),
    {
        let mut total = U256::zero();
        let mut i: usize = 0;
        while i < self.native.len()
            invariant
                i <= self.native@.len(),
                total@ == native_sum(self.native@.take(i as int)),
            decreases self.native@.len() - i,
        {
            assert(self.native@.take(i + 1).drop_last() =~= self.native@.take(i as int));
            total = u256_add(total, self.native[i].balance_wei);
            i = i + 1;
        }
        assert(self.native@.take(self.native@.len() as int) =~= self.native@);
        let ghost start = total@;
        let mut j: usize = 0;
        while j < self.staking.len()
            invariant
                j <= self.staking@.len(),
                total@ == staking_sum(start, self.staking@.take(j as int)),
            decreases self.staking@.len() - j,
        {
            assert(self.staking@.take(j + 1).drop_last() =~= self.staking@.take(j as int));
            total = u256_add(total, gwei_to_wei(self.staking[j].total_balance_gwei));
            j = j + 1;
        }
        assert(self.staking@.take(self.staking@.len() as int) =~= self.staking@);
        total
    }

    /// Lido CSM bonds, in stETH wei.
    pub fn grand_total_steth_wei(&self) -> (r: U256)
        ensures
            r@ == csm_sum(self.csm@),
    {
        let mut total = U256::zero();
        let mut i: usize = 0;
        while i < self.csm.len()
            invariant
                i <= self.csm@.len(),
                total@ == csm_sum(self.csm@.take(i as int)),
            decreases self.csm@.len() - i,
        {
            assert(self.csm@.take(i + 1).drop_last() =~= self.csm@.take(i as int));
            total = u256_add(total, self.csm[i].bond_steth_wei);
            i = i + 1;
        }
        assert(self.csm@.take(self.csm@.len() as int) =~= self.csm@);
        total
    }

    /// Native totals per chain, for the chains present, in chain order.
    pub fn native_total_by_chain(&self) -> (r: Vec<(Chain, U256)>)
        ensures
            pairs_value(r@) == by_chain_spec(self.native@, all_chains_spec()),
    {
        totals_by_chain(&self.native)
    }

    /// Native totals per alias (chains summed), in alias order.
    pub fn native_total_by_alias(&self) -> (r: Vec<(String, U256)>)
        ensures
            alias_rows(r@) == alias_totals_spec(self.native@),
            sorted_aliases(alias_rows(r@)),
    {
        let mut out: Vec<(String, U256)> = Vec::new();
        let mut i: usize = 0;
        while i < self.native.len()
            invariant
                i <= self.native@.len(),
                alias_rows(out@) == alias_totals_spec(self.native@.take(i as int)),
                sorted_aliases(alias_rows(out@)),
            decreases self.native@.len() - i,
        {
            assert(self.native@.take(i + 1).drop_last() =~= self.native@.take(i as int));
            assert(self.native@.take(i + 1).last() == self.native@[i as int]);
            add_alias_amount(&mut out, self.native[i].alias.as_str(), self.native[i].balance_wei);
            i = i + 1;
        }
        assert(self.native@.take(self.native@.len() as int) =~= self.native@);
        out
    }
}

/// Native totals per chain, for the chains present, in chain order.
fn totals_by_chain(rows: &Vec<NativeRow>) -> (r: Vec<(Chain, U256)>)
    ensures
        pairs_value(r@) == by_chain_spec(rows@, all_chains_spec()),
{
    let chains = Chain::all();
    let mut out: Vec<(Chain, U256)> = Vec::new();
    let mut k: usize = 0;
    while k < chains.len()
        invariant
            k <= chains@.len(),
            chains@ == all_chains_spec(),
            pairs_value(out@) == by_chain_spec(rows@, chains@.take(k as int)),
        decreases chains@.len() - k,
    {
        let c = chains[k];
        let mut total = U256::zero();
        let mut seen = false;
        let mut i: usize = 0;
        while i < rows.len()
            invariant
                i <= rows@.len(),
                total@ == chain_sum(rows@.take(i as int), c),
                seen == has_chain(rows@.take(i as int), c),
            decreases rows@.len() - i,
        {
            let ghost prev = rows@.take(i as int);
            assert(rows@.take(i + 1).drop_last() =~= prev);
            if rows[i].chain == c {
                total = u256_add(total, rows[i].balance_wei);
                seen = true;
                assert(rows@.take(i + 1)[i as int].chain == c);
            } else {
                assert forall|q: int| 0 <= q < i + 1 && #[trigger] rows@.take(i + 1)[q].chain == c implies q < i by {}
                assert(has_chain(rows@.take(i + 1), c) == has_chain(prev, c)) by {
                    if has_chain(rows@.take(i + 1), c) {
                        let q = choose|q: int| 0 <= q < i + 1 && #[trigger] rows@.take(i + 1)[q].chain == c;
                        assert(prev[q].chain == c);
                    }
                    if has_chain(prev, c) {
                        let q = choose|q: int| 0 <= q < i && #[trigger] prev[q].chain == c;
                        assert(rows@.take(i + 1)[q].chain == c);
                    }
                }
            }
            proof {
                if seen && rows[i as int].chain == c {
                    assert(has_chain(rows@.take(i + 1), c));
                }
                if has_chain(prev, c) {
                    let q = choose|q: int| 0 <= q < i && #[trigger] prev[q].chain == c;
                    assert(rows@.take(i + 1)[q].chain == c);
                }
            }
            i = i + 1;
        }
        assert(rows@.take(rows@.len() as int) =~= rows@);
        proof {
            assert(chains@.take(k + 1).drop_last() =~= chains@.take(k as int));
            assert(chains@.take(k + 1).last() == c);
        }
        if seen {
            let ghost prev = out@;
            out.push((c, total));
            assert(pairs_value(out@) =~= pairs_value(prev).push((c, total@)));
        }
        k = k + 1;
    }
    assert(chains@.take(chains@.len() as int) =~= chains@);
    out
}

pub open spec fn alias_rows(v: Seq<(String, U256)>) -> Seq<(Seq<char>, U256)> {
    v.map_values(|x: (String, U256)| (x.0@, x.1))
}

pub open spec fn sorted_aliases(t: Seq<(Seq<char>, U256)>) -> bool {
    forall|i: int, j: int| 0 <= i < j < t.len() ==> seq_lt(#[trigger] t[i].0, #[trigger] t[j].0)
}

pub open spec fn alias_lower_bound(t: Seq<(Seq<char>, U256)>, k: Seq<char>) -> int
    decreases t.len(),
{
    if t.len() == 0 {
        0
    } else if seq_lt(t[0].0, k) {
        1 + alias_lower_bound(t.drop_first(), k)
    } else {
        0
    }
}

/// `amount` added (wrapping) to the total of `k`, a new entry in order if missing.
pub open spec fn add_alias_spec(t: Seq<(Seq<char>, U256)>, k: Seq<char>, amount: U256) -> Seq<(Seq<char>, U256)> {
    let p = alias_lower_bound(t, k);
    if p < t.len() && t[p].0 == k {
        t.update(p, (k, u256_of_value((t[p].1@ + amount@) % u256_modulus())))
    } else {
        t.insert(p, (k, amount))
    }
}

pub open spec fn alias_totals_spec(rows: Seq<NativeRow>) -> Seq<(Seq<char>, U256)>
    decreases rows.len(),
{
    if rows.len() == 0 {
        seq![]
    } else {
        add_alias_spec(alias_totals_spec(rows.drop_last()), rows.last().alias@, rows.last().balance_wei)
    }
}

proof fn lemma_alias_lower_bound(t: Seq<(Seq<char>, U256)>, k: Seq<char>)
    requires
        sorted_aliases(t),
    ensures
        0 <= alias_lower_bound(t, k) <= t.len(),
        forall|i: int| 0 <= i < alias_lower_bound(t, k) ==> seq_lt(#[trigger] t[i].0, k),
        forall|i: int| alias_lower_bound(t, k) <= i < t.len() ==> !seq_lt(#[trigger] t[i].0, k),
    decreases t.len(),
{
    if t.len() > 0 {
        let r = t.drop_first();
        assert(sorted_aliases(r)) by {
            assert forall|i: int, j: int| 0 <= i < j < r.len() implies seq_lt(#[trigger] r[i].0, #[trigger] r[j].0) by {
                assert(r[i] == t[i + 1] && r[j] == t[j + 1]);
            }
        }
        lemma_alias_lower_bound(r, k);
        if seq_lt(t[0].0, k) {
            assert forall|i: int| 0 <= i < alias_lower_bound(t, k) implies seq_lt(#[trigger] t[i].0, k) by {
                if i > 0 {
                    assert(t[i] == r[i - 1]);
                }
            }
            assert forall|i: int| alias_lower_bound(t, k) <= i < t.len() implies !seq_lt(#[trigger] t[i].0, k) by {
                assert(t[i] == r[i - 1]);
            }
        } else {
            assert forall|i: int| 0 <= i < t.len() implies !seq_lt(#[trigger] t[i].0, k) by {
                if i > 0 {
                    assert(seq_lt(t[0].0, t[i].0));
                    if seq_lt(t[i].0, k) {
                        crate::text::lemma_seq_lt_trans(t[0].0, t[i].0, k);
                    }
                }
            }
        }
    }
}

proof fn lemma_add_alias_sorted(t: Seq<(Seq<char>, U256)>, k: Seq<char>, amount: U256)
    requires
        sorted_aliases(t),
    ensures
        sorted_aliases(add_alias_spec(t, k, amount)),
{
    lemma_alias_lower_bound(t, k);
    let p = alias_lower_bound(t, k);
    let r = add_alias_spec(t, k, amount);
    if p < t.len() && t[p].0 == k {
        assert forall|i: int, j: int| 0 <= i < j < r.len() implies seq_lt(#[trigger] r[i].0, #[trigger] r[j].0) by {
            assert(r[i].0 == t[i].0 && r[j].0 == t[j].0);
        }
    } else {
        assert forall|i: int, j: int| 0 <= i < j < r.len() implies seq_lt(#[trigger] r[i].0, #[trigger] r[j].0) by {
            if j < p {
                assert(r[i] == t[i] && r[j] == t[j]);
            } else if j == p {
                assert(r[i] == t[i]);
            } else if i == p {
                assert(r[j] == t[j - 1]);
                crate::text::lemma_seq_lt_total(t[j - 1].0, k);
                if j - 1 > p {
                    assert(seq_lt(t[p].0, t[j - 1].0));
                    crate::text::lemma_seq_lt_total(t[p].0, k);
                    if seq_lt(k, t[p].0) {
                        crate::text::lemma_seq_lt_trans(k, t[p].0, t[j - 1].0);
                    }
                }
            } else if i < p {
                assert(r[i] == t[i] && r[j] == t[j - 1]);
            } else {
                assert(r[i] == t[i - 1] && r[j] == t[j - 1]);
            }
        }
    }
}

fn alias_lt(v: &Vec<(String, U256)>, i: usize, key: &Vec<char>) -> (b: bool)
    requires
        i < v@.len(),
    ensures
        b == seq_lt(alias_rows(v@)[i as int].0, key@),
{
    let cur = chars_of(v[i].0.as_str());
    chars_lt(&cur, key)
}

fn add_alias_amount(out: &mut Vec<(String, U256)>, alias: &str, amount: U256)
    requires
        sorted_aliases(alias_rows(old(out)@)),
    ensures
        alias_rows(final(out)@) == add_alias_spec(alias_rows(old(out)@), alias@, amount),
        sorted_aliases(alias_rows(final(out)@)),
{
    let key = chars_of(alias);
    let ghost t = alias_rows(out@);
    proof {
        lemma_alias_lower_bound(t, alias@);
        lemma_add_alias_sorted(t, alias@, amount);
    }
    let n = out.len();
    let mut i: usize = 0;
    while i < n && alias_lt(out, i, &key)
        invariant
            n == out@.len(),
            t == alias_rows(out@),
            key@ == alias@,
            i <= n,
            forall|q: int| 0 <= q < i ==> seq_lt(#[trigger] t[q].0, alias@),
        decreases n - i,
    {
        i = i + 1;
    }
    assert(i == alias_lower_bound(t, alias@)) by {
        let lb = alias_lower_bound(t, alias@);
        if i < lb {
            assert(seq_lt(t[i as int].0, alias@));
        }
        if i > lb {
            assert(seq_lt(t[lb].0, alias@));
        }
    }
    if i < n {
        let cur = chars_of(out[i].0.as_str());
        if chars_equal(&cur, &key) {
            let total = u256_add(out[i].1, amount);
            proof {
                crate::primitives::lemma_u256_of_value_self(total);
            }
            let name = out[i].0.clone();
            out.set(i, (name, total));
            assert(alias_rows(out@) =~= add_alias_spec(t, alias@, amount));
            return;
        }
    }
    out.insert(i, (string_of(&key), amount));
    assert(alias_rows(out@) =~= add_alias_spec(t, alias@, amount));
}

// ---------------------------------------------------------------------------
// Native holdings grid
// ---------------------------------------------------------------------------

/// Position of a chain in the chains' order (mainnet, Arbitrum, Optimism,
/// Base).
pub open spec fn chain_rank(c: Chain) -> int {
    match c {
        Chain::Mainnet => 0,
        Chain::Arbitrum => 1,
        Chain::Optimism => 2,
        Chain::Base => 3,
    }
}

/// Address order: by the bytes, big-endian first.
pub open spec fn address_lt(a: Address, b: Address) -> bool {
    a.hi < b.hi || (a.hi == b.hi && (a.mid < b.mid || (a.mid == b.mid && a.lo < b.lo)))
}

/// A grid cell's place: alias, then address, then chain.
pub open spec fn cell_key_lt(a: (Seq<char>, Address, Chain), b: (Seq<char>, Address, Chain)) -> bool {
    ||| seq_lt(a.0, b.0)
    ||| (a.0 == b.0 && address_lt(a.1, b.1))
    ||| (a.0 == b.0 && a.1 == b.1 && chain_rank(a.2) < chain_rank(b.2))
}

pub open spec fn cells_sorted(t: Seq<((Seq<char>, Address, Chain), U256)>) -> bool {
    forall|i: int, j: int| 0 <= i < j < t.len() ==> cell_key_lt(#[trigger] t[i].0, #[trigger] t[j].0)
}

pub open spec fn cell_lower_bound(t: Seq<((Seq<char>, Address, Chain), U256)>, k: (Seq<char>, Address, Chain)) -> int
    decreases t.len(),
{
    if t.len() == 0 {
        0
    } else if cell_key_lt(t[0].0, k) {
        1 + cell_lower_bound(t.drop_first(), k)
    } else {
        0
    }
}

/// `amount` added (wrapping) to the cell `k`, a new cell in order if missing.
pub open spec fn add_cell_spec(
    t: Seq<((Seq<char>, Address, Chain), U256)>,
    k: (Seq<char>, Address, Chain),
    amount: U256,
) -> Seq<((Seq<char>, Address, Chain), U256)> {
    let p = cell_lower_bound(t, k);
    if p < t.len() && t[p].0 == k {
        t.update(p, (k, u256_of_value((t[p].1@ + amount@) % u256_modulus())))
    } else {
        t.insert(p, (k, amount))
    }
}

/// The grid's cells: for each (alias, address, chain) present, the sum of
/// its native balances, in cell order.
pub open spec fn cells_spec(rows: Seq<NativeRow>) -> Seq<((Seq<char>, Address, Chain), U256)>
    decreases rows.len(),
{
    if rows.len() == 0 {
        seq![]
    } else {
        let r = rows.last();
        add_cell_spec(cells_spec(rows.drop_last()), (r.alias@, r.address, r.chain), r.balance_wei)
    }
}

proof fn lemma_cell_key_order(a: (Seq<char>, Address, Chain), b: (Seq<char>, Address, Chain), c: (Seq<char>, Address, Chain))
    ensures
        !cell_key_lt(a, a),
        cell_key_lt(a, b) || cell_key_lt(b, a) || a == b,
        cell_key_lt(a, b) && cell_key_lt(b, c) ==> cell_key_lt(a, c),
{
    crate::text::lemma_seq_lt_irrefl(a.0);
    crate::text::lemma_seq_lt_total(a.0, b.0);
    crate::text::lemma_seq_lt_total(b.0, c.0);
    crate::text::lemma_seq_lt_total(a.0, c.0);
    if seq_lt(a.0, b.0) && seq_lt(b.0, c.0) {
        crate::text::lemma_seq_lt_trans(a.0, b.0, c.0);
    }
    if seq_lt(b.0, a.0) {
        crate::text::lemma_seq_lt_irrefl(b.0);
        if seq_lt(a.0, b.0) {
            crate::text::lemma_seq_lt_trans(a.0, b.0, a.0);
        }
    }
    if seq_lt(c.0, b.0) && seq_lt(b.0, c.0) {
        crate::text::lemma_seq_lt_trans(b.0, c.0, b.0);
        crate::text::lemma_seq_lt_irrefl(b.0);
    }
    if seq_lt(a.0, c.0) && seq_lt(c.0, a.0) {
        crate::text::lemma_seq_lt_trans(a.0, c.0, a.0);
    }
    if !(a.0 == b.0) && !seq_lt(a.0, b.0) {
        assert(seq_lt(b.0, a.0));
    }
    if a.0 == b.0 && a.1 == b.1 && chain_rank(a.2) == chain_rank(b.2) {
        assert(a.2 == b.2);
    }
}

proof fn lemma_cell_lower_bound(t: Seq<((Seq<char>, Address, Chain), U256)>, k: (Seq<char>, Address, Chain))
    requires
        cells_sorted(t),
    ensures
        0 <= cell_lower_bound(t, k) <= t.len(),
        forall|i: int| 0 <= i < cell_lower_bound(t, k) ==> cell_key_lt(#[trigger] t[i].0, k),
        forall|i: int| cell_lower_bound(t, k) <= i < t.len() ==> !cell_key_lt(#[trigger] t[i].0, k),
    decreases t.len(),
{
    if t.len() > 0 {
        let r = t.drop_first();
        assert(cells_sorted(r)) by {
            assert forall|i: int, j: int| 0 <= i < j < r.len() implies cell_key_lt(#[trigger] r[i].0, #[trigger] r[j].0) by {
                assert(r[i] == t[i + 1] && r[j] == t[j + 1]);
            }
        }
        lemma_cell_lower_bound(r, k);
        if cell_key_lt(t[0].0, k) {
            assert forall|i: int| 0 <= i < cell_lower_bound(t, k) implies cell_key_lt(#[trigger] t[i].0, k) by {
                if i > 0 {
                    assert(t[i] == r[i - 1]);
                }
            }
            assert forall|i: int| cell_lower_bound(t, k) <= i < t.len() implies !cell_key_lt(#[trigger] t[i].0, k) by {
                assert(t[i] == r[i - 1]);
            }
        } else {
            assert forall|i: int| 0 <= i < t.len() implies !cell_key_lt(#[trigger] t[i].0, k) by {
                if i > 0 {
                    assert(cell_key_lt(t[0].0, t[i].0));
                    lemma_cell_key_order(t[0].0, t[i].0, k);
                }
            }
        }
    }
}

proof fn lemma_add_cell_sorted(t: Seq<((Seq<char>, Address, Chain), U256)>, k: (Seq<char>, Address, Chain), amount: U256)
    requires
        cells_sorted(t),
    ensures
        cells_sorted(add_cell_spec(t, k, amount)),
{
    lemma_cell_lower_bound(t, k);
    let p = cell_lower_bound(t, k);
    let r = add_cell_spec(t, k, amount);
    if p < t.len() && t[p].0 == k {
        assert forall|i: int, j: int| 0 <= i < j < r.len() implies cell_key_lt(#[trigger] r[i].0, #[trigger] r[j].0) by {
            assert(r[i].0 == t[i].0 && r[j].0 == t[j].0);
        }
    } else {
        assert forall|i: int, j: int| 0 <= i < j < r.len() implies cell_key_lt(#[trigger] r[i].0, #[trigger] r[j].0) by {
            if j < p {
                assert(r[i] == t[i] && r[j] == t[j]);
            } else if j == p {
                assert(r[i] == t[i]);
            } else if i == p {
                assert(r[j] == t[j - 1]);
                lemma_cell_key_order(k, t[j - 1].0, t[j - 1].0);
                if j - 1 > p {
                    assert(cell_key_lt(t[p].0, t[j - 1].0));
                    lemma_cell_key_order(k, t[p].0, t[j - 1].0);
                }
            } else if i < p {
                assert(r[i] == t[i] && r[j] == t[j - 1]);
            } else {
                assert(r[i] == t[i - 1] && r[j] == t[j - 1]);
            }
        }
    }
}

pub open spec fn cells_view(v: Seq<(String, Address, Chain, U256)>) -> Seq<((Seq<char>, Address, Chain), U256)> {
    v.map_values(|x: (String, Address, Chain, U256)| ((x.0@, x.1, x.2), x.3))
}

fn chain_rank_of(c: Chain) -> (r: u8)
    ensures
        r == chain_rank(c),
{
    match c {
        Chain::Mainnet => 0,
        Chain::Arbitrum => 1,
        Chain::Optimism => 2,
        Chain::Base => 3,
    }
}

fn cell_lt_at(v: &Vec<(String, Address, Chain, U256)>, i: usize, alias: &Vec<char>, addr: Address, chain: Chain) -> (b: bool)
    requires
        i < v@.len(),
    ensures
        b == cell_key_lt(cells_view(v@)[i as int].0, (alias@, addr, chain)),
{
    let cur = chars_of(v[i].0.as_str());
    if chars_lt(&cur, alias) {
        return true;
    }
    if !chars_equal(&cur, alias) {
        return false;
    }
    let a = v[i].1;
    if a.hi != addr.hi {
        return a.hi < addr.hi;
    }
    if a.mid != addr.mid {
        return a.mid < addr.mid;
    }
    if a.lo != addr.lo {
        return a.lo < addr.lo;
    }
    chain_rank_of(v[i].2) < chain_rank_of(chain)
}

fn add_cell_amount(out: &mut Vec<(String, Address, Chain, U256)>, alias: &str, addr: Address, chain: Chain, amount: U256)
    requires
        cells_sorted(cells_view(old(out)@)),
    ensures
        cells_view(final(out)@) == add_cell_spec(cells_view(old(out)@), (alias@, addr, chain), amount),
        cells_sorted(cells_view(final(out)@)),
{
    let key = chars_of(alias);
    let ghost t = cells_view(out@);
    let ghost k = (alias@, addr, chain);
    proof {
        lemma_cell_lower_bound(t, k);
        lemma_add_cell_sorted(t, k, amount);
    }
    let n = out.len();
    let mut i: usize = 0;
    while i < n && cell_lt_at(out, i, &key, addr, chain)
        invariant
            n == out@.len(),
            t == cells_view(out@),
            key@ == alias@,
            k == (alias@, addr, chain),
            i <= n,
            forall|q: int| 0 <= q < i ==> cell_key_lt(#[trigger] t[q].0, k),
        decreases n - i,
    {
        i = i + 1;
    }
    assert(i == cell_lower_bound(t, k)) by {
        let lb = cell_lower_bound(t, k);
        if i < lb {
            assert(cell_key_lt(t[i as int].0, k));
        }
        if i > lb {
            assert(cell_key_lt(t[lb].0, k));
        }
    }
    if i < n {
        let cur = chars_of(out[i].0.as_str());
        if chars_equal(&cur, &key) && out[i].1 == addr && out[i].2 == chain {
            assert(t[i as int].0 == k);
            let total = u256_add(out[i].3, amount);
            proof {
                crate::primitives::lemma_u256_of_value_self(total);
            }
            let name = out[i].0.clone();
            out.set(i, (name, addr, chain, total));
            assert(cells_view(out@) =~= add_cell_spec(t, k, amount));
            return;
        }
        assert(t[i as int].0 != k);
    }
    out.insert(i, (string_of(&key), addr, chain, amount));
    assert(cells_view(out@) =~= add_cell_spec(t, k, amount));
}

/// The native holdings grid: a cell per (alias, address, chain), the
/// column totals per chain, and the grand total.
pub struct NativeGrid {
    /// `(alias, address, chain, balance)`, ordered by alias, then address,
    /// then chain.
    pub cells: Vec<(String, Address, Chain, U256)>,
    /// Per chain present, in chain order, its total.
    pub columns: Vec<(Chain, U256)>,
    /// All balances summed.
    pub total: U256,
}

/// Groups native balances into the holdings grid. Sums wrap at 2^256, as
/// `U256` addition does.
pub fn aggregate_native(rows: &Vec<NativeRow>) -> (r: NativeGrid)
    ensures
        cells_view(r.cells@) == cells_spec(rows@),
        cells_sorted(cells_view(r.cells@)),
        pairs_value(r.columns@) == by_chain_spec(rows@, all_chains_spec()),
        r.total@ == native_sum(rows@),
{
    let mut cells: Vec<(String, Address, Chain, U256)> = Vec::new();
    let mut total = U256::zero();
    let mut i: usize = 0;
    while i < rows.len()
        invariant
            i <= rows@.len(),
            cells_view(cells@) == cells_spec(rows@.take(i as int)),
            cells_sorted(cells_view(cells@)),
            total@ == native_sum(rows@.take(i as int)),
        decreases rows@.len() - i,
    {
        assert(rows@.take(i + 1).drop_last() =~= rows@.take(i as int));
        assert(rows@.take(i + 1).last() == rows@[i as int]);
        add_cell_amount(&mut cells, rows[i].alias.as_str(), rows[i].address, rows[i].chain, rows[i].balance_wei);
        total = u256_add(total, rows[i].balance_wei);
        i = i + 1;
    }
    assert(rows@.take(rows@.len() as int) =~= rows@);
    NativeGrid { cells, columns: totals_by_chain(rows), total }
}

// ---------------------------------------------------------------------------
// Staking section decisions
// ---------------------------------------------------------------------------

/// How old a cached staking summary may be; `None` on refresh, when the
/// cache is bypassed whatever its age.
pub fn staking_max_age_secs(refresh: bool) -> (r: Option<u64>)
    ensures
        r == if refresh { None } else { Some(STAKING_CACHE_TTL_SECS) },
{
    if refresh {
        None
    } else {
        Some(STAKING_CACHE_TTL_SECS)
    }
}

pub open spec fn validators_label() -> Seq<char> {
    seq!['v', 'a', 'l', 'i', 'd', 'a', 't', 'o', 'r', 's']
}

fn validators_alias() -> (r: String)
    ensures
        r@ == validators_label(),
{
    proof {
        reveal_strlit("validators");
    }
    let r = string_of(&chars_of("validators"));
    assert(r@ =~= validators_label());
    r
}

/// The staking row served from cache, if the cache holds validators.
pub fn cached_staking_row(cached: Option<crate::db::CachedStakingSummary>) -> (r: Option<StakingRow>)
    ensures
        match cached {
            Some(c) => if c.validator_count > 0 {
                r matches Some(row) && row.alias@ == validators_label() && row.validator_count
                    == c.validator_count && row.total_balance_gwei == c.total_balance_gwei
                    && row.from_cache
            } else {
                r is None
            },
            None => r is None,
        },
{
    match cached {
        Some(c) => if c.validator_count > 0 {
            Some(
                StakingRow {
                    alias: validators_alias(),
                    validator_count: c.validator_count,
                    total_balance_gwei: c.total_balance_gwei,
                    from_cache: true,
                },
            )
        } else {
            None
        },
        None => None,
    }
}

/// The staking rows from a fresh beacon-node summary: none if it found no
/// validators.
pub fn fresh_staking_rows(summary: &StakingSummary) -> (r: Vec<StakingRow>)
    ensures
        summary.validator_count == 0 ==> r@.len() == 0,
        summary.validator_count != 0 ==> r@.len() == 1 && r@[0].alias@ == validators_label()
            && r@[0].validator_count == summary.validator_count && r@[0].total_balance_gwei
            == summary.total_balance_gwei && !r@[0].from_cache,
{
    let mut r: Vec<StakingRow> = Vec::new();
    if summary.validator_count != 0 {
        r.push(
            StakingRow {
                alias: validators_alias(),
                validator_count: summary.validator_count,
                total_balance_gwei: summary.total_balance_gwei,
                from_cache: false,
            },
        );
    }
    r
}


/// Whether the staking section is wanted: a beacon node and at least one
/// validator are configured.
pub fn staking_wanted(cfg: &Config) -> (b: bool)
    ensures
        b == (cfg@.beacon_url is Some && cfg@.validator_indices.len() > 0),
{
    cfg.beacon_url.is_some() && cfg.validator_indices.len() > 0
}

/// The mainnet RPC URL to read CSM bonds with, if CSM operators are
/// configured and mainnet has an RPC URL.
pub fn csm_rpc_url(cfg: &Config) -> (r: Option<String>)
    ensures
        match r {
            Some(u) => cfg@.csm_operator_ids.len() > 0 && chain_url(cfg@.chains, Chain::Mainnet) == Some(u@),
            None => cfg@.csm_operator_ids.len() == 0 || chain_url(cfg@.chains, Chain::Mainnet) is None,
        },
{
    if cfg.csm_operator_ids.len() == 0 {
        return None;
    }
    match cfg.chains.get(Chain::Mainnet) {
        Some(cc) => Some(crate::config::copy_str(&cc.rpc_url)),
        None => None,
    }
}

/// The CSM rows of the bonds read, in order.
pub fn csm_rows(bonds: &[CsmBond]) -> (r: Vec<CsmRow>)
    ensures
        r@.len() == bonds@.len(),
        forall|i: int| 0 <= i < r@.len() ==> (#[trigger] r@[i]).operator_id == bonds@[i].operator_id
            && r@[i].bond_steth_wei == bonds@[i].bond_steth_wei,
{
    let mut r: Vec<CsmRow> = Vec::new();
    let mut i: usize = 0;
    while i < bonds.len()
        invariant
            i <= bonds@.len(),
            r@.len() == i,
            forall|k: int| 0 <= k < i ==> (#[trigger] r@[k]).operator_id == bonds@[k].operator_id
                && r@[k].bond_steth_wei == bonds@[k].bond_steth_wei,
        decreases bonds@.len() - i,
    {
        r.push(CsmRow { operator_id: bonds[i].operator_id, bond_steth_wei: bonds[i].bond_steth_wei });
        i = i + 1;
    }
    r
}

} // verus!
