//! What the command-line commands select and show: chains and addresses
//! matching the filters, the labels the history uses, the counterparties
//! still unlabelled.

use vstd::prelude::*;

use crate::chain::Chain;
use crate::config::{configured_chains, ChainMap};
use crate::db::{address_in, UnknownCounterparty};
use crate::decode::{known_view, KnownContract};
use crate::keyed::pairs_view;
use crate::primitives::{dec_digits, Address};
use crate::render::labels_view;
use crate::text::{chars_of, push_decimal, str_eq, string_of};

verus! {

/// Whether `c` passes the optional chain filter.
pub open spec fn chain_selected(filter: Option<Chain>, c: Chain) -> bool {
    match filter {
        Some(f) => f == c,
        None => true,
    }
}

/// The configured chains that pass the filter, in chain order.
pub fn select_chains(chains: &ChainMap, filter: Option<Chain>) -> (r: Vec<Chain>)
    ensures
        r@ == configured_chains(chains@).filter(|c: Chain| chain_selected(filter, c)),
{
    let all = chains.chains();
    let ghost a = all@;
    let mut out: Vec<Chain> = Vec::new();
    let mut i: usize = 0;
    while i < all.len()
        invariant
            i <= all@.len(),
            a == all@,
            a == configured_chains(chains@),
            out@ == a.take(i as int).filter(|c: Chain| chain_selected(filter, c)),
        decreases all@.len() - i,
    {
        assert(a.take(i + 1).drop_last() =~= a.take(i as int));
        reveal_with_fuel(Seq::<_>::filter, 1);
        let c = all[i];
        let keep = match filter {
            Some(f) => f == c,
            None => true,
        };
        if keep {
            out.push(c);
        }
        i = i + 1;
    }
    assert(a.take(all@.len() as int) =~= a);
    out
}

/// Whether an alias passes the optional alias filter.
pub open spec fn alias_selected(filter: Option<Seq<char>>, alias: Seq<char>) -> bool {
    match filter {
        Some(f) => f == alias,
        None => true,
    }
}

pub open spec fn filter_view(o: Option<&str>) -> Option<Seq<char>> {
    match o {
        Some(f) => Some(f@),
        None => None,
    }
}

/// The configured `(alias, address)` pairs that pass the filter, in alias
/// order.
pub fn select_addresses(addresses: &Vec<(String, Address)>, alias_filter: Option<&str>) -> (r: Vec<(String, Address)>)
    ensures
        pairs_view(r@) == pairs_view(addresses@).filter(
            |e: (Seq<char>, Address)| alias_selected(filter_view(alias_filter), e.0),
        ),
{
    let ghost a = pairs_view(addresses@);
    let mut out: Vec<(String, Address)> = Vec::new();
    let mut i: usize = 0;
    assert(a.take(0) =~= Seq::<(Seq<char>, Address)>::empty());
    assert(pairs_view(out@) =~= Seq::<(Seq<char>, Address)>::empty());
    while i < addresses.len()
        invariant
            i <= addresses@.len(),
            a == pairs_view(addresses@),
            pairs_view(out@) == a.take(i as int).filter(
                |e: (Seq<char>, Address)| alias_selected(filter_view(alias_filter), e.0),
            ),
        decreases addresses@.len() - i,
    {
        assert(a.take(i + 1).drop_last() =~= a.take(i as int));
        assert(a.take(i + 1).last() == (addresses@[i as int].0@, addresses@[i as int].1));
        reveal_with_fuel(Seq::<_>::filter, 1);
        let keep = match alias_filter {
            Some(fl) => str_eq(addresses[i].0.as_str(), fl),
            None => true,
        };
        if keep {
            let ghost before = pairs_view(out@);
            let e = (string_of(&chars_of(addresses[i].0.as_str())), addresses[i].1);
            out.push(e);
            assert(pairs_view(out@) =~= before.push((addresses@[i as int].0@, addresses@[i as int].1)));
        }
        i = i + 1;
    }
    assert(a.take(addresses@.len() as int) =~= a);
    out
}

/// The owned addresses, in alias order.
pub fn owned_addresses(addresses: &Vec<(String, Address)>) -> (r: Vec<Address>)
    ensures
        r@ == pairs_view(addresses@).map_values(|e: (Seq<char>, Address)| e.1),
{
    let mut out: Vec<Address> = Vec::new();
    let mut i: usize = 0;
    while i < addresses.len()
        invariant
            i <= addresses@.len(),
            out@ == pairs_view(addresses@).take(i as int).map_values(|e: (Seq<char>, Address)| e.1),
        decreases addresses@.len() - i,
    {
        out.push(addresses[i].1);
        i = i + 1;
        assert(out@ =~= pairs_view(addresses@).take(i as int).map_values(|e: (Seq<char>, Address)| e.1));
    }
    assert(pairs_view(addresses@).take(addresses@.len() as int) =~= pairs_view(addresses@));
    out
}

/// The highest-block column: `-` when nothing was synced.
pub fn highest_block_cell(block: u64) -> (r: String)
    ensures
        r@ == if block == 0 { "-"@ } else { dec_digits(block as nat) },
{
    if block == 0 {
        string_of(&chars_of("-"))
    } else {
        let mut v: Vec<char> = Vec::new();
        push_decimal(&mut v, block);
        assert(v@ =~= dec_digits(block as nat));
        string_of(&v)
    }
}

/// The labels the history shows: the user's own first, then the decoders'
/// known contracts (so a user label wins for the same chain and address).
pub fn history_labels(db_labels: Vec<(u64, Address, String)>, known: &Vec<KnownContract>) -> (r: Vec<(u64, Address, String)>)
    ensures
        labels_view(r@) == labels_view(db_labels@) + known_view(known@),
{
    let mut out = db_labels;
    let ghost start = labels_view(out@);
    let mut i: usize = 0;
    while i < known.len()
        invariant
            i <= known@.len(),
            labels_view(out@) == start + known_view(known@).take(i as int),
        decreases known@.len() - i,
    {
        let k = known[i];
        let ghost before = labels_view(out@);
        out.push((k.chain_id, k.address, string_of(&chars_of(k.label))));
        assert(labels_view(out@) =~= before.push(k@));
        i = i + 1;
        assert(labels_view(out@) =~= start + known_view(known@).take(i as int));
    }
    assert(known_view(known@).take(known@.len() as int) =~= known_view(known@));
    out
}

pub open spec fn has_pair(pairs: Seq<(u64, Address)>, chain_id: u64, a: Address) -> bool {
    exists|i: int| 0 <= i < pairs.len() && #[trigger] pairs[i] == (chain_id, a)
}

/// Neither a user label, nor a decoder label, nor an ENS name found for it.
pub open spec fn is_unlabelled(
    u: UnknownCounterparty,
    labelled: Seq<(u64, Address)>,
    known: Seq<(u64, Address)>,
    resolved: Seq<Address>,
) -> bool {
    !has_pair(labelled, u.chain_id, u.address) && !has_pair(known, u.chain_id, u.address) && !resolved.contains(
        u.address,
    )
}

fn pair_in(pairs: &Vec<(u64, Address)>, chain_id: u64, a: Address) -> (b: bool)
    ensures
        b == has_pair(pairs@, chain_id, a),
{
    let mut i: usize = 0;
    while i < pairs.len()
        invariant
            i <= pairs@.len(),
            forall|q: int| 0 <= q < i ==> #[trigger] pairs@[q] != (chain_id, a),
        decreases pairs@.len() - i,
    {
        if pairs[i].0 == chain_id && pairs[i].1 == a {
            assert(pairs@[i as int] == (chain_id, a));
            return true;
        }
        i = i + 1;
    }
    false
}

/// The counterparties with neither a user label, nor a decoder label, nor
/// a name that ENS reverse resolution found (`resolved`), in the order given.
pub fn unlabelled(
    counterparties: &Vec<UnknownCounterparty>,
    labelled: &Vec<(u64, Address)>,
    known: &Vec<(u64, Address)>,
    resolved: &Vec<Address>,
) -> (r: Vec<UnknownCounterparty>)
    ensures
        r@ == counterparties@.filter(|u: UnknownCounterparty| is_unlabelled(u, labelled@, known@, resolved@)),
{
    let ghost c = counterparties@;
    let mut out: Vec<UnknownCounterparty> = Vec::new();
    let mut i: usize = 0;
    while i < counterparties.len()
        invariant
            i <= c.len(),
            c == counterparties@,
            out@ == c.take(i as int).filter(|u: UnknownCounterparty| is_unlabelled(u, labelled@, known@, resolved@)),
        decreases c.len() - i,
    {
        assert(c.take(i + 1).drop_last() =~= c.take(i as int));
        reveal_with_fuel(Seq::<_>::filter, 1);
        let u = counterparties[i];
        if !pair_in(labelled, u.chain_id, u.address) && !pair_in(known, u.chain_id, u.address) && !address_in(
            resolved.as_slice(),
            u.address,
        ) {
            out.push(u);
        }
        i = i + 1;
    }
    assert(c.take(c.len() as int) =~= c);
    out
}

} // verus!
