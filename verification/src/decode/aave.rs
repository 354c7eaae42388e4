//! AAVE v3 pool on mainnet: supply, withdraw, borrow and repay, told apart
//! by the aToken / debt-token symbols moving in and out.

use vstd::prelude::*;

use crate::primitives::Address;
use crate::text::{ascii_lower, ascii_lower_chars, chars_of, starts_with, starts_with_chars};

use super::erc20::{RawTransfer, RawTx, RawTxView, TransferView};
use super::lido::{one_protocol_action, protocol_action};
use super::{
    Action, ActionView, AssetAmount, AssetView, ContractDecoder, KnownContract, ProtocolKind,
    assets_view, inbound_assets, inbound_spec, outbound_assets, outbound_spec,
};

verus! {

#[verifier::allow_in_spec]
pub fn pool_v3() -> Address
    returns
        (Address { hi: 0x87870bca, mid: 0x3f3fd6335c3f4ce8, lo: 0x392d69350b4fa4e2 }),
{
    Address { hi: 0x87870bca, mid: 0x3f3fd6335c3f4ce8, lo: 0x392d69350b4fa4e2 }
}

pub struct AaveV3;

pub open spec fn aave_name() -> Seq<char> {
    seq!['A', 'A', 'V', 'E', ' ', 'v', '3']
}

pub open spec fn variable_debt() -> Seq<char> {
    seq!['v', 'a', 'r', 'i', 'a', 'b', 'l', 'e', 'D', 'e', 'b', 't']
}

pub open spec fn stable_debt() -> Seq<char> {
    seq!['s', 't', 'a', 'b', 'l', 'e', 'D', 'e', 'b', 't']
}

pub open spec fn atom() -> Seq<char> {
    seq!['a', 't', 'o', 'm']
}

/// The symbol begins with `a` or `A` (the aToken heuristic).
pub open spec fn starts_with_a_spec(s: Seq<char>) -> bool {
    s.len() > 0 && (s[0] == 'a' || s[0] == 'A')
}

/// The symbol equals `ATOM` ignoring ASCII case.
pub open spec fn is_atom(s: Seq<char>) -> bool {
    ascii_lower(s) == atom()
}

pub open spec fn is_debt_symbol(s: Seq<char>) -> bool {
    starts_with(s, variable_debt()) || starts_with(s, stable_debt())
}

pub open spec fn any_atoken(v: Seq<AssetView>) -> bool {
    exists|i: int| 0 <= i < v.len() && starts_with_a_spec(#[trigger] v[i].symbol) && !is_atom(v[i].symbol)
}

pub open spec fn any_a_symbol(v: Seq<AssetView>) -> bool {
    exists|i: int| 0 <= i < v.len() && starts_with_a_spec(#[trigger] v[i].symbol)
}

pub open spec fn any_debt(v: Seq<AssetView>) -> bool {
    exists|i: int| 0 <= i < v.len() && is_debt_symbol(#[trigger] v[i].symbol)
}

pub open spec fn aave_kind(sent: Seq<AssetView>, received: Seq<AssetView>) -> ProtocolKind {
    if any_atoken(received) && sent.len() != 0 {
        ProtocolKind::Supply
    } else if any_a_symbol(sent) && received.len() != 0 {
        ProtocolKind::Withdraw
    } else if any_debt(received) {
        ProtocolKind::Borrow
    } else if any_debt(sent) {
        ProtocolKind::Repay
    } else {
        ProtocolKind::Other
    }
}

pub open spec fn aave_decode_spec(us: Address, tx: RawTxView, ts: Seq<TransferView>) -> Option<
    Seq<ActionView>,
> {
    if tx.chain_id != 1 || tx.to != Some(pool_v3()) {
        None
    } else {
        let sent = outbound_spec(us, ts);
        let received = inbound_spec(us, ts);
        one_protocol_action(aave_name(), aave_kind(sent, received), pool_v3(), sent, received)
    }
}

pub fn starts_with_a(symbol: &str) -> (b: bool)
    ensures
        b == starts_with_a_spec(symbol@),
{
    let c = chars_of(symbol);
    c.len() > 0 && (c[0] == 'a' || c[0] == 'A')
}

fn symbol_is_atom(symbol: &str) -> (b: bool)
    ensures
        b == is_atom(symbol@),
{
    let lower = ascii_lower_chars(&chars_of(symbol));
    proof {
        reveal_strlit("atom");
    }
    let target = chars_of("atom");
    if lower.len() != 4 {
        return false;
    }
    let r = lower[0] == target[0] && lower[1] == target[1] && lower[2] == target[2] && lower[3]
        == target[3];
    assert(r ==> lower@ =~= atom());
    r
}

fn symbol_is_debt(symbol: &str) -> (b: bool)
    ensures
        b == is_debt_symbol(symbol@),
{
    let s = chars_of(symbol);
    proof {
        reveal_strlit("variableDebt");
        reveal_strlit("stableDebt");
        assert("variableDebt"@ =~= variable_debt());
        assert("stableDebt"@ =~= stable_debt());
    }
    starts_with_chars(&s, &chars_of("variableDebt")) || starts_with_chars(&s, &chars_of("stableDebt"))
}

fn has_atoken(v: &Vec<AssetAmount>) -> (b: bool)
    ensures
        b == any_atoken(assets_view(v@)),
{
    let ghost av = assets_view(v@);
    let mut i: usize = 0;
    while i < v.len()
        invariant
            i <= v@.len(),
            av == assets_view(v@),
            forall|k: int| 0 <= k < i ==> !(starts_with_a_spec(#[trigger] av[k].symbol) && !is_atom(av[k].symbol)),
        decreases v@.len() - i,
    {
        assert(av[i as int].symbol == v@[i as int].symbol@);
        if starts_with_a(v[i].symbol.as_str()) && !symbol_is_atom(v[i].symbol.as_str()) {
            return true;
        }
        i = i + 1;
    }
    false
}

fn has_a_symbol(v: &Vec<AssetAmount>) -> (b: bool)
    ensures
        b == any_a_symbol(assets_view(v@)),
{
    let ghost av = assets_view(v@);
    let mut i: usize = 0;
    while i < v.len()
        invariant
            i <= v@.len(),
            av == assets_view(v@),
            forall|k: int| 0 <= k < i ==> !starts_with_a_spec(#[trigger] av[k].symbol),
        decreases v@.len() - i,
    {
        assert(av[i as int].symbol == v@[i as int].symbol@);
        if starts_with_a(v[i].symbol.as_str()) {
            return true;
        }
        i = i + 1;
    }
    false
}

fn has_debt(v: &Vec<AssetAmount>) -> (b: bool)
    ensures
        b == any_debt(assets_view(v@)),
{
    let ghost av = assets_view(v@);
    let mut i: usize = 0;
    while i < v.len()
        invariant
            i <= v@.len(),
            av == assets_view(v@),
            forall|k: int| 0 <= k < i ==> !is_debt_symbol(#[trigger] av[k].symbol),
        decreases v@.len() - i,
    {
        assert(av[i as int].symbol == v@[i as int].symbol@);
        if symbol_is_debt(v[i].symbol.as_str()) {
            return true;
        }
        i = i + 1;
    }
    false
}

fn aave_str() -> (r: &'static str)
    ensures
        r@ == aave_name(),
{
    proof {
        reveal_strlit("AAVE v3");
    }
    "AAVE v3"
}

pub open spec fn aave_known_spec() -> Seq<(u64, Address, Seq<char>)> {
    seq![(1u64, pool_v3(), seq!['A', 'A', 'V', 'E', ' ', 'v', '3', ' ', 'P', 'o', 'o', 'l'])]
}

/// A transfer that is a debt token by its symbol (`variableDebt…` or
/// `stableDebt…`).
pub open spec fn debt_transfer(t: TransferView) -> bool {
    starts_with(t.symbol, variable_debt()) || starts_with(t.symbol, stable_debt())
}

/// A call to the mainnet pool in which `us` sends no token and receives a
/// debt token is a borrow: one action, of kind `Borrow`, at the pool,
/// nothing sent and the received tokens listed.
pub proof fn law_aave_debt_received_is_borrow(us: Address, tx: RawTxView, ts: Seq<TransferView>, i: int)
    requires
        tx.chain_id == 1,
        tx.to == Some(pool_v3()),
        forall|k: int| 0 <= k < ts.len() ==> !(#[trigger] ts[k].from == us && ts[k].to != us),
        0 <= i < ts.len(),
        ts[i].to == us,
        ts[i].from != us,
        debt_transfer(ts[i]),
    ensures
        ({
            let r = aave_decode_spec(us, tx, ts);
            &&& r is Some
            &&& r->0.len() == 1
            &&& r->0[0] matches ActionView::Protocol { kind, contract, sent, received, .. }
            &&& kind == ProtocolKind::Borrow
            &&& contract == pool_v3()
            &&& sent.len() == 0
            &&& received == inbound_spec(us, ts)
        }),
{
    super::lemma_outbound_none(us, ts);
    super::lemma_inbound_has(us, ts, i);
    let r = inbound_spec(us, ts);
    let j = choose|j: int| 0 <= j < r.len() && r[j] == super::asset_of_transfer(ts[i]);
    assert(is_debt_symbol(r[j].symbol));
    assert(any_debt(r));
    assert(!any_a_symbol(outbound_spec(us, ts)));
}

/// A repayment is only ever reported when `us` sends a debt token away.
pub proof fn law_aave_repay_needs_debt_sent(us: Address, tx: RawTxView, ts: Seq<TransferView>)
    requires
        ({
            let r = aave_decode_spec(us, tx, ts);
            &&& r is Some
            &&& r->0.len() > 0
            &&& r->0[0] matches ActionView::Protocol { kind, .. }
            &&& kind == ProtocolKind::Repay
        }),
    ensures
        exists|i: int| 0 <= i < ts.len() && ts[i].from == us && ts[i].to != us && debt_transfer(#[trigger] ts[i]),
{
    let sent = outbound_spec(us, ts);
    let received = inbound_spec(us, ts);
    assert(aave_kind(sent, received) == ProtocolKind::Repay);
    assert(any_debt(sent));
    let j = choose|j: int| 0 <= j < sent.len() && is_debt_symbol(#[trigger] sent[j].symbol);
    super::lemma_outbound_from(us, ts, j);
    let i = choose|i: int|
        0 <= i < ts.len() && ts[i].from == us && ts[i].to != us && sent[j] == super::asset_of_transfer(#[trigger] ts[i]);
    assert(debt_transfer(ts[i]));
}

/// A transfer whose symbol marks an aToken (`a…`/`A…`, not `ATOM`).
pub open spec fn atoken_transfer(t: TransferView) -> bool {
    starts_with_a_spec(t.symbol) && !is_atom(t.symbol)
}

/// What each AAVE kind rests on: a supply sends something and receives an
/// aToken; a withdrawal sends an `a…` token and receives something; a
/// borrow receives a debt token; a repayment sends one. The action is at
/// the pool and lists what `us` sent and received.
pub proof fn law_aave_kinds_rest_on_transfers(us: Address, tx: RawTxView, ts: Seq<TransferView>)
    requires
        aave_decode_spec(us, tx, ts) is Some,
    ensures
        ({
            let acts = aave_decode_spec(us, tx, ts)->0;
            &&& tx.chain_id == 1 && tx.to == Some(pool_v3())
            &&& acts.len() == 1
            &&& acts[0] matches ActionView::Protocol { kind, contract, sent, received, .. }
            &&& contract == pool_v3()
            &&& sent == outbound_spec(us, ts)
            &&& received == inbound_spec(us, ts)
            &&& kind == ProtocolKind::Supply ==> sent.len() > 0 && exists|i: int|
                0 <= i < ts.len() && ts[i].to == us && ts[i].from != us && atoken_transfer(#[trigger] ts[i])
            &&& kind == ProtocolKind::Withdraw ==> received.len() > 0 && exists|i: int|
                0 <= i < ts.len() && ts[i].from == us && ts[i].to != us && starts_with_a_spec(#[trigger] ts[i].symbol)
            &&& kind == ProtocolKind::Borrow ==> exists|i: int|
                0 <= i < ts.len() && ts[i].to == us && ts[i].from != us && debt_transfer(#[trigger] ts[i])
            &&& kind == ProtocolKind::Repay ==> exists|i: int|
                0 <= i < ts.len() && ts[i].from == us && ts[i].to != us && debt_transfer(#[trigger] ts[i])
        }),
{
    let sent = outbound_spec(us, ts);
    let received = inbound_spec(us, ts);
    let k = aave_kind(sent, received);
    if k == ProtocolKind::Supply {
        let j = choose|j: int| 0 <= j < received.len() && starts_with_a_spec(#[trigger] received[j].symbol) && !is_atom(received[j].symbol);
        super::lemma_inbound_from(us, ts, j);
    } else if k == ProtocolKind::Withdraw {
        let j = choose|j: int| 0 <= j < sent.len() && starts_with_a_spec(#[trigger] sent[j].symbol);
        super::lemma_outbound_from(us, ts, j);
    } else if k == ProtocolKind::Borrow {
        let j = choose|j: int| 0 <= j < received.len() && is_debt_symbol(#[trigger] received[j].symbol);
        super::lemma_inbound_from(us, ts, j);
        let i = choose|i: int|
            0 <= i < ts.len() && ts[i].to == us && ts[i].from != us && received[j] == super::asset_of_transfer(#[trigger] ts[i]);
        assert(debt_transfer(ts[i]));
    } else if k == ProtocolKind::Repay {
        law_aave_repay_needs_debt_sent(us, tx, ts);
    }
}

/// Through the default registry, a mainnet call to the pool is decoded by
/// the AAVE decoder: Lido, tried first, does not claim it.
pub proof fn law_registry_sends_pool_calls_to_aave(us: Address, tx: RawTxView, ts: Seq<TransferView>)
    requires
        tx.chain_id == 1,
        tx.to == Some(pool_v3()),
    ensures
        super::registry_decode_spec(super::default_decoders(), us, tx, ts).actions == aave_decode_spec(us, tx, ts)->0,
{
    let ks = super::default_decoders();
    assert(ks[0] == super::DecoderKind::Lido);
    assert(super::kind_decode_spec(ks[0], us, tx, ts) is None);
    assert(ks.drop_first()[0] == super::DecoderKind::AaveV3);
    assert(super::kind_decode_spec(ks.drop_first()[0], us, tx, ts) is Some);
    reveal_with_fuel(super::registry_decode_spec, 3);
}

impl ContractDecoder for AaveV3 {
    open spec fn spec_known(&self) -> Seq<(u64, Address, Seq<char>)> {
        aave_known_spec()
    }

    open spec fn spec_decode(&self, us: Address, tx: RawTxView, ts: Seq<TransferView>) -> Option<
        Seq<ActionView>,
    > {
        aave_decode_spec(us, tx, ts)
    }

    fn known_contracts(&self) -> (r: Vec<KnownContract>) {
        proof {
            reveal_strlit("AAVE v3 Pool");
        }
        let r = vec![KnownContract { chain_id: 1, address: pool_v3(), label: "AAVE v3 Pool" }];
        assert(super::known_view(r@) =~~= aave_known_spec());
        r
    }

    fn decode(&self, us: Address, tx: &RawTx, transfers: &[RawTransfer]) -> (r: Option<Vec<Action>>) {
        if tx.chain_id != 1 || tx.to != Some(pool_v3()) {
            return None;
        }
        let sent = outbound_assets(us, transfers);
        let received = inbound_assets(us, transfers);
        let recv_atoken = has_atoken(&received);
        let recv_debt = has_debt(&received);
        let sent_atoken = has_a_symbol(&sent);
        let sent_debt = has_debt(&sent);
        let kind = if recv_atoken && sent.len() != 0 {
            ProtocolKind::Supply
        } else if sent_atoken && received.len() != 0 {
            ProtocolKind::Withdraw
        } else if recv_debt {
            ProtocolKind::Borrow
        } else if sent_debt {
            ProtocolKind::Repay
        } else {
            ProtocolKind::Other
        };
        Some(protocol_action(aave_str(), kind, pool_v3(), sent, received))
    }
}

} // verus!
