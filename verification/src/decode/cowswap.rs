//! CoW Protocol on mainnet: batch-settled swaps, recognised by the user's
//! transfers with the settlement or vault-relayer contracts, or by ETH the
//! settlement contract sends the user.

use vstd::prelude::*;

use crate::primitives::Address;

use super::across::{prepend_opt, with_native_first};
use super::erc20::{InternalTx, RawTransfer, RawTx, RawTxView, TransferView};
use super::lido::{one_protocol_action, protocol_action};
use super::{
    Action, ActionView, ContractDecoder, KnownContract, ProtocolKind, inbound_assets, inbound_spec,
    native_received, native_received_spec, outbound_assets, outbound_spec, transfers_view,
};

verus! {

#[verifier::allow_in_spec]
pub fn settlement() -> Address
    returns
        (Address { hi: 0x9008d19f, mid: 0x58aabd9ed0d60971, lo: 0x565aa8510560ab41 }),
{
    Address { hi: 0x9008d19f, mid: 0x58aabd9ed0d60971, lo: 0x565aa8510560ab41 }
}

#[verifier::allow_in_spec]
pub fn vault_relayer() -> Address
    returns
        (Address { hi: 0xc92e8bdf, mid: 0x79f0507f65a392b0, lo: 0xab4667716bfe0110 }),
{
    Address { hi: 0xc92e8bdf, mid: 0x79f0507f65a392b0, lo: 0xab4667716bfe0110 }
}

pub struct Cowswap;

pub open spec fn cow_name() -> Seq<char> {
    seq!['C', 'o', 'W', ' ', 'P', 'r', 'o', 't', 'o', 'c', 'o', 'l']
}

pub open spec fn is_cow_contract(a: Address) -> bool {
    a == settlement() || a == vault_relayer()
}

pub open spec fn cow_transfer(us: Address, t: TransferView) -> bool {
    (t.from == us && is_cow_contract(t.to)) || (t.to == us && is_cow_contract(t.from))
}

pub open spec fn cow_internal(us: Address, it: InternalTx) -> bool {
    it.success && it.to == us && is_cow_contract(it.from)
}

pub open spec fn cow_decode_spec(us: Address, tx: RawTxView, ts: Seq<TransferView>) -> Option<
    Seq<ActionView>,
> {
    let via_transfer = exists|i: int| 0 <= i < ts.len() && cow_transfer(us, #[trigger] ts[i]);
    let via_internal = exists|i: int| 0 <= i < tx.internals.len() && cow_internal(us, #[trigger] tx.internals[i]);
    if tx.chain_id != 1 || (!via_transfer && !via_internal) {
        None
    } else {
        let sent = outbound_spec(us, ts);
        let received = with_native_first(native_received_spec(us, tx), inbound_spec(us, ts));
        if sent.len() == 0 && received.len() == 0 {
            None
        } else {
            one_protocol_action(cow_name(), ProtocolKind::Swap, settlement(), sent, received)
        }
    }
}

pub open spec fn cow_known_spec() -> Seq<(u64, Address, Seq<char>)> {
    seq![
        (1u64, settlement(), seq!['C', 'o', 'W', ' ', 'P', 'r', 'o', 't', 'o', 'c', 'o', 'l', ' ', 'S', 'e', 't', 't', 'l', 'e', 'm', 'e', 'n', 't']),
        (1u64, vault_relayer(), seq!['C', 'o', 'W', ' ', 'P', 'r', 'o', 't', 'o', 'c', 'o', 'l', ' ', 'V', 'a', 'u', 'l', 't', ' ', 'R', 'e', 'l', 'a', 'y', 'e', 'r']),
    ]
}

fn cow_str() -> (r: &'static str)
    ensures
        r@ == cow_name(),
{
    proof {
        reveal_strlit("CoW Protocol");
    }
    "CoW Protocol"
}

fn touches_via_transfer(us: Address, transfers: &[RawTransfer]) -> (b: bool)
    ensures
        b == exists|i: int| 0 <= i < transfers@.len() && cow_transfer(us, #[trigger] transfers_view(transfers@)[i]),
{
    let ghost tv = transfers_view(transfers@);
    let s = settlement();
    let v = vault_relayer();
    let mut i: usize = 0;
    while i < transfers.len()
        invariant
            i <= transfers@.len(),
            tv == transfers_view(transfers@),
            s == settlement(),
            v == vault_relayer(),
            forall|k: int| 0 <= k < i ==> !cow_transfer(us, #[trigger] tv[k]),
        decreases transfers@.len() - i,
    {
        let t = &transfers[i];
        assert(tv[i as int] == t@);
        if (t.from == us && (t.to == s || t.to == v)) || (t.to == us && (t.from == s || t.from == v)) {
            return true;
        }
        i = i + 1;
    }
    false
}

fn touches_via_internal(us: Address, tx: &RawTx) -> (b: bool)
    ensures
        b == exists|i: int| 0 <= i < tx.internals@.len() && cow_internal(us, #[trigger] tx.internals@[i]),
{
    let s = settlement();
    let v = vault_relayer();
    let mut i: usize = 0;
    while i < tx.internals.len()
        invariant
            i <= tx.internals@.len(),
            s == settlement(),
            v == vault_relayer(),
            forall|k: int| 0 <= k < i ==> !cow_internal(us, #[trigger] tx.internals@[k]),
        decreases tx.internals@.len() - i,
    {
        let it = tx.internals[i];
        if it.success && it.to == us && (it.from == s || it.from == v) {
            return true;
        }
        i = i + 1;
    }
    false
}

impl ContractDecoder for Cowswap {
    open spec fn spec_known(&self) -> Seq<(u64, Address, Seq<char>)> {
        cow_known_spec()
    }

    open spec fn spec_decode(&self, us: Address, tx: RawTxView, ts: Seq<TransferView>) -> Option<
        Seq<ActionView>,
    > {
        cow_decode_spec(us, tx, ts)
    }

    fn known_contracts(&self) -> (r: Vec<KnownContract>) {
        proof {
            reveal_strlit("CoW Protocol Settlement");
            reveal_strlit("CoW Protocol Vault Relayer");
        }
        let r = vec![
            KnownContract { chain_id: 1, address: settlement(), label: "CoW Protocol Settlement" },
            KnownContract { chain_id: 1, address: vault_relayer(), label: "CoW Protocol Vault Relayer" },
        ];
        assert(super::known_view(r@) =~~= cow_known_spec());
        r
    }

    fn decode(&self, us: Address, tx: &RawTx, transfers: &[RawTransfer]) -> (r: Option<Vec<Action>>) {
        if tx.chain_id != 1 {
            return None;
        }
        let via_transfer = touches_via_transfer(us, transfers);
        let via_internal = touches_via_internal(us, tx);
        if !via_transfer && !via_internal {
            return None;
        }
        let sent = outbound_assets(us, transfers);
        let received = prepend_opt(native_received(us, tx), inbound_assets(us, transfers));
        if sent.len() == 0 && received.len() == 0 {
            return None;
        }
        Some(protocol_action(cow_str(), ProtocolKind::Swap, settlement(), sent, received))
    }
}

} // verus!
