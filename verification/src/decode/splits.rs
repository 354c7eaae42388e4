//! 0xSplits on mainnet: distributions from SplitMain and the Splits
//! warehouse.

use vstd::prelude::*;

use crate::primitives::Address;

use super::erc20::{RawTransfer, RawTx, RawTxView, TransferView};
use super::lido::{one_protocol_action, protocol_action};
use super::{
    Action, ActionView, ContractDecoder, KnownContract, ProtocolKind, inbound_assets, inbound_spec,
    outbound_assets, outbound_spec, transfers_view,
};

verus! {

#[verifier::allow_in_spec]
pub fn split_main_v1() -> Address
    returns
        (Address { hi: 0x2ed6c4b5, mid: 0xda6378c7897ac67b, lo: 0xa9e43102feb694ee }),
{
    Address { hi: 0x2ed6c4b5, mid: 0xda6378c7897ac67b, lo: 0xa9e43102feb694ee }
}

#[verifier::allow_in_spec]
pub fn splits_warehouse() -> Address
    returns
        (Address { hi: 0x8fb66f38, mid: 0xcf86a3d5e8768f8f, lo: 0x1754a24a6c661fb8 }),
{
    Address { hi: 0x8fb66f38, mid: 0xcf86a3d5e8768f8f, lo: 0x1754a24a6c661fb8 }
}

pub struct Splits;

pub open spec fn splits_name() -> Seq<char> {
    seq!['0', 'x', 'S', 'p', 'l', 'i', 't', 's']
}

pub open spec fn is_split_contract(a: Address) -> bool {
    a == split_main_v1() || a == splits_warehouse()
}

/// A transfer between `us` and one of the split contracts.
pub open spec fn split_transfer(us: Address, t: TransferView) -> bool {
    (is_split_contract(t.from) || is_split_contract(t.to)) && (t.from == us || t.to == us)
}

pub open spec fn splits_decode_spec(us: Address, tx: RawTxView, ts: Seq<TransferView>) -> Option<
    Seq<ActionView>,
> {
    let touches = tx.to == Some(split_main_v1()) || tx.to == Some(splits_warehouse())
        || exists|i: int| 0 <= i < ts.len() && split_transfer(us, #[trigger] ts[i]);
    if tx.chain_id != 1 || !touches {
        None
    } else {
        let sent = outbound_spec(us, ts);
        let received = inbound_spec(us, ts);
        if sent.len() == 0 && received.len() == 0 {
            None
        } else {
            let kind = if received.len() != 0 && sent.len() == 0 {
                ProtocolKind::Distribute
            } else {
                ProtocolKind::Other
            };
            let contract = if tx.to == Some(splits_warehouse()) {
                splits_warehouse()
            } else {
                split_main_v1()
            };
            one_protocol_action(splits_name(), kind, contract, sent, received)
        }
    }
}

pub open spec fn splits_known_spec() -> Seq<(u64, Address, Seq<char>)> {
    seq![
        (1u64, split_main_v1(), seq!['0', 'x', 'S', 'p', 'l', 'i', 't', 's', ' ', 'S', 'p', 'l', 'i', 't', 'M', 'a', 'i', 'n']),
        (1u64, splits_warehouse(), seq!['0', 'x', 'S', 'p', 'l', 'i', 't', 's', ' ', 'W', 'a', 'r', 'e', 'h', 'o', 'u', 's', 'e']),
    ]
}

fn splits_str() -> (r: &'static str)
    ensures
        r@ == splits_name(),
{
    proof {
        reveal_strlit("0xSplits");
    }
    "0xSplits"
}

fn touches_split(us: Address, transfers: &[RawTransfer]) -> (b: bool)
    ensures
        b == exists|i: int| 0 <= i < transfers@.len() && split_transfer(us, #[trigger] transfers_view(transfers@)[i]),
{
    let ghost tv = transfers_view(transfers@);
    let m = split_main_v1();
    let w = splits_warehouse();
    let mut i: usize = 0;
    while i < transfers.len()
        invariant
            i <= transfers@.len(),
            tv == transfers_view(transfers@),
            m == split_main_v1(),
            w == splits_warehouse(),
            forall|k: int| 0 <= k < i ==> !split_transfer(us, #[trigger] tv[k]),
        decreases transfers@.len() - i,
    {
        let t = &transfers[i];
        assert(tv[i as int] == t@);
        let touches_split = t.from == m || t.to == m || t.from == w || t.to == w;
        if touches_split && (t.from == us || t.to == us) {
            return true;
        }
        i = i + 1;
    }
    false
}

impl ContractDecoder for Splits {
    open spec fn spec_known(&self) -> Seq<(u64, Address, Seq<char>)> {
        splits_known_spec()
    }

    open spec fn spec_decode(&self, us: Address, tx: RawTxView, ts: Seq<TransferView>) -> Option<
        Seq<ActionView>,
    > {
        splits_decode_spec(us, tx, ts)
    }

    fn known_contracts(&self) -> (r: Vec<KnownContract>) {
        proof {
            reveal_strlit("0xSplits SplitMain");
            reveal_strlit("0xSplits Warehouse");
        }
        let r = vec![
            KnownContract { chain_id: 1, address: split_main_v1(), label: "0xSplits SplitMain" },
            KnownContract { chain_id: 1, address: splits_warehouse(), label: "0xSplits Warehouse" },
        ];
        assert(super::known_view(r@) =~~= splits_known_spec());
        r
    }

    fn decode(&self, us: Address, tx: &RawTx, transfers: &[RawTransfer]) -> (r: Option<Vec<Action>>) {
        if tx.chain_id != 1 {
            return None;
        }
        let touches = tx.to == Some(split_main_v1()) || tx.to == Some(splits_warehouse())
            || touches_split(us, transfers);
        if !touches {
            return None;
        }
        let sent = outbound_assets(us, transfers);
        let received = inbound_assets(us, transfers);
        if sent.len() == 0 && received.len() == 0 {
            return None;
        }
        let kind = if received.len() != 0 && sent.len() == 0 {
            ProtocolKind::Distribute
        } else {
            ProtocolKind::Other
        };
        let contract = if tx.to == Some(splits_warehouse()) {
            splits_warehouse()
        } else {
            split_main_v1()
        };
        Some(protocol_action(splits_str(), kind, contract, sent, received))
    }
}

} // verus!
