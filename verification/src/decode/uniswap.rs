//! Uniswap routers on mainnet: swaps, with ETH legs taken from the
//! transaction value and from internal calls back to the user.

use vstd::prelude::*;

use crate::primitives::Address;

use super::across::{prepend_opt, with_native_first};
use super::erc20::{RawTransfer, RawTx, RawTxView, TransferView};
use super::lido::{one_protocol_action, protocol_action};
use super::{
    Action, ActionView, ContractDecoder, KnownContract, ProtocolKind, inbound_assets, inbound_spec,
    native_received, native_received_spec, native_sent, native_sent_spec, outbound_assets,
    outbound_spec,
};

verus! {

#[verifier::allow_in_spec]
pub fn v2_router() -> Address
    returns
        (Address { hi: 0x7a250d56, mid: 0x30b4cf539739df2c, lo: 0x5dacb4c659f2488d }),
{
    Address { hi: 0x7a250d56, mid: 0x30b4cf539739df2c, lo: 0x5dacb4c659f2488d }
}

#[verifier::allow_in_spec]
pub fn v3_router_01() -> Address
    returns
        (Address { hi: 0xe592427a, mid: 0x0aece92de3edee1f, lo: 0x18e0157c05861564 }),
{
    Address { hi: 0xe592427a, mid: 0x0aece92de3edee1f, lo: 0x18e0157c05861564 }
}

#[verifier::allow_in_spec]
pub fn v3_router_02() -> Address
    returns
        (Address { hi: 0x68b34658, mid: 0x33fb72a70ecdf485, lo: 0xe0e4c7bd8665fc45 }),
{
    Address { hi: 0x68b34658, mid: 0x33fb72a70ecdf485, lo: 0xe0e4c7bd8665fc45 }
}

#[verifier::allow_in_spec]
pub fn universal_router() -> Address
    returns
        (Address { hi: 0x66a9893c, mid: 0xc07d91d95644aedd, lo: 0x05d03f95e1dba8af }),
{
    Address { hi: 0x66a9893c, mid: 0xc07d91d95644aedd, lo: 0x05d03f95e1dba8af }
}

pub struct Uniswap;

pub open spec fn is_router(a: Address) -> bool {
    a == v2_router() || a == v3_router_01() || a == v3_router_02() || a == universal_router()
}

pub open spec fn uniswap_label_spec(a: Address) -> Seq<char> {
    if a == v2_router() {
        seq!['U', 'n', 'i', 's', 'w', 'a', 'p', ' ', 'V', '2']
    } else if a == v3_router_01() || a == v3_router_02() {
        seq!['U', 'n', 'i', 's', 'w', 'a', 'p', ' ', 'V', '3']
    } else {
        seq!['U', 'n', 'i', 's', 'w', 'a', 'p']
    }
}

impl Uniswap {
    /// The protocol name shown for a router.
    pub fn protocol_label(addr: Address) -> (r: &'static str)
        ensures
            r@ == uniswap_label_spec(addr),
    {
        if addr == v2_router() {
            proof {
                reveal_strlit("Uniswap V2");
            }
            "Uniswap V2"
        } else if addr == v3_router_01() || addr == v3_router_02() {
            proof {
                reveal_strlit("Uniswap V3");
            }
            "Uniswap V3"
        } else {
            proof {
                reveal_strlit("Uniswap");
            }
            "Uniswap"
        }
    }
}

pub open spec fn uniswap_decode_spec(us: Address, tx: RawTxView, ts: Seq<TransferView>) -> Option<
    Seq<ActionView>,
> {
    if tx.chain_id != 1 || tx.to is None || !is_router(tx.to->0) {
        None
    } else {
        let to = tx.to->0;
        let sent = with_native_first(native_sent_spec(us, tx), outbound_spec(us, ts));
        let received = with_native_first(native_received_spec(us, tx), inbound_spec(us, ts));
        if sent.len() == 0 && received.len() == 0 {
            None
        } else {
            one_protocol_action(uniswap_label_spec(to), ProtocolKind::Swap, to, sent, received)
        }
    }
}

pub open spec fn uniswap_known_spec() -> Seq<(u64, Address, Seq<char>)> {
    seq![
        (1u64, v2_router(), seq!['U', 'n', 'i', 's', 'w', 'a', 'p', ' ', 'V', '2', ' ', 'R', 'o', 'u', 't', 'e', 'r']),
        (1u64, v3_router_01(), seq!['U', 'n', 'i', 's', 'w', 'a', 'p', ' ', 'V', '3', ' ', 'S', 'w', 'a', 'p', 'R', 'o', 'u', 't', 'e', 'r']),
        (1u64, v3_router_02(), seq!['U', 'n', 'i', 's', 'w', 'a', 'p', ' ', 'V', '3', ' ', 'S', 'w', 'a', 'p', 'R', 'o', 'u', 't', 'e', 'r', '0', '2']),
        (1u64, universal_router(), seq!['U', 'n', 'i', 's', 'w', 'a', 'p', ' ', 'U', 'n', 'i', 'v', 'e', 'r', 's', 'a', 'l', ' ', 'R', 'o', 'u', 't', 'e', 'r']),
    ]
}

impl ContractDecoder for Uniswap {
    open spec fn spec_known(&self) -> Seq<(u64, Address, Seq<char>)> {
        uniswap_known_spec()
    }

    open spec fn spec_decode(&self, us: Address, tx: RawTxView, ts: Seq<TransferView>) -> Option<
        Seq<ActionView>,
    > {
        uniswap_decode_spec(us, tx, ts)
    }

    fn known_contracts(&self) -> (r: Vec<KnownContract>) {
        proof {
            reveal_strlit("Uniswap V2 Router");
            reveal_strlit("Uniswap V3 SwapRouter");
            reveal_strlit("Uniswap V3 SwapRouter02");
            reveal_strlit("Uniswap Universal Router");
        }
        let r = vec![
            KnownContract { chain_id: 1, address: v2_router(), label: "Uniswap V2 Router" },
            KnownContract { chain_id: 1, address: v3_router_01(), label: "Uniswap V3 SwapRouter" },
            KnownContract { chain_id: 1, address: v3_router_02(), label: "Uniswap V3 SwapRouter02" },
            KnownContract { chain_id: 1, address: universal_router(), label: "Uniswap Universal Router" },
        ];
        assert(super::known_view(r@) =~~= uniswap_known_spec());
        r
    }

    fn decode(&self, us: Address, tx: &RawTx, transfers: &[RawTransfer]) -> (r: Option<Vec<Action>>) {
        if tx.chain_id != 1 {
            return None;
        }
        let to = match tx.to {
            Some(t) => t,
            None => {
                return None;
            },
        };
        let is_router = to == v2_router() || to == v3_router_01() || to == v3_router_02() || to
            == universal_router();
        if !is_router {
            return None;
        }
        let sent = prepend_opt(native_sent(us, tx), outbound_assets(us, transfers));
        let received = prepend_opt(native_received(us, tx), inbound_assets(us, transfers));
        if sent.len() == 0 && received.len() == 0 {
            return None;
        }
        Some(protocol_action(Uniswap::protocol_label(to), ProtocolKind::Swap, to, sent, received))
    }
}

} // verus!
