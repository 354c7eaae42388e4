//! Lido on mainnet: staking ETH for stETH, wrapping and unwrapping wstETH,
//! withdrawal requests and claims, and Community Staking Module calls.

use vstd::prelude::*;

use crate::primitives::Address;

use super::erc20::{RawTransfer, RawTx, RawTxView, TransferView};
use super::{
    Action, ActionView, AssetAmount, AssetView, ContractDecoder, KnownContract, ProtocolKind,
    any_token, assets_view, eth_amount, eth_asset, has_token, inbound_assets, inbound_spec,
    native_sent, native_sent_spec, outbound_assets, outbound_spec, opt_asset_view,
    transfers_view,
};

verus! {

#[verifier::allow_in_spec]
pub fn steth() -> Address
    returns
        (Address { hi: 0xae7ab965, mid: 0x20de3a18e5e111b5, lo: 0xeaab095312d7fe84 }),
{
    Address { hi: 0xae7ab965, mid: 0x20de3a18e5e111b5, lo: 0xeaab095312d7fe84 }
}

#[verifier::allow_in_spec]
pub fn wsteth() -> Address
    returns
        (Address { hi: 0x7f39c581, mid: 0xf595b53c5cb19bd0, lo: 0xb3f8da6c935e2ca0 }),
{
    Address { hi: 0x7f39c581, mid: 0xf595b53c5cb19bd0, lo: 0xb3f8da6c935e2ca0 }
}

#[verifier::allow_in_spec]
pub fn withdrawal_queue() -> Address
    returns
        (Address { hi: 0x889edc2e, mid: 0xdab5f40e902b864a, lo: 0xd4d7ade8e412f9b1 }),
{
    Address { hi: 0x889edc2e, mid: 0xdab5f40e902b864a, lo: 0xd4d7ade8e412f9b1 }
}

#[verifier::allow_in_spec]
pub fn csm() -> Address
    returns
        (Address { hi: 0xda7de2ec, mid: 0xddfccc6c3af10108, lo: 0xdb212acbbf9ea83f }),
{
    Address { hi: 0xda7de2ec, mid: 0xddfccc6c3af10108, lo: 0xdb212acbbf9ea83f }
}

pub open spec fn lido_name() -> Seq<char> {
    seq!['L', 'i', 'd', 'o']
}

pub open spec fn lido_csm_name() -> Seq<char> {
    seq!['L', 'i', 'd', 'o', ' ', 'C', 'S', 'M']
}

fn lido_str() -> (r: &'static str)
    ensures
        r@ == lido_name(),
{
    proof {
        reveal_strlit("Lido");
    }
    "Lido"
}

fn lido_csm_str() -> (r: &'static str)
    ensures
        r@ == lido_csm_name(),
{
    proof {
        reveal_strlit("Lido CSM");
    }
    "Lido CSM"
}

pub struct Lido;

/// ETH that came back to `us` as the transaction value (claims).
pub open spec fn native_sent_inverted_spec(us: crate::primitives::Address, tx: RawTxView) -> Option<
    AssetView,
> {
    if tx.from != us && tx.to == Some(us) && tx.value_wei@ != 0 {
        Some(eth_asset(tx.value_wei))
    } else {
        None
    }
}

pub open spec fn one_protocol_action(
    protocol: Seq<char>,
    kind: ProtocolKind,
    contract: Address,
    sent: Seq<AssetView>,
    received: Seq<AssetView>,
) -> Option<Seq<ActionView>> {
    Some(seq![ActionView::Protocol { protocol, kind, contract, sent, received }])
}

pub open spec fn lido_decode_spec(us: Address, tx: RawTxView, ts: Seq<TransferView>) -> Option<
    Seq<ActionView>,
> {
    let inbound = inbound_spec(us, ts);
    let outbound = outbound_spec(us, ts);
    if tx.chain_id != 1 || tx.to is None {
        None
    } else if tx.to->0 == steth() {
        // Submit: ETH in, stETH minted to us.
        match native_sent_spec(us, tx) {
            Some(eth) => if has_token(inbound, steth()) {
                one_protocol_action(lido_name(), ProtocolKind::Stake, steth(), seq![eth], inbound)
            } else {
                None
            },
            None => None,
        }
    } else if tx.to->0 == wsteth() {
        if has_token(outbound, steth()) && has_token(inbound, wsteth()) {
            one_protocol_action(lido_name(), ProtocolKind::Wrap, wsteth(), outbound, inbound)
        } else if has_token(outbound, wsteth()) && has_token(inbound, steth()) {
            one_protocol_action(lido_name(), ProtocolKind::Unwrap, wsteth(), outbound, inbound)
        } else {
            None
        }
    } else if tx.to->0 == withdrawal_queue() {
        if has_token(outbound, steth()) || has_token(outbound, wsteth()) {
            one_protocol_action(
                lido_name(),
                ProtocolKind::Unstake,
                withdrawal_queue(),
                outbound,
                inbound,
            )
        } else if inbound.len() != 0 || tx.value_wei@ != 0 {
            let received = match native_sent_inverted_spec(us, tx) {
                Some(a) => inbound.push(a),
                None => inbound,
            };
            one_protocol_action(
                lido_name(),
                ProtocolKind::Claim,
                withdrawal_queue(),
                outbound,
                received,
            )
        } else {
            None
        }
    } else if tx.to->0 == csm() {
        let sent = match native_sent_spec(us, tx) {
            Some(a) => seq![a],
            None => seq![],
        };
        one_protocol_action(lido_csm_name(), ProtocolKind::Other, csm(), sent, inbound)
    } else {
        None
    }
}

pub open spec fn lido_known_spec() -> Seq<(u64, Address, Seq<char>)> {
    seq![
        (1u64, steth(), seq!['L', 'i', 'd', 'o', ' ', 's', 't', 'E', 'T', 'H']),
        (1u64, wsteth(), seq!['L', 'i', 'd', 'o', ' ', 'w', 's', 't', 'E', 'T', 'H']),
        (
            1u64,
            withdrawal_queue(),
            seq!['L', 'i', 'd', 'o', ' ', 'W', 'i', 't', 'h', 'd', 'r', 'a', 'w', 'a', 'l', ' ', 'Q', 'u', 'e', 'u', 'e'],
        ),
        (1u64, csm(), seq!['L', 'i', 'd', 'o', ' ', 'C', 'S', 'M']),
    ]
}

/// A single protocol action, built from owned parts.
pub fn protocol_action(
    protocol: &'static str,
    kind: ProtocolKind,
    contract: Address,
    sent: Vec<AssetAmount>,
    received: Vec<AssetAmount>,
) -> (r: Vec<Action>)
    ensures
        Some(super::actions_view(r@)) == one_protocol_action(
            protocol@,
            kind,
            contract,
            assets_view(sent@),
            assets_view(received@),
        ),
{
    let ghost sv = assets_view(sent@);
    let ghost rv = assets_view(received@);
    let a = Action::Protocol { protocol, kind, contract, sent, received };
    let r = vec![a];
    assert(super::actions_view(r@) =~= seq![a@]);
    r
}

impl ContractDecoder for Lido {
    open spec fn spec_known(&self) -> Seq<(u64, Address, Seq<char>)> {
        lido_known_spec()
    }

    open spec fn spec_decode(&self, us: Address, tx: RawTxView, ts: Seq<TransferView>) -> Option<
        Seq<ActionView>,
    > {
        lido_decode_spec(us, tx, ts)
    }

    fn known_contracts(&self) -> (r: Vec<KnownContract>) {
        proof {
            reveal_strlit("Lido stETH");
            reveal_strlit("Lido wstETH");
            reveal_strlit("Lido Withdrawal Queue");
            reveal_strlit("Lido CSM");
        }
        let r = vec![
            KnownContract { chain_id: 1, address: steth(), label: "Lido stETH" },
            KnownContract { chain_id: 1, address: wsteth(), label: "Lido wstETH" },
            KnownContract { chain_id: 1, address: withdrawal_queue(), label: "Lido Withdrawal Queue" },
            KnownContract { chain_id: 1, address: csm(), label: "Lido CSM" },
        ];
        assert(super::known_view(r@) =~~= lido_known_spec());
        r
    }

    fn decode(&self, us: Address, tx: &RawTx, transfers: &[RawTransfer]) -> (r: Option<Vec<Action>>) {
        if tx.chain_id != 1 {
            return None;
        }
        let to = match tx.to {
            Some(to) => to,
            None => {
                return None;
            },
        };
        let inbound = inbound_assets(us, transfers);
        let outbound = outbound_assets(us, transfers);
        if to == steth() {
            if let Some(eth_in) = native_sent(us, tx) {
                if any_token(&inbound, steth()) {
                    let ghost ev = eth_in@;
                    let sent = vec![eth_in];
                    assert(assets_view(sent@) =~= seq![ev]);
                    return Some(protocol_action(lido_str(), ProtocolKind::Stake, steth(), sent, inbound));
                }
            }
            None
        } else if to == wsteth() {
            let sent_steth = any_token(&outbound, steth());
            let recv_wsteth = any_token(&inbound, wsteth());
            let sent_wsteth = any_token(&outbound, wsteth());
            let recv_steth = any_token(&inbound, steth());
            if sent_steth && recv_wsteth {
                return Some(protocol_action(lido_str(), ProtocolKind::Wrap, wsteth(), outbound, inbound));
            }
            if sent_wsteth && recv_steth {
                return Some(protocol_action(lido_str(), ProtocolKind::Unwrap, wsteth(), outbound, inbound));
            }
            None
        } else if to == withdrawal_queue() {
            let sent_lido = any_token(&outbound, steth()) || any_token(&outbound, wsteth());
            if sent_lido {
                return Some(
                    protocol_action(lido_str(), ProtocolKind::Unstake, withdrawal_queue(), outbound, inbound),
                );
            }
            if inbound.len() != 0 || !tx.value_wei.is_zero() {
                let ghost iv = assets_view(inbound@);
                let received = match native_sent_inverted(us, tx) {
                    Some(amt) => {
                        let ghost av = amt@;
                        let mut v = inbound;
                        v.push(amt);
                        assert(assets_view(v@) =~= iv.push(av));
                        v
                    },
                    None => inbound,
                };
                return Some(
                    protocol_action(lido_str(), ProtocolKind::Claim, withdrawal_queue(), outbound, received),
                );
            }
            None
        } else if to == csm() {
            let sent = match native_sent(us, tx) {
                Some(a) => {
                    let ghost av = a@;
                    let v = vec![a];
                    assert(assets_view(v@) =~= seq![av]);
                    v
                },
                None => {
                    let v: Vec<AssetAmount> = Vec::new();
                    assert(assets_view(v@) =~= Seq::<AssetView>::empty());
                    v
                },
            };
            Some(protocol_action(lido_csm_str(), ProtocolKind::Other, csm(), sent, inbound))
        } else {
            None
        }
    }
}

/// ETH that reached `us` as the transaction value.
fn native_sent_inverted(us: Address, tx: &RawTx) -> (r: Option<AssetAmount>)
    ensures
        opt_asset_view(r) == native_sent_inverted_spec(us, tx@),
{
    if tx.from != us && tx.to == Some(us) && !tx.value_wei.is_zero() {
        Some(eth_amount(tx.value_wei))
    } else {
        None
    }
}

} // verus!
