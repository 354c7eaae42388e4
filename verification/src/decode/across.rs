//! Across V3 spoke pools: bridge deposits and fills on each supported chain.

use vstd::prelude::*;

use crate::primitives::Address;

use super::erc20::{RawTransfer, RawTx, RawTxView, TransferView};
use super::lido::{one_protocol_action, protocol_action};
use super::{
    Action, ActionView, AssetAmount, AssetView, ContractDecoder, KnownContract, ProtocolKind,
    assets_view, inbound_assets, inbound_spec, native_sent, native_sent_spec, outbound_assets,
    outbound_spec, transfers_view,
};

verus! {

#[verifier::allow_in_spec]
pub fn spoke_mainnet() -> Address
    returns
        (Address { hi: 0x5c7bcd6e, mid: 0x7de5423a257d81b4, lo: 0x42095a1a6ced35c5 }),
{
    Address { hi: 0x5c7bcd6e, mid: 0x7de5423a257d81b4, lo: 0x42095a1a6ced35c5 }
}

#[verifier::allow_in_spec]
pub fn spoke_arbitrum() -> Address
    returns
        (Address { hi: 0xe35e9842, mid: 0xfceaca96570b7340, lo: 0x83f4a58e8f7c5f2a }),
{
    Address { hi: 0xe35e9842, mid: 0xfceaca96570b7340, lo: 0x83f4a58e8f7c5f2a }
}

#[verifier::allow_in_spec]
pub fn spoke_optimism() -> Address
    returns
        (Address { hi: 0x6f26bf09, mid: 0xb1c792e3228e5467, lo: 0x807a900a503c0281 }),
{
    Address { hi: 0x6f26bf09, mid: 0xb1c792e3228e5467, lo: 0x807a900a503c0281 }
}

#[verifier::allow_in_spec]
pub fn spoke_base() -> Address
    returns
        (Address { hi: 0x09aea4b2, mid: 0x242abc8bb4bb78d5, lo: 0x37a67a245a7bec64 }),
{
    Address { hi: 0x09aea4b2, mid: 0x242abc8bb4bb78d5, lo: 0x37a67a245a7bec64 }
}

pub struct Across;

pub open spec fn spoke_for_spec(chain_id: u64) -> Option<Address> {
    if chain_id == 1 {
        Some(spoke_mainnet())
    } else if chain_id == 42161 {
        Some(spoke_arbitrum())
    } else if chain_id == 10 {
        Some(spoke_optimism())
    } else if chain_id == 8453 {
        Some(spoke_base())
    } else {
        None
    }
}

impl Across {
    /// The spoke pool on a chain, if Across has one there.
    pub fn spoke_for(chain_id: u64) -> (r: Option<Address>)
        ensures
            r == spoke_for_spec(chain_id),
    {
        if chain_id == 1 {
            Some(spoke_mainnet())
        } else if chain_id == 42161 {
            Some(spoke_arbitrum())
        } else if chain_id == 10 {
            Some(spoke_optimism())
        } else if chain_id == 8453 {
            Some(spoke_base())
        } else {
            None
        }
    }
}

pub open spec fn across_name() -> Seq<char> {
    seq!['A', 'c', 'r', 'o', 's', 's']
}

/// A transfer between `us` and `other`, in either direction.
pub open spec fn transfer_with(us: Address, other: Address, t: TransferView) -> bool {
    (t.from == us && t.to == other) || (t.to == us && t.from == other)
}

pub open spec fn any_transfer_with(us: Address, other: Address, ts: Seq<TransferView>) -> bool {
    exists|i: int| 0 <= i < ts.len() && transfer_with(us, other, #[trigger] ts[i])
}

/// `sent` with the transaction's ETH value, if `us` sent any, in front.
pub open spec fn with_native_first(first: Option<AssetView>, rest: Seq<AssetView>) -> Seq<AssetView> {
    match first {
        Some(a) => seq![a] + rest,
        None => rest,
    }
}

pub open spec fn across_decode_spec(us: Address, tx: RawTxView, ts: Seq<TransferView>) -> Option<
    Seq<ActionView>,
> {
    match spoke_for_spec(tx.chain_id) {
        None => None,
        Some(spoke) => if tx.to == Some(spoke) || any_transfer_with(us, spoke, ts) {
            let sent = with_native_first(native_sent_spec(us, tx), outbound_spec(us, ts));
            let received = inbound_spec(us, ts);
            if sent.len() == 0 && received.len() == 0 {
                None
            } else {
                one_protocol_action(across_name(), ProtocolKind::Bridge, spoke, sent, received)
            }
        } else {
            None
        },
    }
}

pub open spec fn across_known_spec() -> Seq<(u64, Address, Seq<char>)> {
    let label = seq!['A', 'c', 'r', 'o', 's', 's', ' ', 'S', 'p', 'o', 'k', 'e', ' ', 'P', 'o', 'o', 'l'];
    seq![
        (1u64, spoke_mainnet(), label),
        (42161u64, spoke_arbitrum(), label),
        (10u64, spoke_optimism(), label),
        (8453u64, spoke_base(), label),
    ]
}

fn across_str() -> (r: &'static str)
    ensures
        r@ == across_name(),
{
    proof {
        reveal_strlit("Across");
    }
    "Across"
}

/// Whether some transfer moves value between `us` and `other`.
pub fn touches(us: Address, other: Address, transfers: &[RawTransfer]) -> (b: bool)
    ensures
        b == any_transfer_with(us, other, transfers_view(transfers@)),
{
    let ghost tv = transfers_view(transfers@);
    let mut i: usize = 0;
    while i < transfers.len()
        invariant
            i <= transfers@.len(),
            tv == transfers_view(transfers@),
            forall|k: int| 0 <= k < i ==> !transfer_with(us, other, #[trigger] tv[k]),
        decreases transfers@.len() - i,
    {
        let t = &transfers[i];
        assert(tv[i as int] == t@);
        if (t.from == us && t.to == other) || (t.to == us && t.from == other) {
            return true;
        }
        i = i + 1;
    }
    false
}

/// Puts `first` (if any) in front of `rest`.
pub fn prepend_opt(first: Option<AssetAmount>, rest: Vec<AssetAmount>) -> (r: Vec<AssetAmount>)
    ensures
        assets_view(r@) == with_native_first(super::opt_asset_view(first), assets_view(rest@)),
{
    match first {
        Some(a) => {
            let ghost av = a@;
            let ghost rv = assets_view(rest@);
            let mut v = rest;
            v.insert(0, a);
            assert(assets_view(v@) =~= seq![av] + rv);
            v
        },
        None => rest,
    }
}

impl ContractDecoder for Across {
    open spec fn spec_known(&self) -> Seq<(u64, Address, Seq<char>)> {
        across_known_spec()
    }

    open spec fn spec_decode(&self, us: Address, tx: RawTxView, ts: Seq<TransferView>) -> Option<
        Seq<ActionView>,
    > {
        across_decode_spec(us, tx, ts)
    }

    fn known_contracts(&self) -> (r: Vec<KnownContract>) {
        proof {
            reveal_strlit("Across Spoke Pool");
        }
        let r = vec![
            KnownContract { chain_id: 1, address: spoke_mainnet(), label: "Across Spoke Pool" },
            KnownContract { chain_id: 42161, address: spoke_arbitrum(), label: "Across Spoke Pool" },
            KnownContract { chain_id: 10, address: spoke_optimism(), label: "Across Spoke Pool" },
            KnownContract { chain_id: 8453, address: spoke_base(), label: "Across Spoke Pool" },
        ];
        assert(super::known_view(r@) =~~= across_known_spec());
        r
    }

    fn decode(&self, us: Address, tx: &RawTx, transfers: &[RawTransfer]) -> (r: Option<Vec<Action>>) {
        let spoke = match Across::spoke_for(tx.chain_id) {
            Some(s) => s,
            None => {
                return None;
            },
        };
        let touches_spoke = tx.to == Some(spoke) || touches(us, spoke, transfers);
        if !touches_spoke {
            return None;
        }
        let sent = prepend_opt(native_sent(us, tx), outbound_assets(us, transfers));
        let received = inbound_assets(us, transfers);
        if sent.len() == 0 && received.len() == 0 {
            return None;
        }
        Some(protocol_action(across_str(), ProtocolKind::Bridge, spoke, sent, received))
    }
}

} // verus!
