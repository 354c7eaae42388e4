//! Splits V2 warehouse balances: which chains have the warehouse and which
//! ERC-6909 token id a balance query asks for.

use vstd::prelude::*;

use crate::primitives::{Address, U256};

/// The SplitsWarehouse singleton, at the same address on every supported
/// chain.
pub use crate::decode::splits::splits_warehouse;

verus! {

/// The Splits V2 stand-in for native ETH, `0xeeee…eeee`.
#[verifier::allow_in_spec]
pub fn native_token_sentinel() -> Address
    returns
        (Address { hi: 0xeeeeeeee, mid: 0xeeeeeeeeeeeeeeee, lo: 0xeeeeeeeeeeeeeeee }),
{
    Address { hi: 0xeeeeeeee, mid: 0xeeeeeeeeeeeeeeee, lo: 0xeeeeeeeeeeeeeeee }
}

/// The chains the warehouse is deployed on: mainnet, Optimism, Base and
/// Arbitrum.
pub open spec fn supported_chain_spec(chain_id: u64) -> bool {
    chain_id == 1 || chain_id == 10 || chain_id == 8453 || chain_id == 42161
}

pub fn is_supported_chain(chain_id: u64) -> (b: bool)
    ensures
        b == supported_chain_spec(chain_id),
{
    chain_id == 1 || chain_id == 10 || chain_id == 8453 || chain_id == 42161
}

/// The ERC-6909 id of a token: its address read as a number.
pub fn token_id_for(token: Address) -> (r: U256)
    ensures
        r@ == token@,
        r.w3 == 0,
{
    U256 { w0: token.lo, w1: token.mid, w2: token.hi as u64, w3: 0 }
}

/// The id a balance query asks for: the token's, or the native sentinel's
/// for ETH (`None`).
pub fn balance_token_id(token: Option<Address>) -> (r: U256)
    ensures
        r@ == match token {
            Some(t) => t@,
            None => native_token_sentinel()@,
        },
{
    let t = match token {
        Some(t) => t,
        None => native_token_sentinel(),
    };
    token_id_for(t)
}

} // verus!
