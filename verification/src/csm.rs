//! Lido Community Staking Module bonds.

use vstd::prelude::*;

use crate::primitives::{Address, U256};

verus! {

/// Lido's CSAccounting contract on mainnet.
#[verifier::allow_in_spec]
pub fn cs_accounting() -> Address
    returns
        (Address { hi: 0x4d72bff1, mid: 0xbeac69925f8bd125, lo: 0x26a39baab069e5da }),
{
    Address { hi: 0x4d72bff1, mid: 0xbeac69925f8bd125, lo: 0x26a39baab069e5da }
}

/// The bond of one node operator, in stETH wei.
#[derive(Debug, Clone, Copy)]
pub struct CsmBond {
    pub operator_id: u64,
    pub bond_steth_wei: U256,
}

} // verus!
