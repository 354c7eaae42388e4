//! Incremental history sync: where the next pull starts.

use vstd::prelude::*;

verus! {

/// The first block to ask for: the one after the last synced block
/// (saturating at the largest block number).
pub fn sync_start(last_synced: u64) -> (r: u64)
    ensures
        r == if last_synced == u64::MAX { u64::MAX as int } else { last_synced + 1 },
{
    if last_synced == u64::MAX {
        u64::MAX
    } else {
        last_synced + 1
    }
}

} // verus!
