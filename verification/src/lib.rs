//! Incremental per-contract usage statistics and daily rollups over an
//! ordered stream of blocks.
//!
//! The library classifies calls as probable contract interactions, folds a
//! block's qualifying calls into per-address cumulative records against a
//! snapshot of previously persisted state, and aggregates the updated
//! records into per-day statistics. All persistence is left to the caller;
//! the functions here are pure transformations over plain values.
use vstd::prelude::*;

pub mod hexenc;
pub mod model;
pub mod records;
pub mod classify;
pub mod aggregate;
pub mod daily;
pub mod keys;
pub mod laws;

verus! {

/// Cap on the number of wallet addresses kept per contract record. The
/// `unique_wallets` counter keeps counting past this cap; only the stored
/// sample list stops growing.
pub const MAX_WALLETS_PER_CONTRACT: usize = 100;

/// Number of blocks after its first observed interaction during which a
/// contract is still reported as "new".
pub const NEW_CONTRACT_WINDOW: u64 = 1000;

/// Length of a day bucket in seconds; block timestamps are truncated to
/// multiples of this value.
pub const SECONDS_PER_DAY: u64 = 86400;

/// The UTC day bucket of a timestamp: seconds since epoch truncated to a
/// day boundary.
pub open spec fn day_of_spec(ts: u64) -> u64 {
    ((ts as int / SECONDS_PER_DAY as int) * SECONDS_PER_DAY as int) as u64
}

/// Truncates a block timestamp to the start of its UTC day.
pub fn day_of(ts: u64) -> (day: u64)
    ensures
        day == day_of_spec(ts),
        day <= ts,
{
    (ts / SECONDS_PER_DAY) * SECONDS_PER_DAY
}

} // verus!
