//! The values that the configuration takes where the file gives none.

use vstd::prelude::*;

verus! {

/// Blocks of the protocol chain per epoch.
pub fn epoch_duration() -> (blocks: u64)
    ensures
        blocks == 6_646,
{
    6_646
}

/// Seconds between two polling iterations.
pub fn protocol_chain_polling_interval_in_seconds() -> (seconds: u64)
    ensures
        seconds == 120,
{
    120
}

/// The longest wait, in seconds, between two tries of one call.
pub fn web3_transport_retry_max_wait_time_in_seconds() -> (seconds: u64)
    ensures
        seconds == 60,
{
    60
}

/// The gap, in blocks, between the subgraph and the chain head up to which the
/// blocks between are scanned before the subgraph is taken for stale.
pub fn freshness_threshold() -> (blocks: u64)
    ensures
        blocks == 10,
{
    10
}

/// Seconds between two looks at a transaction that awaits confirmation.
pub fn transaction_confirmation_poll_interval_in_seconds() -> (seconds: u64)
    ensures
        seconds == 5,
{
    5
}

/// Confirmations awaited for a transaction.
pub fn transaction_confirmation_count() -> (count: usize)
    ensures
        count == 0,
{
    0
}

} // verus!
