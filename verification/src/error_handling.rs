//! What the polling loop does after an error: stop, or go on, at once or
//! after a pause.

use vstd::prelude::*;
use crate::compressor::CompressionError;
use crate::epoch_tracker::EpochTrackerError;

verus! {

/// Seconds to wait before the subgraph is asked again after it was found
/// stale.
pub const NOT_FRESH_COOL_OFF_SECONDS: u64 = 30;

/// The instruction to the polling loop.
#[derive(Copy, Clone, Debug, PartialEq, Eq)]
pub enum OracleControlFlow {
    /// Leave the loop.
    Break,
    /// Go on with the next iteration, after the given seconds where some are
    /// given.
    Continue(Option<u64>),
}

/// The errors of a polling iteration, by kind.
#[derive(Clone, Debug, PartialEq, Eq)]
pub enum OracleError {
    /// The configuration could not be read or is not valid.
    BadConfig,
    /// The subgraph could not be queried, or was never reached.
    Subgraph,
    /// The subgraph has not indexed all relevant transactions yet.
    SubgraphNotFresh,
    /// A call to the protocol chain failed.
    BadJrpcProtocolChain,
    /// The latest block of an indexed chain could not be had.
    BadJrpcIndexedChain { chain_id: String },
    /// The epoch of a block could not be told.
    EpochTracker(EpochTrackerError),
    /// The transaction could not be submitted.
    CantSubmitTx,
    /// The messages could not be compressed.
    Encoding(CompressionError),
}

/// The policy for each kind of error: a bad configuration and a failed
/// compression end the loop, a stale subgraph is asked again after a pause,
/// everything else waits for the next iteration.
pub open spec fn instruction_for(error: OracleError) -> OracleControlFlow {
    match error {
        OracleError::BadConfig => OracleControlFlow::Break,
        OracleError::Encoding(_) => OracleControlFlow::Break,
        OracleError::SubgraphNotFresh => OracleControlFlow::Continue(Some(NOT_FRESH_COOL_OFF_SECONDS)),
        OracleError::Subgraph => OracleControlFlow::Continue(None),
        OracleError::BadJrpcProtocolChain => OracleControlFlow::Continue(None),
        OracleError::BadJrpcIndexedChain { .. } => OracleControlFlow::Continue(None),
        OracleError::EpochTracker(_) => OracleControlFlow::Continue(None),
        OracleError::CantSubmitTx => OracleControlFlow::Continue(None),
    }
}

impl OracleError {
    /// What the loop does after this error.
    pub fn instruction(&self) -> (flow: OracleControlFlow)
        ensures
            flow == instruction_for(*self),
    {
        match self {
            OracleError::BadConfig => OracleControlFlow::Break,
            OracleError::Encoding(_) => OracleControlFlow::Break,
            OracleError::SubgraphNotFresh => OracleControlFlow::Continue(
                Some(NOT_FRESH_COOL_OFF_SECONDS),
            ),
            OracleError::Subgraph => OracleControlFlow::Continue(None),
            OracleError::BadJrpcProtocolChain => OracleControlFlow::Continue(None),
            OracleError::BadJrpcIndexedChain { .. } => OracleControlFlow::Continue(None),
            OracleError::EpochTracker(_) => OracleControlFlow::Continue(None),
            OracleError::CantSubmitTx => OracleControlFlow::Continue(None),
        }
    }
}

/// The errors of the emitter, by kind.
#[derive(Copy, Clone, Debug, PartialEq, Eq)]
pub enum EmitterError {
    /// The signed transaction could not be broadcast.
    BroadcastTransaction,
}

impl EmitterError {
    /// What the loop does after this error: it goes on with the next
    /// iteration.
    pub fn instruction(&self) -> (flow: OracleControlFlow)
        ensures
            flow == OracleControlFlow::Continue(None),
    {
        match self {
            EmitterError::BroadcastTransaction => OracleControlFlow::Continue(None),
        }
    }
}

/// After an error the loop either ends with that error or cools off: gives the
/// seconds to wait on top of the usual pause, none where the policy names
/// none.
pub fn handle_error(err: OracleError) -> (r: Result<u64, OracleError>)
    ensures
        match instruction_for(err) {
            OracleControlFlow::Break => r == Err::<u64, OracleError>(err),
            OracleControlFlow::Continue(Some(seconds)) => r == Ok::<u64, OracleError>(seconds),
            OracleControlFlow::Continue(None) => r == Ok::<u64, OracleError>(0),
        },
{
    match err.instruction() {
        OracleControlFlow::Break => Err(err),
        OracleControlFlow::Continue(wait) => match wait {
            Some(seconds) => Ok(seconds),
            None => Ok(0),
        },
    }
}

} // verus!
