//! The epoch detector: maps blocks of the protocol chain to epochs and tells
//! when a new epoch has begun.

use vstd::prelude::*;

verus! {

/// Why the epoch of a block cannot be told.
#[derive(Copy, Clone, Debug, PartialEq, Eq)]
pub enum EpochTrackerError {
    /// Epochs of no blocks: the configured duration is zero.
    ZeroEpochDuration,
}

/// The epoch that the block `block` falls in, with epochs of `epoch_duration`
/// blocks.
pub open spec fn epoch_of(block: u64, epoch_duration: u64) -> int
    recommends
        epoch_duration > 0,
{
    block as int / epoch_duration as int
}

/// Remembers the last epoch that was observed.
#[derive(Copy, Clone, Debug, PartialEq, Eq)]
pub struct EpochTracker {
    pub epoch_duration: u64,
    pub last_observed: u64,
}

impl EpochTracker {
    /// A tracker that starts from the subgraph's last epoch, or from epoch
    /// zero where the subgraph knows none.
    pub fn new(epoch_duration: u64, last_known_epoch: Option<u64>) -> (tracker: Self)
        ensures
            tracker.epoch_duration == epoch_duration,
            tracker.last_observed == match last_known_epoch {
                Some(epoch) => epoch,
                None => 0,
            },
    {
        let last_observed = match last_known_epoch {
            Some(epoch) => epoch,
            None => 0,
        };
        EpochTracker { epoch_duration, last_observed }
    }

    /// The epoch of `block`.
    pub fn epoch(&self, block: u64) -> (r: Result<u64, EpochTrackerError>)
        ensures
            self.epoch_duration == 0 ==> r == Err::<u64, EpochTrackerError>(
                EpochTrackerError::ZeroEpochDuration,
            ),
            self.epoch_duration > 0 ==> r is Ok && r.unwrap() == epoch_of(
                block,
                self.epoch_duration,
            ),
    {
        if self.epoch_duration == 0 {
            return Err(EpochTrackerError::ZeroEpochDuration);
        }
        Ok(block / self.epoch_duration)
    }

    /// `true` when `block` lies in a later epoch than the last one observed,
    /// which then becomes that epoch; else nothing changes.
    pub fn is_new_epoch(&mut self, block: u64) -> (r: Result<bool, EpochTrackerError>)
        ensures
            final(self).epoch_duration == old(self).epoch_duration,
            old(self).epoch_duration == 0 ==> r == Err::<bool, EpochTrackerError>(
                EpochTrackerError::ZeroEpochDuration,
            ) && final(self).last_observed == old(self).last_observed,
            old(self).epoch_duration > 0 ==> r is Ok && (*final(self), r.unwrap()) == observed(
                *old(self),
                block,
            ),
    {
        match self.epoch(block) {
            Ok(epoch) => {
                if epoch > self.last_observed {
                    self.last_observed = epoch;
                    Ok(true)
                } else {
                    Ok(false)
                }
            },
            Err(e) => Err(e),
        }
    }
}

/// The tracker after it was asked about `block`, and its answer.
pub open spec fn observed(tracker: EpochTracker, block: u64) -> (EpochTracker, bool)
    recommends
        tracker.epoch_duration > 0,
{
    if epoch_of(block, tracker.epoch_duration) > tracker.last_observed {
        (
            EpochTracker {
                epoch_duration: tracker.epoch_duration,
                last_observed: epoch_of(block, tracker.epoch_duration) as u64,
            },
            true,
        )
    } else {
        (tracker, false)
    }
}

/// An epoch is reported once: after the tracker was asked about a block, it
/// says no to every block that is not of a later epoch than that one, the
/// same block among them, and it never goes back to an earlier epoch.
pub proof fn lemma_new_epoch_reported_once(tracker: EpochTracker, block: u64, other: u64)
    requires
        tracker.epoch_duration > 0,
        epoch_of(other, tracker.epoch_duration) <= epoch_of(block, tracker.epoch_duration),
    ensures
        !observed(observed(tracker, block).0, other).1,
        !observed(observed(tracker, block).0, block).1,
        observed(tracker, block).0.last_observed >= tracker.last_observed,
        observed(tracker, block).0.last_observed >= epoch_of(block, tracker.epoch_duration),
{
    assert(epoch_of(block, tracker.epoch_duration) <= block) by (nonlinear_arith)
        requires
            tracker.epoch_duration > 0,
    ;
}

} // verus!
