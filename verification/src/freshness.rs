//! The freshness check: has the subgraph caught up with the head of the
//! protocol chain?

use vstd::prelude::*;

verus! {

/// What the block numbers alone say of the subgraph's freshness.
#[derive(Copy, Clone, Debug, PartialEq, Eq)]
pub enum Freshness {
    /// The subgraph has caught up.
    Fresh,
    /// The subgraph is further behind than the threshold allows.
    NotFresh,
    /// The subgraph is a few blocks behind: it is fresh if no call from the
    /// owner reached the contract in the blocks `from_block` to `to_block`,
    /// both included.
    Undecided { from_block: u64, to_block: u64 },
}

/// The verdict of the block numbers: fresh where the subgraph is at the head
/// or beyond it, not fresh where it is more than `threshold` blocks behind,
/// and undecided between, over the blocks behind the subgraph's up to the
/// head.
pub open spec fn freshness_of(subgraph_latest_block: u64, current_block: u64, threshold: u64)
    -> Freshness {
    if subgraph_latest_block >= current_block {
        Freshness::Fresh
    } else if current_block - subgraph_latest_block > threshold {
        Freshness::NotFresh
    } else {
        Freshness::Undecided {
            from_block: (subgraph_latest_block + 1) as u64,
            to_block: current_block,
        }
    }
}

/// The whole verdict, given the number of calls from the owner to the
/// contract that a scan of the undecided blocks found.
pub open spec fn is_fresh(
    subgraph_latest_block: u64,
    current_block: u64,
    threshold: u64,
    calls: nat,
) -> bool {
    match freshness_of(subgraph_latest_block, current_block, threshold) {
        Freshness::Fresh => true,
        Freshness::NotFresh => false,
        Freshness::Undecided { .. } => calls == 0,
    }
}

/// Judges the subgraph's freshness by the block numbers, and says which
/// blocks to scan where they do not decide.
pub fn subgraph_is_fresh(
    subgraph_latest_block: u64,
    current_block: u64,
    freshness_threshold: u64,
) -> (verdict: Freshness)
    ensures
        verdict == freshness_of(subgraph_latest_block, current_block, freshness_threshold),
{
    if subgraph_latest_block > current_block {
        return Freshness::Fresh;
    }
    let block_distance = current_block - subgraph_latest_block;
    if block_distance == 0 {
        Freshness::Fresh
    } else if block_distance > freshness_threshold {
        Freshness::NotFresh
    } else {
        Freshness::Undecided { from_block: subgraph_latest_block + 1, to_block: current_block }
    }
}

impl Freshness {
    /// `true` where a scan has to decide.
    pub fn needs_scan(&self) -> (r: bool)
        ensures
            r == (*self is Undecided),
    {
        match self {
            Freshness::Undecided { .. } => true,
            _ => false,
        }
    }

    /// The verdict once the scan, where one was needed, has found `calls`
    /// calls: an undecided subgraph is fresh if and only if there was none.
    pub fn resolve(&self, calls: usize) -> (fresh: bool)
        ensures
            fresh == match *self {
                Freshness::Fresh => true,
                Freshness::NotFresh => false,
                Freshness::Undecided { .. } => calls == 0,
            },
    {
        match self {
            Freshness::Fresh => true,
            Freshness::NotFresh => false,
            Freshness::Undecided { .. } => calls == 0,
        }
    }
}

/// The boundaries of the check: no gap is fresh; a gap within the threshold is
/// fresh if and only if the scan finds no call, and the scan covers exactly
/// the blocks of the gap; a wider gap is not fresh, whatever a scan would
/// find.
pub proof fn lemma_freshness_boundary(
    subgraph_latest_block: u64,
    current_block: u64,
    threshold: u64,
    calls: nat,
)
    requires
        subgraph_latest_block <= current_block,
    ensures
        current_block - subgraph_latest_block == 0 ==> is_fresh(
            subgraph_latest_block,
            current_block,
            threshold,
            calls,
        ),
        1 <= current_block - subgraph_latest_block <= threshold ==> (is_fresh(
            subgraph_latest_block,
            current_block,
            threshold,
            calls,
        ) <==> calls == 0) && freshness_of(subgraph_latest_block, current_block, threshold)
            == (Freshness::Undecided {
            from_block: (subgraph_latest_block + 1) as u64,
            to_block: current_block,
        }),
        current_block - subgraph_latest_block > threshold ==> !is_fresh(
            subgraph_latest_block,
            current_block,
            threshold,
            calls,
        ) && freshness_of(subgraph_latest_block, current_block, threshold) == Freshness::NotFresh,
{
}

} // verus!
