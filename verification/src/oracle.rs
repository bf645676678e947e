//! One polling cycle of the oracle: what it asks of the outside world, in
//! which order, and what it makes of the answers.

use vstd::prelude::*;
use crate::compressor::{
    compress_messages, CompressionError, Encoder, Network, CURRENT_ENCODING_VERSION,
};
use crate::encoding::messages_encoding;
use crate::epoch_tracker::{epoch_of, EpochTracker, EpochTrackerError};
use crate::error_handling::OracleError;
use crate::freshness::{freshness_of, subgraph_is_fresh, Freshness};
use crate::messages::{
    firsts, message_views, named, names_of, BlockPtr, Message, MessageView,
};
use crate::networks_diff::{
    deletions_of, diff_message, insertions_of, networks_diff_to_message, NetworksDiff,
};

verus! {

/// What the subgraph knows of one network.
#[derive(Clone, Debug, PartialEq, Eq)]
pub struct SubgraphNetwork {
    pub id: String,
    pub latest_block_number: u64,
    pub delta: i64,
}

/// What the subgraph answers: how far it has indexed the protocol chain, and
/// the registry of networks in the order of their indices.
#[derive(Clone, Debug, PartialEq, Eq)]
pub struct SubgraphData {
    pub latest_indexed_block: u64,
    pub networks: Vec<SubgraphNetwork>,
}

/// The registry that the subgraph's networks make up.
pub open spec fn registry_of(networks: Seq<SubgraphNetwork>) -> Seq<(Seq<char>, Network)> {
    Seq::new(
        networks.len(),
        |i: int|
            (
                networks[i].id@,
                Network {
                    block_number: networks[i].latest_block_number,
                    block_delta: networks[i].delta,
                },
            ),
    )
}

/// The entries of `blocks` whose chain is among `configured`, in their order.
pub open spec fn configured_only(
    blocks: Seq<(Seq<char>, BlockPtr)>,
    configured: Seq<Seq<char>>,
) -> Seq<(Seq<char>, BlockPtr)>
    decreases blocks.len(),
{
    if blocks.len() == 0 {
        Seq::empty()
    } else if configured.contains(blocks.last().0) {
        configured_only(blocks.drop_last(), configured).push(blocks.last())
    } else {
        configured_only(blocks.drop_last(), configured)
    }
}

/// The messages of one cycle: the registry change that brings the registry to
/// the configured chains, where one is due, then the latest blocks of the
/// configured chains.
pub open spec fn cycle_messages(
    registered: Seq<Seq<char>>,
    configured: Seq<Seq<char>>,
    blocks: Seq<(Seq<char>, BlockPtr)>,
) -> Seq<MessageView> {
    let numbers = MessageView::SetBlockNumbersForNextEpoch {
        blocks: configured_only(blocks, configured),
    };
    match diff_message(
        deletions_of(registered, configured),
        insertions_of(registered, configured),
    ) {
        Some(change) => seq![change, numbers],
        None => seq![numbers],
    }
}

/// The payload of one cycle: its messages, compressed against the registry
/// and written out.
pub open spec fn next_payload(
    registry: Seq<(Seq<char>, Network)>,
    configured: Seq<Seq<char>>,
    blocks: Seq<(Seq<char>, BlockPtr)>,
) -> Result<Seq<u8>, CompressionError> {
    match compress_messages(registry, cycle_messages(firsts(registry), configured, blocks)) {
        Ok((_, out)) => Ok(messages_encoding(out)),
        Err(e) => Err(e),
    }
}

/// The registry as the subgraph last gave it; empty where it gave none.
pub fn registered_networks(state: Option<&SubgraphData>) -> (registry: Vec<(String, Network)>)
    ensures
        named(registry@) == match state {
            Some(data) => registry_of(data.networks@),
            None => Seq::empty(),
        },
{
    let mut registry: Vec<(String, Network)> = Vec::new();
    match state {
        Some(data) => {
            let mut i: usize = 0;
            while i < data.networks.len()
                invariant
                    i <= data.networks.len(),
                    named(registry@) == registry_of(data.networks@).take(i as int),
                decreases data.networks.len() - i,
            {
                let network = &data.networks[i];
                let ghost before = named(registry@);
                registry.push(
                    (
                        network.id.clone(),
                        Network {
                            block_number: network.latest_block_number,
                            block_delta: network.delta,
                        },
                    ),
                );
                assert(named(registry@) =~= before.push(registry_of(data.networks@)[i as int]));
                i += 1;
                assert(named(registry@) =~= registry_of(data.networks@).take(i as int));
            }
            assert(registry_of(data.networks@).take(data.networks.len() as int) =~= registry_of(
                data.networks@,
            ));
        },
        None => {
            assert(named(registry@) =~= Seq::empty());
        },
    }
    registry
}

/// The message that carries the latest blocks.
pub fn latest_blocks_to_message(latest_blocks: Vec<(String, BlockPtr)>) -> (message: Message)
    ensures
        message@ == (MessageView::SetBlockNumbersForNextEpoch { blocks: named(latest_blocks@) }),
{
    Message::SetBlockNumbersForNextEpoch(latest_blocks)
}

fn is_configured(configured: &Vec<String>, name: &String) -> (r: bool)
    ensures
        r == names_of(configured@).contains(name@),
{
    let mut j: usize = 0;
    while j < configured.len()
        invariant
            j <= configured.len(),
            forall|k: int| 0 <= k < j ==> names_of(configured@)[k] != name@,
        decreases configured.len() - j,
    {
        if configured[j] == *name {
            assert(names_of(configured@)[j as int] == name@);
            return true;
        }
        j += 1;
    }
    false
}

fn blocks_of_configured(latest_blocks: &Vec<(String, BlockPtr)>, configured: &Vec<String>) -> (kept:
    Vec<(String, BlockPtr)>)
    ensures
        named(kept@) == configured_only(named(latest_blocks@), names_of(configured@)),
{
    let mut kept: Vec<(String, BlockPtr)> = Vec::new();
    let mut i: usize = 0;
    while i < latest_blocks.len()
        invariant
            i <= latest_blocks.len(),
            named(kept@) == configured_only(
                named(latest_blocks@).take(i as int),
                names_of(configured@),
            ),
        decreases latest_blocks.len() - i,
    {
        assert(named(latest_blocks@).take(i + 1).drop_last() =~= named(latest_blocks@).take(
            i as int,
        ));
        let ghost before = named(kept@);
        if is_configured(configured, &latest_blocks[i].0) {
            kept.push((latest_blocks[i].0.clone(), latest_blocks[i].1));
            assert(named(kept@) =~= before.push(named(latest_blocks@)[i as int]));
        }
        i += 1;
    }
    assert(named(latest_blocks@).take(latest_blocks.len() as int) =~= named(latest_blocks@));
    kept
}

fn names_of_registry(registry: &Vec<(String, Network)>) -> (names: Vec<String>)
    ensures
        names_of(names@) == firsts(named(registry@)),
{
    let mut names: Vec<String> = Vec::new();
    let mut i: usize = 0;
    while i < registry.len()
        invariant
            i <= registry.len(),
            names_of(names@) == firsts(named(registry@)).take(i as int),
        decreases registry.len() - i,
    {
        let ghost before = names_of(names@);
        names.push(registry[i].0.clone());
        assert(names_of(names@) =~= before.push(registry@[i as int].0@));
        assert(firsts(named(registry@))[i as int] == registry@[i as int].0@);
        i += 1;
        assert(names_of(names@) =~= firsts(named(registry@)).take(i as int));
    }
    assert(firsts(named(registry@)).take(registry.len() as int) =~= firsts(named(registry@)));
    names
}

/// The payload of the next transaction: the registry change that is due, if
/// any, and the latest blocks of the configured chains, compressed against
/// the registry as the subgraph gave it.
pub fn produce_next_payload(
    configured: &Vec<String>,
    registered: Vec<(String, Network)>,
    latest_blocks: &Vec<(String, BlockPtr)>,
) -> (r: Result<Vec<u8>, OracleError>)
    ensures
        match next_payload(named(registered@), names_of(configured@), named(latest_blocks@)) {
            Ok(bytes) => r is Ok && r.unwrap()@ == bytes,
            Err(e) => r == Err::<Vec<u8>, OracleError>(OracleError::Encoding(e)),
        },
{
    let names = names_of_registry(&registered);
    let mut messages: Vec<Message> = Vec::new();
    let networks_diff = NetworksDiff::calculate(&names, configured);
    if let Some(msg) = networks_diff_to_message(&networks_diff) {
        messages.push(msg);
    }
    messages.push(latest_blocks_to_message(blocks_of_configured(latest_blocks, configured)));
    assert(message_views(messages@) =~= cycle_messages(
        firsts(named(registered@)),
        names_of(configured@),
        named(latest_blocks@),
    ));
    let mut compression_engine = match Encoder::new(CURRENT_ENCODING_VERSION, registered) {
        Ok(engine) => engine,
        Err(e) => {
            return Err(OracleError::Encoding(e));
        },
    };
    match compression_engine.encode(messages.as_slice()) {
        Ok(encoded) => Ok(encoded),
        Err(e) => Err(OracleError::Encoding(e)),
    }
}

/// Where a polling cycle stands: what the oracle waits for.
#[derive(Copy, Clone, Debug, PartialEq, Eq)]
pub enum Phase {
    /// Between two cycles.
    Idle,
    /// The subgraph was asked for its state.
    AwaitingSubgraph,
    /// The protocol chain was asked for its head.
    AwaitingHead,
    /// The blocks between the subgraph and the head `head` are being scanned
    /// for calls from the owner to the contract.
    AwaitingTraces { head: u64 },
    /// The indexed chains were asked for their latest blocks.
    AwaitingBlocks,
    /// The payload was handed out for submission.
    AwaitingSubmission,
}

/// What the outside world reports to the oracle.
#[derive(Clone, Debug)]
pub enum Event {
    /// A polling iteration begins.
    Start,
    /// The subgraph was asked: its state, or `None` where that failed.
    SubgraphRefreshed(Option<SubgraphData>),
    /// The protocol chain was asked for its head: the block number, or `None`
    /// where the call failed.
    ProtocolChainHead(Option<u64>),
    /// The scan ended: the number of calls found, or `None` where it failed.
    Traces(Option<usize>),
    /// The latest blocks of the indexed chains that answered.
    LatestBlocks(Vec<(String, BlockPtr)>),
    /// The submission ended: `true` where the transaction was accepted.
    Submitted(bool),
}

/// What the oracle asks of the outside world next.
#[derive(Debug, PartialEq, Eq)]
pub enum Action {
    RefreshSubgraph,
    FetchProtocolChainHead,
    /// Look for calls from the owner to the contract in the blocks
    /// `from_block` to `to_block`, both included.
    ScanTraces { from_block: u64, to_block: u64 },
    FetchLatestBlocks,
    /// Submit the payload in a signed call of the contract.
    SubmitPayload(Vec<u8>),
    /// The cycle is over, with this outcome.
    Finish(Result<(), OracleError>),
    /// The event was not awaited; nothing changed.
    Ignored,
}

/// An event as a mathematical value.
pub enum EventView {
    Start,
    SubgraphRefreshed(Option<(u64, Seq<(Seq<char>, Network)>)>),
    ProtocolChainHead(Option<u64>),
    Traces(Option<usize>),
    LatestBlocks(Seq<(Seq<char>, BlockPtr)>),
    Submitted(bool),
}

/// An action as a mathematical value.
pub enum ActionView {
    RefreshSubgraph,
    FetchProtocolChainHead,
    ScanTraces { from_block: u64, to_block: u64 },
    FetchLatestBlocks,
    SubmitPayload(Seq<u8>),
    Finish(Result<(), OracleError>),
    Ignored,
}

impl View for Event {
    type V = EventView;

    open spec fn view(&self) -> EventView {
        match self {
            Event::Start => EventView::Start,
            Event::SubgraphRefreshed(state) => EventView::SubgraphRefreshed(
                match state {
                    Some(data) => Some((data.latest_indexed_block, registry_of(data.networks@))),
                    None => None,
                },
            ),
            Event::ProtocolChainHead(head) => EventView::ProtocolChainHead(*head),
            Event::Traces(calls) => EventView::Traces(*calls),
            Event::LatestBlocks(blocks) => EventView::LatestBlocks(named(blocks@)),
            Event::Submitted(accepted) => EventView::Submitted(*accepted),
        }
    }
}

impl View for Action {
    type V = ActionView;

    open spec fn view(&self) -> ActionView {
        match self {
            Action::RefreshSubgraph => ActionView::RefreshSubgraph,
            Action::FetchProtocolChainHead => ActionView::FetchProtocolChainHead,
            Action::ScanTraces { from_block, to_block } => ActionView::ScanTraces {
                from_block: *from_block,
                to_block: *to_block,
            },
            Action::FetchLatestBlocks => ActionView::FetchLatestBlocks,
            Action::SubmitPayload(payload) => ActionView::SubmitPayload(payload@),
            Action::Finish(outcome) => ActionView::Finish(*outcome),
            Action::Ignored => ActionView::Ignored,
        }
    }
}

/// The oracle's state between two steps of a cycle.
#[derive(Clone, Debug)]
pub struct Oracle {
    /// The chains that the configuration names.
    pub configured: Vec<String>,
    pub freshness_threshold: u64,
    pub epoch_tracker: EpochTracker,
    pub phase: Phase,
    /// The registry as the subgraph gave it in this cycle.
    pub registered: Vec<(String, Network)>,
    /// How far the subgraph had indexed the protocol chain in this cycle.
    pub subgraph_latest_block: u64,
}

/// The oracle's state as a mathematical value.
pub struct OracleView {
    pub configured: Seq<Seq<char>>,
    pub freshness_threshold: u64,
    pub epoch_tracker: EpochTracker,
    pub phase: Phase,
    pub registered: Seq<(Seq<char>, Network)>,
    pub subgraph_latest_block: u64,
}

impl View for Oracle {
    type V = OracleView;

    open spec fn view(&self) -> OracleView {
        OracleView {
            configured: names_of(self.configured@),
            freshness_threshold: self.freshness_threshold,
            epoch_tracker: self.epoch_tracker,
            phase: self.phase,
            registered: named(self.registered@),
            subgraph_latest_block: self.subgraph_latest_block,
        }
    }
}

/// The cycle ends with `outcome`.
pub open spec fn finished(o: OracleView, outcome: Result<(), OracleError>) -> (
    OracleView,
    ActionView,
) {
    (OracleView { phase: Phase::Idle, ..o }, ActionView::Finish(outcome))
}

/// The step once the subgraph is known to be fresh at the head `head`: where
/// the head lies in a new epoch, the epoch is recorded and the latest blocks
/// are asked for; else the cycle ends.
pub open spec fn epoch_step(o: OracleView, head: u64) -> (OracleView, ActionView) {
    if o.epoch_tracker.epoch_duration == 0 {
        finished(o, Err(OracleError::EpochTracker(EpochTrackerError::ZeroEpochDuration)))
    } else if epoch_of(head, o.epoch_tracker.epoch_duration) > o.epoch_tracker.last_observed {
        (
            OracleView {
                phase: Phase::AwaitingBlocks,
                epoch_tracker: EpochTracker {
                    epoch_duration: o.epoch_tracker.epoch_duration,
                    last_observed: epoch_of(head, o.epoch_tracker.epoch_duration) as u64,
                },
                ..o
            },
            ActionView::FetchLatestBlocks,
        )
    } else {
        finished(o, Ok(()))
    }
}

/// One step of the cycle: the state after the event, and what to do next.
///
/// A cycle asks the subgraph for its state, then the protocol chain for its
/// head, judges the subgraph's freshness, by a scan where the block numbers
/// do not decide, and ends unless the head lies in a new epoch. In a new epoch
/// it asks for the latest blocks, makes the payload and hands it out for
/// submission. A failure on the way ends the cycle with its error.
pub open spec fn step_of(o: OracleView, event: EventView) -> (OracleView, ActionView) {
    match (o.phase, event) {
        (Phase::Idle, EventView::Start) => (
            OracleView { phase: Phase::AwaitingSubgraph, ..o },
            ActionView::RefreshSubgraph,
        ),
        (Phase::AwaitingSubgraph, EventView::SubgraphRefreshed(None)) => finished(
            o,
            Err(OracleError::Subgraph),
        ),
        (Phase::AwaitingSubgraph, EventView::SubgraphRefreshed(Some((latest, registry)))) => (
            OracleView {
                phase: Phase::AwaitingHead,
                registered: registry,
                subgraph_latest_block: latest,
                ..o
            },
            ActionView::FetchProtocolChainHead,
        ),
        (Phase::AwaitingHead, EventView::ProtocolChainHead(None)) => finished(
            o,
            Err(OracleError::BadJrpcProtocolChain),
        ),
        (Phase::AwaitingHead, EventView::ProtocolChainHead(Some(head))) => match freshness_of(
            o.subgraph_latest_block,
            head,
            o.freshness_threshold,
        ) {
            Freshness::Fresh => epoch_step(o, head),
            Freshness::NotFresh => finished(o, Err(OracleError::SubgraphNotFresh)),
            Freshness::Undecided { from_block, to_block } => (
                OracleView { phase: Phase::AwaitingTraces { head }, ..o },
                ActionView::ScanTraces { from_block, to_block },
            ),
        },
        (Phase::AwaitingTraces { head }, EventView::Traces(None)) => finished(
            o,
            Err(OracleError::BadJrpcProtocolChain),
        ),
        (Phase::AwaitingTraces { head }, EventView::Traces(Some(calls))) => if calls == 0 {
            epoch_step(o, head)
        } else {
            finished(o, Err(OracleError::SubgraphNotFresh))
        },
        (Phase::AwaitingBlocks, EventView::LatestBlocks(blocks)) => match next_payload(
            o.registered,
            o.configured,
            blocks,
        ) {
            Ok(payload) => (
                OracleView { phase: Phase::AwaitingSubmission, registered: Seq::empty(), ..o },
                ActionView::SubmitPayload(payload),
            ),
            Err(e) => finished(
                OracleView { registered: Seq::empty(), ..o },
                Err(OracleError::Encoding(e)),
            ),
        },
        (Phase::AwaitingSubmission, EventView::Submitted(accepted)) => finished(
            o,
            if accepted {
                Ok(())
            } else {
                Err(OracleError::CantSubmitTx)
            },
        ),
        _ => (o, ActionView::Ignored),
    }
}

impl Oracle {
    /// An oracle between two cycles, for the configured chains, that has
    /// observed the epochs up to `last_known_epoch`.
    pub fn new(
        configured: Vec<String>,
        epoch_duration: u64,
        freshness_threshold: u64,
        last_known_epoch: Option<u64>,
    ) -> (oracle: Self)
        ensures
            oracle.configured == configured,
            oracle.freshness_threshold == freshness_threshold,
            oracle.epoch_tracker.epoch_duration == epoch_duration,
            oracle.epoch_tracker.last_observed == match last_known_epoch {
                Some(epoch) => epoch,
                None => 0,
            },
            oracle.phase == Phase::Idle,
            oracle.registered@.len() == 0,
            oracle.subgraph_latest_block == 0,
    {
        Oracle {
            configured,
            freshness_threshold,
            epoch_tracker: EpochTracker::new(epoch_duration, last_known_epoch),
            phase: Phase::Idle,
            registered: Vec::new(),
            subgraph_latest_block: 0,
        }
    }

    fn finish(&mut self, outcome: Result<(), OracleError>) -> (action: Action)
        ensures
            (final(self)@, action@) == finished(old(self)@, outcome),
    {
        self.phase = Phase::Idle;
        Action::Finish(outcome)
    }

    fn detect_new_epoch(&mut self, head: u64) -> (action: Action)
        ensures
            (final(self)@, action@) == epoch_step(old(self)@, head),
    {
        match self.epoch_tracker.is_new_epoch(head) {
            Ok(true) => {
                self.phase = Phase::AwaitingBlocks;
                Action::FetchLatestBlocks
            },
            Ok(false) => self.finish(Ok(())),
            Err(e) => self.finish(Err(OracleError::EpochTracker(e))),
        }
    }

    fn handle_new_epoch(&mut self, latest_blocks: Vec<(String, BlockPtr)>) -> (action: Action)
        requires
            old(self).phase == Phase::AwaitingBlocks,
        ensures
            (final(self)@, action@) == step_of(
                old(self)@,
                EventView::LatestBlocks(named(latest_blocks@)),
            ),
    {
        let mut registered: Vec<(String, Network)> = Vec::new();
        std::mem::swap(&mut self.registered, &mut registered);
        assert(named(self.registered@) =~= Seq::empty());
        match produce_next_payload(&self.configured, registered, &latest_blocks) {
            Ok(payload) => {
                self.phase = Phase::AwaitingSubmission;
                Action::SubmitPayload(payload)
            },
            Err(e) => {
                assert(e == OracleError::Encoding(
                    next_payload(
                        old(self)@.registered,
                        old(self)@.configured,
                        named(latest_blocks@),
                    )->Err_0,
                ));
                self.finish(Err(e))
            },
        }
    }

    /// Takes one event and says what to do next.
    pub fn step(&mut self, event: Event) -> (action: Action)
        ensures
            (final(self)@, action@) == step_of(old(self)@, event@),
    {
        match self.phase {
            Phase::Idle => match event {
                Event::Start => {
                    self.phase = Phase::AwaitingSubgraph;
                    Action::RefreshSubgraph
                },
                _ => Action::Ignored,
            },
            Phase::AwaitingSubgraph => match event {
                Event::SubgraphRefreshed(None) => self.finish(Err(OracleError::Subgraph)),
                Event::SubgraphRefreshed(Some(data)) => {
                    self.registered = registered_networks(Some(&data));
                    self.subgraph_latest_block = data.latest_indexed_block;
                    self.phase = Phase::AwaitingHead;
                    Action::FetchProtocolChainHead
                },
                _ => Action::Ignored,
            },
            Phase::AwaitingHead => match event {
                Event::ProtocolChainHead(None) => self.finish(
                    Err(OracleError::BadJrpcProtocolChain),
                ),
                Event::ProtocolChainHead(Some(head)) => match subgraph_is_fresh(
                    self.subgraph_latest_block,
                    head,
                    self.freshness_threshold,
                ) {
                    Freshness::Fresh => self.detect_new_epoch(head),
                    Freshness::NotFresh => self.finish(Err(OracleError::SubgraphNotFresh)),
                    Freshness::Undecided { from_block, to_block } => {
                        self.phase = Phase::AwaitingTraces { head };
                        Action::ScanTraces { from_block, to_block }
                    },
                },
                _ => Action::Ignored,
            },
            Phase::AwaitingTraces { head } => match event {
                Event::Traces(None) => self.finish(Err(OracleError::BadJrpcProtocolChain)),
                Event::Traces(Some(calls)) => {
                    if calls == 0 {
                        self.detect_new_epoch(head)
                    } else {
                        self.finish(Err(OracleError::SubgraphNotFresh))
                    }
                },
                _ => Action::Ignored,
            },
            Phase::AwaitingBlocks => match event {
                Event::LatestBlocks(latest_blocks) => self.handle_new_epoch(latest_blocks),
                _ => Action::Ignored,
            },
            Phase::AwaitingSubmission => match event {
                Event::Submitted(true) => self.finish(Ok(())),
                Event::Submitted(false) => self.finish(Err(OracleError::CantSubmitTx)),
                _ => Action::Ignored,
            },
        }
    }
}

} // verus!
