//! The messages that the oracle sends, in their logical and compressed forms.

use vstd::prelude::*;

verus! {

/// The position of a network in the registry.
pub type NetworkIndex = u64;

/// A digest or a block hash.
pub type Bytes32 = [u8; 32];

/// A block of some chain: its height and its hash.
#[derive(Copy, Clone, PartialEq, Eq, Hash, Debug)]
pub struct BlockPtr {
    pub number: u64,
    pub hash: Bytes32,
}

impl BlockPtr {
    /// The block with this height and this hash.
    pub fn new(number: u64, hash: Bytes32) -> (ptr: Self)
        ensures
            ptr.number == number,
            ptr.hash == hash,
    {
        BlockPtr { number, hash }
    }
}

/// What a correction records for one network.
#[derive(Copy, Clone, Debug, PartialEq, Eq)]
pub struct EpochDetails {
    pub tx_hash: Bytes32,
    pub merkle_root: Bytes32,
}

/// `true` when the entries are keyed by strictly ascending network indices.
pub open spec fn ascending_indices(entries: Seq<(NetworkIndex, EpochDetails)>) -> bool {
    forall|i: int, j: int| 0 <= i < j < entries.len() ==> entries[i].0 < entries[j].0
}

/// `true` when no chain name occurs twice among the entries.
pub open spec fn distinct_names<T>(entries: Seq<(Seq<char>, T)>) -> bool {
    forall|i: int, j: int| 0 <= i < j < entries.len() ==> entries[i].0 != entries[j].0
}

/// The entries of `s` with each name as a sequence of characters.
pub open spec fn named<T>(s: Seq<(String, T)>) -> Seq<(Seq<char>, T)> {
    Seq::new(s.len(), |i: int| (s[i].0@, s[i].1))
}

/// The first components of the pairs of `s`.
pub open spec fn firsts<A, B>(s: Seq<(A, B)>) -> Seq<A> {
    Seq::new(s.len(), |i: int| s[i].0)
}

/// The second components of the pairs of `s`.
pub open spec fn seconds<A, B>(s: Seq<(A, B)>) -> Seq<B> {
    Seq::new(s.len(), |i: int| s[i].1)
}

/// The names of `s` as sequences of characters.
pub open spec fn names_of(s: Seq<String>) -> Seq<Seq<char>> {
    Seq::new(s.len(), |i: int| s[i]@)
}

/// A logical message as a mathematical value.
pub enum MessageView {
    SetBlockNumbersForNextEpoch { blocks: Seq<(Seq<char>, BlockPtr)> },
    RegisterNetworks { remove: Seq<NetworkIndex>, add: Seq<Seq<char>> },
    CorrectEpochs { entries: Seq<(NetworkIndex, EpochDetails)> },
    UpdateVersion { version_number: u64 },
    ChangeOwnership { new_owner_address: Seq<u8> },
    Reset,
}

/// A message as the oracle composes it.
#[derive(Debug, Clone)]
pub enum Message {
    /// The latest block of each chain, keyed by chain name; no name occurs
    /// twice.
    SetBlockNumbersForNextEpoch(Vec<(String, BlockPtr)>),
    RegisterNetworks {
        /// Networks to remove, by index.
        remove: Vec<NetworkIndex>,
        /// Networks to add, by name.
        add: Vec<String>,
    },
    /// Corrections keyed by network index, in ascending order of the index.
    CorrectEpochs { data_by_network_id: Vec<(NetworkIndex, EpochDetails)> },
    UpdateVersion { version_number: u64 },
    ChangeOwnership { new_owner_address: [u8; 20] },
    Reset,
}

impl View for Message {
    type V = MessageView;

    open spec fn view(&self) -> MessageView {
        match self {
            Message::SetBlockNumbersForNextEpoch(blocks) => MessageView::SetBlockNumbersForNextEpoch {
                blocks: named(blocks@),
            },
            Message::RegisterNetworks { remove, add } => MessageView::RegisterNetworks {
                remove: remove@,
                add: names_of(add@),
            },
            Message::CorrectEpochs { data_by_network_id } => MessageView::CorrectEpochs {
                entries: data_by_network_id@,
            },
            Message::UpdateVersion { version_number } => MessageView::UpdateVersion {
                version_number: *version_number,
            },
            Message::ChangeOwnership { new_owner_address } => MessageView::ChangeOwnership {
                new_owner_address: new_owner_address@,
            },
            Message::Reset => MessageView::Reset,
        }
    }
}

/// The messages of `s` as mathematical values.
pub open spec fn message_views(s: Seq<Message>) -> Seq<MessageView> {
    Seq::new(s.len(), |i: int| s[i]@)
}

impl MessageView {
    /// The validity of a message: block numbers name each chain once, and
    /// corrections are in ascending order of the network index.
    pub open spec fn wf(self) -> bool {
        match self {
            MessageView::SetBlockNumbersForNextEpoch { blocks } => distinct_names(blocks),
            MessageView::CorrectEpochs { entries } => ascending_indices(entries),
            _ => true,
        }
    }
}

/// The block numbers of one epoch as they go on the wire.
#[derive(Clone, Debug, PartialEq, Eq)]
pub enum CompressedSetBlockNumbersForNextEpoch {
    /// A run of epochs with no network registered.
    Empty { count: u64 },
    /// One acceleration per registered network, in registry order, and the
    /// Merkle root over the networks' blocks.
    NonEmpty { accelerations: Vec<i64>, root: Bytes32 },
}

/// A message as it goes on the wire.
#[derive(Clone, Debug, PartialEq, Eq)]
pub enum CompressedMessage {
    SetBlockNumbersForNextEpoch(CompressedSetBlockNumbersForNextEpoch),
    /// Corrections keyed by network index, in ascending order of the index.
    CorrectEpochs { data_by_network_id: Vec<(NetworkIndex, EpochDetails)> },
    RegisterNetworks { remove: Vec<u64>, add: Vec<String> },
    UpdateVersion { version_number: u64 },
    ChangeOwnership { new_owner_address: [u8; 20] },
    Reset,
}

/// A compressed message as a mathematical value: what goes on the wire depends
/// on this alone.
pub enum CompressedView {
    Empty { count: u64 },
    NonEmpty { accelerations: Seq<i64>, root: Seq<u8> },
    CorrectEpochs { entries: Seq<(NetworkIndex, EpochDetails)> },
    RegisterNetworks { remove: Seq<u64>, add: Seq<Seq<char>> },
    UpdateVersion { version_number: u64 },
    ChangeOwnership { new_owner_address: Seq<u8> },
    Reset,
}

/// The messages of `s` as mathematical values.
pub open spec fn views_of(s: Seq<CompressedMessage>) -> Seq<CompressedView> {
    Seq::new(s.len(), |i: int| s[i]@)
}

impl View for CompressedSetBlockNumbersForNextEpoch {
    type V = CompressedView;

    open spec fn view(&self) -> CompressedView {
        match self {
            CompressedSetBlockNumbersForNextEpoch::Empty { count } => CompressedView::Empty {
                count: *count,
            },
            CompressedSetBlockNumbersForNextEpoch::NonEmpty {
                accelerations,
                root,
            } => CompressedView::NonEmpty { accelerations: accelerations@, root: root@ },
        }
    }
}

impl View for CompressedMessage {
    type V = CompressedView;

    open spec fn view(&self) -> CompressedView {
        match self {
            CompressedMessage::SetBlockNumbersForNextEpoch(numbers) => numbers@,
            CompressedMessage::CorrectEpochs { data_by_network_id } => CompressedView::CorrectEpochs {
                entries: data_by_network_id@,
            },
            CompressedMessage::RegisterNetworks { remove, add } => CompressedView::RegisterNetworks {
                remove: remove@,
                add: names_of(add@),
            },
            CompressedMessage::UpdateVersion { version_number } => CompressedView::UpdateVersion {
                version_number: *version_number,
            },
            CompressedMessage::ChangeOwnership {
                new_owner_address,
            } => CompressedView::ChangeOwnership { new_owner_address: new_owner_address@ },
            CompressedMessage::Reset => CompressedView::Reset,
        }
    }
}

impl CompressedView {
    /// The validity of a compressed message: corrections are in ascending order
    /// of the network index.
    pub open spec fn wf(self) -> bool {
        match self {
            CompressedView::CorrectEpochs { entries } => ascending_indices(entries),
            _ => true,
        }
    }
}

impl CompressedMessage {
    /// The accelerations and the root, where the message carries the block
    /// numbers of a non-empty registry.
    pub fn as_non_empty_block_numbers(&self) -> (r: Option<(&[i64], Bytes32)>)
        ensures
            match r {
                Some((accelerations, root)) => self@ == (CompressedView::NonEmpty {
                    accelerations: accelerations@,
                    root: root@,
                }),
                None => !(self@ is NonEmpty),
            },
    {
        match self {
            CompressedMessage::SetBlockNumbersForNextEpoch(
                CompressedSetBlockNumbersForNextEpoch::NonEmpty { accelerations, root },
            ) => Some((accelerations.as_slice(), *root)),
            _ => None,
        }
    }
}

} // verus!
