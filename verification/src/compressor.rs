//! The compressor: turns logical messages into compressed ones against the
//! registry of networks, which it keeps up to date as it goes.

use vstd::prelude::*;
use vstd::seq_lib::seq_to_set_is_finite;
use vstd::set_lib::lemma_subset_equality;
use vstd::utf8::encode_utf8;
use crate::encoding::{encode_messages, messages_encoding, push_all};
use crate::merkle::{digests, keccak256, keccak256_of, merkle_root, merkle_root_of};
use crate::messages::{
    distinct_names, firsts, message_views, named, names_of, views_of, BlockPtr, Bytes32, CompressedMessage,
    CompressedSetBlockNumbersForNextEpoch, CompressedView, EpochDetails, Message, MessageView,
    NetworkIndex,
};
use crate::varint::{be_bytes, push_be_bytes};

verus! {

/// The version of the encoding that this library writes.
pub const CURRENT_ENCODING_VERSION: u64 = 0;

/// What the registry records of a network: the block number of the last epoch
/// and its difference from the epoch before.
#[derive(Copy, Clone, Debug, PartialEq, Eq)]
pub struct Network {
    pub block_number: u64,
    pub block_delta: i64,
}

/// Why a list of messages cannot be compressed.
#[derive(Copy, Clone, Debug, PartialEq, Eq)]
pub enum CompressionError {
    /// The encoder was asked for a version of the encoding that it does not
    /// write.
    UnsupportedEncodingVersion(u64),
    /// The block numbers do not name exactly the networks of the registry.
    NetworkMismatch,
    /// A block number is so far from the last that the difference, or its
    /// change, does not fit in 64 bits.
    BlockNumberOutOfRange,
}

/// The block that `blocks` gives for the chain `name`.
pub open spec fn lookup(blocks: Seq<(Seq<char>, BlockPtr)>, name: Seq<char>) -> Option<BlockPtr>
    decreases blocks.len(),
{
    if blocks.len() == 0 {
        None
    } else if blocks[0].0 == name {
        Some(blocks[0].1)
    } else {
        lookup(blocks.drop_first(), name)
    }
}

/// `true` when `blocks` has as many entries as the registry has networks and
/// one for each of them.
pub open spec fn names_match(
    registry: Seq<(Seq<char>, Network)>,
    blocks: Seq<(Seq<char>, BlockPtr)>,
) -> bool {
    &&& blocks.len() == registry.len()
    &&& forall|i: int|
        #![trigger registry[i]]
        0 <= i < registry.len() ==> lookup(blocks, registry[i].0) is Some
}

/// The block that `blocks` gives for the network at `i`.
pub open spec fn latest(
    registry: Seq<(Seq<char>, Network)>,
    blocks: Seq<(Seq<char>, BlockPtr)>,
    i: int,
) -> BlockPtr {
    lookup(blocks, registry[i].0).unwrap()
}

/// The first difference: how far `number` is from the network's last block
/// number.
pub open spec fn delta_of(network: Network, number: u64) -> int {
    number - network.block_number
}

/// The second difference: how far the new delta is from the last.
pub open spec fn acceleration_of(network: Network, number: u64) -> int {
    number - network.block_number - network.block_delta
}

/// `true` when `x` is a signed number of 64 bits.
pub open spec fn fits_i64(x: int) -> bool {
    i64::MIN <= x <= i64::MAX
}

/// `true` when the delta and the acceleration of every network fit in 64
/// bits.
pub open spec fn in_range(
    registry: Seq<(Seq<char>, Network)>,
    blocks: Seq<(Seq<char>, BlockPtr)>,
) -> bool {
    forall|i: int|
        #![trigger registry[i]]
        0 <= i < registry.len() ==> fits_i64(
            delta_of(registry[i].1, latest(registry, blocks, i).number),
        ) && fits_i64(acceleration_of(registry[i].1, latest(registry, blocks, i).number))
}

/// The registry after the epoch: each network at its new block number, with
/// the delta that led there.
pub open spec fn advanced(
    registry: Seq<(Seq<char>, Network)>,
    blocks: Seq<(Seq<char>, BlockPtr)>,
) -> Seq<(Seq<char>, Network)> {
    Seq::new(
        registry.len(),
        |i: int|
            (
                registry[i].0,
                Network {
                    block_number: latest(registry, blocks, i).number,
                    block_delta: delta_of(registry[i].1, latest(registry, blocks, i).number) as i64,
                },
            ),
    )
}

/// The accelerations of the networks, in registry order.
pub open spec fn accelerations_of(
    registry: Seq<(Seq<char>, Network)>,
    blocks: Seq<(Seq<char>, BlockPtr)>,
) -> Seq<i64> {
    Seq::new(
        registry.len(),
        |i: int| acceleration_of(registry[i].1, latest(registry, blocks, i).number) as i64,
    )
}

/// The Merkle leaf of a network: the digest of its name, its block number in
/// eight bytes, most significant first, and its block hash.
pub open spec fn leaf_of(name: Seq<char>, block: BlockPtr) -> Seq<u8> {
    keccak256_of(encode_utf8(name) + be_bytes(block.number as nat, 8) + block.hash@)
}

/// The Merkle leaves of the networks, in registry order.
pub open spec fn leaves_of(
    registry: Seq<(Seq<char>, Network)>,
    blocks: Seq<(Seq<char>, BlockPtr)>,
) -> Seq<Seq<u8>> {
    Seq::new(registry.len(), |i: int| leaf_of(registry[i].0, latest(registry, blocks, i)))
}

/// What the block numbers of one epoch do: with no network registered, an
/// empty run of one epoch; else they must name the registry's networks, each
/// network moves to its new block, and the accelerations go out with the
/// Merkle root over the networks' blocks.
pub open spec fn set_block_numbers(
    registry: Seq<(Seq<char>, Network)>,
    blocks: Seq<(Seq<char>, BlockPtr)>,
) -> Result<(Seq<(Seq<char>, Network)>, CompressedView), CompressionError> {
    if registry.len() == 0 {
        Ok((registry, CompressedView::Empty { count: 1 }))
    } else if !names_match(registry, blocks) {
        Err(CompressionError::NetworkMismatch)
    } else if !in_range(registry, blocks) {
        Err(CompressionError::BlockNumberOutOfRange)
    } else {
        Ok(
            (
                advanced(registry, blocks),
                CompressedView::NonEmpty {
                    accelerations: accelerations_of(registry, blocks),
                    root: merkle_root_of(leaves_of(registry, blocks)),
                },
            ),
        )
    }
}

/// The networks of the registry whose index is not in `remove`, in their
/// order.
pub open spec fn remaining(registry: Seq<(Seq<char>, Network)>, remove: Seq<u64>) -> Seq<
    (Seq<char>, Network),
>
    decreases registry.len(),
{
    if registry.len() == 0 {
        Seq::empty()
    } else if remove.contains((registry.len() - 1) as u64) {
        remaining(registry.drop_last(), remove)
    } else {
        remaining(registry.drop_last(), remove).push(registry.last())
    }
}

/// The networks registered under the names of `add`, at block zero.
pub open spec fn fresh(add: Seq<Seq<char>>) -> Seq<(Seq<char>, Network)> {
    Seq::new(add.len(), |i: int| (add[i], Network { block_number: 0, block_delta: 0 }))
}

/// The registry after a change: without the networks at the indices of
/// `remove`, which count in the registry as it stood, and with those of `add`
/// behind the rest.
pub open spec fn register_networks(
    registry: Seq<(Seq<char>, Network)>,
    remove: Seq<u64>,
    add: Seq<Seq<char>>,
) -> Seq<(Seq<char>, Network)> {
    remaining(registry, remove) + fresh(add)
}

/// What one message does to the registry, and what goes out for it: nothing
/// for a registry change that changes nothing, one compressed message else.
pub open spec fn compress_message(
    registry: Seq<(Seq<char>, Network)>,
    message: MessageView,
) -> Result<(Seq<(Seq<char>, Network)>, Seq<CompressedView>), CompressionError> {
    match message {
        MessageView::SetBlockNumbersForNextEpoch { blocks } => match set_block_numbers(
            registry,
            blocks,
        ) {
            Ok((next, out)) => Ok((next, seq![out])),
            Err(e) => Err(e),
        },
        MessageView::RegisterNetworks { remove, add } => if remove.len() == 0 && add.len() == 0 {
            Ok((registry, Seq::empty()))
        } else {
            Ok(
                (
                    register_networks(registry, remove, add),
                    seq![CompressedView::RegisterNetworks { remove, add }],
                ),
            )
        },
        MessageView::CorrectEpochs { entries } => Ok(
            (registry, seq![CompressedView::CorrectEpochs { entries }]),
        ),
        MessageView::UpdateVersion { version_number } => Ok(
            (registry, seq![CompressedView::UpdateVersion { version_number }]),
        ),
        MessageView::ChangeOwnership { new_owner_address } => Ok(
            (registry, seq![CompressedView::ChangeOwnership { new_owner_address }]),
        ),
        MessageView::Reset => Ok((registry, seq![CompressedView::Reset])),
    }
}

/// `result` with `out` in front of what it puts out.
pub open spec fn preceded_by(
    out: Seq<CompressedView>,
    result: Result<(Seq<(Seq<char>, Network)>, Seq<CompressedView>), CompressionError>,
) -> Result<(Seq<(Seq<char>, Network)>, Seq<CompressedView>), CompressionError> {
    match result {
        Ok((registry, more)) => Ok((registry, out + more)),
        Err(e) => Err(e),
    }
}

/// What a list of messages does, one message after the other, each against
/// the registry that the one before it left: the registry at the end and all
/// that went out, or the first error.
pub open spec fn compress_messages(
    registry: Seq<(Seq<char>, Network)>,
    messages: Seq<MessageView>,
) -> Result<(Seq<(Seq<char>, Network)>, Seq<CompressedView>), CompressionError>
    decreases messages.len(),
{
    if messages.len() == 0 {
        Ok((registry, Seq::empty()))
    } else {
        match compress_message(registry, messages[0]) {
            Ok((next, out)) => preceded_by(out, compress_messages(next, messages.drop_first())),
            Err(e) => Err(e),
        }
    }
}

/// After the block numbers of an epoch, each network stands at its last block
/// number plus its last delta plus the acceleration that went out, and its
/// delta is the distance from the last block number to the new one.
pub proof fn lemma_acceleration_identity(
    registry: Seq<(Seq<char>, Network)>,
    blocks: Seq<(Seq<char>, BlockPtr)>,
    i: int,
)
    requires
        registry.len() > 0,
        set_block_numbers(registry, blocks) is Ok,
        0 <= i < registry.len(),
    ensures
        set_block_numbers(registry, blocks).unwrap().1 is NonEmpty,
        ({
            let next = set_block_numbers(registry, blocks).unwrap().0;
            let accelerations = set_block_numbers(registry, blocks).unwrap().1->accelerations;
            &&& next.len() == registry.len()
            &&& accelerations.len() == registry.len()
            &&& next[i].0 == registry[i].0
            &&& next[i].1.block_number == registry[i].1.block_number + registry[i].1.block_delta
                + accelerations[i]
            &&& next[i].1.block_delta == next[i].1.block_number - registry[i].1.block_number
            &&& lookup(blocks, registry[i].0) is Some
            &&& next[i].1.block_number == lookup(blocks, registry[i].0).unwrap().number
        }),
{
    assert(fits_i64(delta_of(registry[i].1, latest(registry, blocks, i).number)));
}

/// `blocks` gives a block for a chain if and only if it has an entry of that
/// name.
pub proof fn lemma_lookup_finds_names(blocks: Seq<(Seq<char>, BlockPtr)>, name: Seq<char>)
    ensures
        lookup(blocks, name) is Some <==> firsts(blocks).contains(name),
    decreases blocks.len(),
{
    if blocks.len() > 0 {
        let rest = blocks.drop_first();
        lemma_lookup_finds_names(rest, name);
        if firsts(rest).contains(name) {
            let j = choose|j: int| 0 <= j < firsts(rest).len() && firsts(rest)[j] == name;
            assert(firsts(blocks)[j + 1] == name);
        }
        if blocks[0].0 == name {
            assert(firsts(blocks)[0] == name);
        }
        if firsts(blocks).contains(name) && blocks[0].0 != name {
            let j = choose|j: int| 0 <= j < firsts(blocks).len() && firsts(blocks)[j] == name;
            assert(firsts(rest)[j - 1] == name);
        }
    }
}

/// Block numbers match the registry only where they name exactly its
/// networks: with no name twice on either side, block numbers that match have
/// no entry for a chain that is not registered, and none is missing.
pub proof fn lemma_match_is_exact(
    registry: Seq<(Seq<char>, Network)>,
    blocks: Seq<(Seq<char>, BlockPtr)>,
)
    requires
        distinct_names(registry),
        distinct_names(blocks),
        names_match(registry, blocks),
    ensures
        firsts(blocks).to_set() == firsts(registry).to_set(),
        forall|j: int|
            0 <= j < blocks.len() ==> firsts(registry).contains(#[trigger] blocks[j].0),
        forall|i: int|
            0 <= i < registry.len() ==> firsts(blocks).contains(#[trigger] registry[i].0),
{
    let registered = firsts(registry);
    let given = firsts(blocks);
    assert(registered.no_duplicates());
    assert(given.no_duplicates());
    registered.unique_seq_to_set();
    given.unique_seq_to_set();
    seq_to_set_is_finite(registered);
    seq_to_set_is_finite(given);
    assert forall|name: Seq<char>| registered.to_set().contains(name) implies given.to_set().contains(
        name,
    ) by {
        let i = choose|i: int| 0 <= i < registered.len() && registered[i] == name;
        assert(lookup(blocks, registry[i].0) is Some);
        lemma_lookup_finds_names(blocks, name);
    }
    lemma_subset_equality(registered.to_set(), given.to_set());
    assert forall|j: int| 0 <= j < blocks.len() implies firsts(registry).contains(
        #[trigger] blocks[j].0,
    ) by {
        assert(given[j] == blocks[j].0);
        assert(given.to_set().contains(blocks[j].0));
    }
    assert forall|i: int| 0 <= i < registry.len() implies firsts(blocks).contains(
        #[trigger] registry[i].0,
    ) by {
        assert(registered[i] == registry[i].0);
        assert(registered.to_set().contains(registry[i].0));
    }
}

/// What goes out for a valid message is valid: corrections stay in ascending
/// order of the network index.
pub proof fn lemma_compressed_is_valid(registry: Seq<(Seq<char>, Network)>, message: MessageView)
    requires
        message.wf(),
        compress_message(registry, message) is Ok,
    ensures
        forall|k: int|
            0 <= k < compress_message(registry, message).unwrap().1.len() ==> (
            #[trigger] compress_message(registry, message).unwrap().1[k]).wf(),
{
}

fn find_block(blocks: &Vec<(String, BlockPtr)>, name: &String) -> (r: Option<BlockPtr>)
    ensures
        r == lookup(named(blocks@), name@),
{
    let mut j: usize = 0;
    assert(named(blocks@).skip(0) =~= named(blocks@));
    while j < blocks.len()
        invariant
            j <= blocks.len(),
            lookup(named(blocks@), name@) == lookup(named(blocks@).skip(j as int), name@),
        decreases blocks.len() - j,
    {
        assert(named(blocks@).skip(j as int).drop_first() =~= named(blocks@).skip(j + 1));
        if blocks[j].0 == *name {
            return Some(blocks[j].1);
        }
        j += 1;
    }
    None
}

fn copy_registry(registry: &Vec<(String, Network)>) -> (copy: Vec<(String, Network)>)
    ensures
        copy@ == registry@,
{
    let mut copy: Vec<(String, Network)> = Vec::new();
    let mut i: usize = 0;
    while i < registry.len()
        invariant
            i <= registry.len(),
            copy@ == registry@.take(i as int),
        decreases registry.len() - i,
    {
        copy.push((registry[i].0.clone(), registry[i].1));
        i += 1;
        assert(copy@ =~= registry@.take(i as int));
    }
    assert(registry@.take(registry.len() as int) =~= registry@);
    copy
}

fn copy_names(names: &Vec<String>) -> (copy: Vec<String>)
    ensures
        copy@ == names@,
{
    let mut copy: Vec<String> = Vec::new();
    let mut i: usize = 0;
    while i < names.len()
        invariant
            i <= names.len(),
            copy@ == names@.take(i as int),
        decreases names.len() - i,
    {
        copy.push(names[i].clone());
        i += 1;
        assert(copy@ =~= names@.take(i as int));
    }
    assert(names@.take(names.len() as int) =~= names@);
    copy
}

fn copy_indices(indices: &Vec<NetworkIndex>) -> (copy: Vec<NetworkIndex>)
    ensures
        copy@ == indices@,
{
    let mut copy: Vec<NetworkIndex> = Vec::new();
    let mut i: usize = 0;
    while i < indices.len()
        invariant
            i <= indices.len(),
            copy@ == indices@.take(i as int),
        decreases indices.len() - i,
    {
        copy.push(indices[i]);
        i += 1;
        assert(copy@ =~= indices@.take(i as int));
    }
    assert(indices@.take(indices.len() as int) =~= indices@);
    copy
}

fn copy_corrections(entries: &Vec<(NetworkIndex, EpochDetails)>) -> (copy: Vec<
    (NetworkIndex, EpochDetails),
>)
    ensures
        copy@ == entries@,
{
    let mut copy: Vec<(NetworkIndex, EpochDetails)> = Vec::new();
    let mut i: usize = 0;
    while i < entries.len()
        invariant
            i <= entries.len(),
            copy@ == entries@.take(i as int),
        decreases entries.len() - i,
    {
        copy.push((entries[i].0, entries[i].1));
        i += 1;
        assert(copy@ =~= entries@.take(i as int));
    }
    assert(entries@.take(entries.len() as int) =~= entries@);
    copy
}

fn is_removed(remove: &Vec<NetworkIndex>, index: u64) -> (r: bool)
    ensures
        r == remove@.contains(index),
{
    let mut j: usize = 0;
    while j < remove.len()
        invariant
            j <= remove.len(),
            forall|k: int| 0 <= k < j ==> remove@[k] != index,
        decreases remove.len() - j,
    {
        if remove[j] == index {
            return true;
        }
        j += 1;
    }
    false
}

/// The registry after a change: the networks at the indices of `remove`
/// leave, the others keep their order, and the names of `add` come behind
/// them at block zero.
pub fn apply_register_networks(
    registry: &Vec<(String, Network)>,
    remove: &Vec<NetworkIndex>,
    add: &Vec<String>,
) -> (next: Vec<(String, Network)>)
    ensures
        named(next@) == register_networks(named(registry@), remove@, names_of(add@)),
{
    let mut next: Vec<(String, Network)> = Vec::new();
    let mut i: usize = 0;
    while i < registry.len()
        invariant
            i <= registry.len(),
            named(next@) == remaining(named(registry@).take(i as int), remove@),
        decreases registry.len() - i,
    {
        assert(named(registry@).take(i + 1).drop_last() =~= named(registry@).take(i as int));
        let ghost before = named(next@);
        if !is_removed(remove, i as u64) {
            next.push((registry[i].0.clone(), registry[i].1));
            assert(named(next@) =~= before.push(named(registry@)[i as int]));
        }
        i += 1;
    }
    assert(named(registry@).take(registry.len() as int) =~= named(registry@));
    let ghost kept = named(next@);
    let mut j: usize = 0;
    while j < add.len()
        invariant
            j <= add.len(),
            named(next@) == kept + fresh(names_of(add@)).take(j as int),
        decreases add.len() - j,
    {
        let ghost before = named(next@);
        next.push((add[j].clone(), Network { block_number: 0, block_delta: 0 }));
        assert(named(next@) =~= before.push(fresh(names_of(add@))[j as int]));
        j += 1;
        assert(named(next@) =~= kept + fresh(names_of(add@)).take(j as int));
    }
    assert(fresh(names_of(add@)).take(add.len() as int) =~= fresh(names_of(add@)));
    next
}

fn leaf(name: &String, block: &BlockPtr) -> (digest: Bytes32)
    ensures
        digest@ == leaf_of(name@, *block),
{
    let mut data: Vec<u8> = Vec::new();
    push_all(&mut data, name.as_str().as_bytes());
    push_be_bytes(block.number, 8, &mut data);
    push_all(&mut data, block.hash.as_slice());
    assert(data@ =~= encode_utf8(name@) + be_bytes(block.number as nat, 8) + block.hash@);
    keccak256(data.as_slice())
}

/// Compresses the block numbers of one epoch: the registry after the epoch
/// and the message that goes out, or why there is none.
pub fn compress_block_numbers(
    registry: &Vec<(String, Network)>,
    blocks: &Vec<(String, BlockPtr)>,
) -> (r: Result<(Vec<(String, Network)>, CompressedSetBlockNumbersForNextEpoch), CompressionError>)
    ensures
        match set_block_numbers(named(registry@), named(blocks@)) {
            Ok((next, out)) => r is Ok && named(r.unwrap().0@) == next && r.unwrap().1@ == out,
            Err(e) => r == Err::<
                (Vec<(String, Network)>, CompressedSetBlockNumbersForNextEpoch),
                CompressionError,
            >(e),
        },
{
    if registry.len() == 0 {
        let next: Vec<(String, Network)> = Vec::new();
        assert(named(next@) =~= named(registry@));
        return Ok((next, CompressedSetBlockNumbersForNextEpoch::Empty { count: 1 }));
    }
    if blocks.len() != registry.len() {
        return Err(CompressionError::NetworkMismatch);
    }
    let mut found: Vec<BlockPtr> = Vec::new();
    let mut k: usize = 0;
    while k < registry.len()
        invariant
            k <= registry.len(),
            found@.len() == k,
            forall|i: int|
                #![trigger named(registry@)[i]]
                0 <= i < k ==> lookup(named(blocks@), named(registry@)[i].0) == Some(found@[i]),
        decreases registry.len() - k,
    {
        match find_block(blocks, &registry[k].0) {
            Some(block) => {
                found.push(block);
            },
            None => {
                assert(lookup(named(blocks@), named(registry@)[k as int].0) is None);
                return Err(CompressionError::NetworkMismatch);
            },
        }
        k += 1;
    }
    assert(names_match(named(registry@), named(blocks@)));
    let mut next: Vec<(String, Network)> = Vec::new();
    let mut accelerations: Vec<i64> = Vec::new();
    let mut leaves: Vec<Bytes32> = Vec::new();
    let mut i: usize = 0;
    while i < registry.len()
        invariant
            i <= registry.len(),
            found@.len() == registry@.len(),
            names_match(named(registry@), named(blocks@)),
            forall|j: int|
                #![trigger named(registry@)[j]]
                0 <= j < registry@.len() ==> lookup(named(blocks@), named(registry@)[j].0) == Some(
                    found@[j],
                ),
            forall|j: int|
                #![trigger named(registry@)[j]]
                0 <= j < i ==> fits_i64(
                    delta_of(
                        named(registry@)[j].1,
                        latest(named(registry@), named(blocks@), j).number,
                    ),
                ) && fits_i64(
                    acceleration_of(
                        named(registry@)[j].1,
                        latest(named(registry@), named(blocks@), j).number,
                    ),
                ),
            next@.len() == i,
            accelerations@.len() == i,
            leaves@.len() == i,
            forall|j: int|
                0 <= j < i ==> named(next@)[j] == advanced(named(registry@), named(blocks@))[j],
            forall|j: int|
                0 <= j < i ==> accelerations@[j] == accelerations_of(
                    named(registry@),
                    named(blocks@),
                )[j],
            forall|j: int|
                0 <= j < i ==> leaves@[j]@ == leaves_of(named(registry@), named(blocks@))[j],
        decreases registry.len() - i,
    {
        let network = registry[i].1;
        let block = found[i];
        assert(lookup(named(blocks@), named(registry@)[i as int].0) == Some(block));
        let delta: i128 = block.number as i128 - network.block_number as i128;
        let acceleration: i128 = delta - network.block_delta as i128;
        if delta < i64::MIN as i128 || delta > i64::MAX as i128 || acceleration < i64::MIN as i128
            || acceleration > i64::MAX as i128 {
            assert(!(fits_i64(
                delta_of(
                    named(registry@)[i as int].1,
                    latest(named(registry@), named(blocks@), i as int).number,
                ),
            ) && fits_i64(
                acceleration_of(
                    named(registry@)[i as int].1,
                    latest(named(registry@), named(blocks@), i as int).number,
                ),
            )));
            return Err(CompressionError::BlockNumberOutOfRange);
        }
        let ghost before = named(next@);
        next.push(
            (
                registry[i].0.clone(),
                Network { block_number: block.number, block_delta: delta as i64 },
            ),
        );
        assert(named(next@) =~= before.push(
            advanced(named(registry@), named(blocks@))[i as int],
        ));
        accelerations.push(acceleration as i64);
        leaves.push(leaf(&registry[i].0, &block));
        i += 1;
    }
    assert(in_range(named(registry@), named(blocks@)));
    assert(named(next@) =~= advanced(named(registry@), named(blocks@)));
    assert(accelerations@ =~= accelerations_of(named(registry@), named(blocks@)));
    assert(digests(leaves@) =~= leaves_of(named(registry@), named(blocks@)));
    let root = merkle_root(leaves);
    Ok((next, CompressedSetBlockNumbersForNextEpoch::NonEmpty { accelerations, root }))
}

/// Compresses one message: applies it to `networks` and appends to
/// `compressed` what goes out for it. Where the message cannot be compressed,
/// both stay as they were.
pub fn compress_one(
    networks: &mut Vec<(String, Network)>,
    message: &Message,
    compressed: &mut Vec<CompressedMessage>,
) -> (r: Result<(), CompressionError>)
    ensures
        match compress_message(named(old(networks)@), message@) {
            Ok((next, out)) => r is Ok && named(final(networks)@) == next && views_of(
                final(compressed)@,
            ) == views_of(old(compressed)@) + out,
            Err(e) => r == Err::<(), CompressionError>(e) && final(networks)@ == old(networks)@
                && final(compressed)@ == old(compressed)@,
        },
{
    match message {
        Message::SetBlockNumbersForNextEpoch(blocks) => {
            match compress_block_numbers(networks, blocks) {
                Ok((next, out)) => {
                    *networks = next;
                    compressed.push(CompressedMessage::SetBlockNumbersForNextEpoch(out));
                },
                Err(e) => {
                    return Err(e);
                },
            }
        },
        Message::RegisterNetworks { remove, add } => {
            if remove.len() != 0 || add.len() != 0 {
                let next = apply_register_networks(networks, remove, add);
                *networks = next;
                compressed.push(
                    CompressedMessage::RegisterNetworks {
                        remove: copy_indices(remove),
                        add: copy_names(add),
                    },
                );
            }
        },
        Message::CorrectEpochs { data_by_network_id } => {
            compressed.push(
                CompressedMessage::CorrectEpochs {
                    data_by_network_id: copy_corrections(data_by_network_id),
                },
            );
        },
        Message::UpdateVersion { version_number } => {
            compressed.push(CompressedMessage::UpdateVersion { version_number: *version_number });
        },
        Message::ChangeOwnership { new_owner_address } => {
            compressed.push(
                CompressedMessage::ChangeOwnership { new_owner_address: *new_owner_address },
            );
        },
        Message::Reset => {
            compressed.push(CompressedMessage::Reset);
        },
    }
    proof {
        let out = compress_message(named(old(networks)@), message@).unwrap().1;
        assert(views_of(compressed@) =~= views_of(old(compressed)@) + out);
    }
    Ok(())
}

/// The compression engine: the registry of networks, in the subgraph's order.
#[derive(Debug)]
pub struct Encoder {
    pub networks: Vec<(String, Network)>,
}

impl Encoder {
    /// An encoder for the given version of the encoding over the given
    /// registry; only the current version is written.
    pub fn new(encoding_version: u64, networks: Vec<(String, Network)>) -> (r: Result<
        Self,
        CompressionError,
    >)
        ensures
            encoding_version == CURRENT_ENCODING_VERSION ==> r is Ok && r.unwrap().networks
                == networks,
            encoding_version != CURRENT_ENCODING_VERSION ==> r is Err && r->Err_0
                == CompressionError::UnsupportedEncodingVersion(encoding_version),
    {
        if encoding_version != CURRENT_ENCODING_VERSION {
            return Err(CompressionError::UnsupportedEncodingVersion(encoding_version));
        }
        Ok(Encoder { networks })
    }

    /// Compresses `messages` in their order and leaves the registry as they
    /// leave it. Where one of them cannot be compressed, nothing goes out and
    /// the registry stays as it was.
    pub fn compress(&mut self, messages: &[Message]) -> (r: Result<
        Vec<CompressedMessage>,
        CompressionError,
    >)
        ensures
            match compress_messages(named(old(self).networks@), message_views(messages@)) {
                Ok((next, out)) => r is Ok && named(final(self).networks@) == next && views_of(
                    r.unwrap()@,
                ) == out,
                Err(e) => r == Err::<Vec<CompressedMessage>, CompressionError>(e)
                    && final(self).networks@ == old(self).networks@,
            },
    {
        let mut networks = copy_registry(&self.networks);
        let mut compressed: Vec<CompressedMessage> = Vec::new();
        let mut i: usize = 0;
        assert(message_views(messages@).skip(0) =~= message_views(messages@));
        assert(views_of(compressed@) + Seq::<CompressedView>::empty() =~= views_of(compressed@));
        while i < messages.len()
            invariant
                i <= messages.len(),
                self.networks@ == old(self).networks@,
                compress_messages(named(old(self).networks@), message_views(messages@))
                    == preceded_by(
                    views_of(compressed@),
                    compress_messages(named(networks@), message_views(messages@).skip(i as int)),
                ),
            decreases messages.len() - i,
        {
            let ghost before = views_of(compressed@);
            let ghost registry = named(networks@);
            let ghost rest = message_views(messages@).skip(i as int);
            assert(rest.drop_first() =~= message_views(messages@).skip(i + 1));
            match compress_one(&mut networks, &messages[i], &mut compressed) {
                Ok(()) => {
                    proof {
                        let step = compress_message(registry, rest[0]).unwrap();
                        let tail = compress_messages(step.0, rest.drop_first());
                        if tail is Ok {
                            assert(before + (step.1 + tail.unwrap().1) =~= (before + step.1)
                                + tail.unwrap().1);
                        }
                    }
                },
                Err(e) => {
                    return Err(e);
                },
            }
            i += 1;
        }
        proof {
            assert(views_of(compressed@) + Seq::<CompressedView>::empty() =~= views_of(
                compressed@,
            ));
        }
        self.networks = networks;
        Ok(compressed)
    }

    /// Compresses `messages` and writes what goes out as one payload. Where
    /// one of them cannot be compressed, the registry stays as it was.
    pub fn encode(&mut self, messages: &[Message]) -> (r: Result<Vec<u8>, CompressionError>)
        ensures
            match compress_messages(named(old(self).networks@), message_views(messages@)) {
                Ok((next, out)) => r is Ok && named(final(self).networks@) == next && r.unwrap()@
                    == messages_encoding(out),
                Err(e) => r == Err::<Vec<u8>, CompressionError>(e)
                    && final(self).networks@ == old(self).networks@,
            },
    {
        match self.compress(messages) {
            Ok(compressed) => Ok(encode_messages(compressed.as_slice())),
            Err(e) => Err(e),
        }
    }
}

} // verus!
