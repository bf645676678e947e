//! The reader's side of the wire: what a reader that holds the same registry
//! makes of the compressed messages.

use vstd::prelude::*;
use vstd::utf8::{
    decode_utf8, encode_utf8, encode_utf8_decode_utf8, encode_utf8_valid_utf8, valid_utf8,
};
use crate::compressor::{
    acceleration_of, accelerations_of, advanced, compress_message, compress_messages, delta_of,
    fits_i64, in_range, latest, register_networks, Network,
};
use crate::encoding::{
    corrections_encoding, i64_encoding, i64s_encoding, lemma_decode_encode_i64,
    lemma_decode_encode_u64, message_encoding, message_tag, messages_encoding, parse_i64,
    str_encoding, strs_encoding, u64s_encoding, zigzag_of,
};
use crate::messages::{Bytes32, CompressedView, EpochDetails, MessageView, NetworkIndex};
use crate::varint::{lemma_prefix_varint_len, parse_prefix_varint, prefix_varint, varint_len};

verus! {

/// A network after an epoch, from where it stood and the acceleration that
/// the wire carried: the new delta is the old one plus the acceleration, the
/// new block number the old one plus the new delta.
pub open spec fn recovered(network: Network, acceleration: i64) -> Network {
    Network {
        block_number: (network.block_number + network.block_delta + acceleration) as u64,
        block_delta: (network.block_delta + acceleration) as i64,
    }
}

/// The reader's registry after one compressed message.
pub open spec fn applied(registry: Seq<(Seq<char>, Network)>, message: CompressedView) -> Seq<
    (Seq<char>, Network),
> {
    match message {
        CompressedView::NonEmpty { accelerations, .. } => Seq::new(
            registry.len(),
            |i: int| (registry[i].0, recovered(registry[i].1, accelerations[i])),
        ),
        CompressedView::RegisterNetworks { remove, add } => register_networks(
            registry,
            remove,
            add,
        ),
        _ => registry,
    }
}

/// The reader's registry after the compressed messages, in their order.
pub open spec fn applied_all(
    registry: Seq<(Seq<char>, Network)>,
    messages: Seq<CompressedView>,
) -> Seq<(Seq<char>, Network)>
    decreases messages.len(),
{
    if messages.len() == 0 {
        registry
    } else {
        applied_all(applied(registry, messages[0]), messages.drop_first())
    }
}

proof fn lemma_applied_all_of_concat(
    registry: Seq<(Seq<char>, Network)>,
    first: Seq<CompressedView>,
    then: Seq<CompressedView>,
)
    ensures
        applied_all(registry, first + then) == applied_all(applied_all(registry, first), then),
    decreases first.len(),
{
    if first.len() == 0 {
        assert(first + then =~= then);
    } else {
        assert((first + then).drop_first() =~= first.drop_first() + then);
        lemma_applied_all_of_concat(applied(registry, first[0]), first.drop_first(), then);
    }
}

/// A reader that applies what went out for one message to the registry that
/// the compressor started from arrives at the registry that the compressor
/// arrived at.
pub proof fn lemma_reader_follows_message(
    registry: Seq<(Seq<char>, Network)>,
    message: MessageView,
)
    requires
        compress_message(registry, message) is Ok,
    ensures
        applied_all(registry, compress_message(registry, message).unwrap().1) == compress_message(
            registry,
            message,
        ).unwrap().0,
{
    let next = compress_message(registry, message).unwrap().0;
    let out = compress_message(registry, message).unwrap().1;
    if out.len() == 1 {
        assert(out.drop_first().len() == 0);
        assert(applied_all(registry, out) == applied(registry, out[0])) by {
            reveal_with_fuel(applied_all, 2);
        }
        match message {
            MessageView::SetBlockNumbersForNextEpoch { blocks } => {
                if registry.len() > 0 {
                    assert(in_range(registry, blocks));
                    assert forall|i: int| 0 <= i < registry.len() implies applied(
                        registry,
                        out[0],
                    )[i] == advanced(registry, blocks)[i] by {
                        let number = latest(registry, blocks, i).number;
                        assert(fits_i64(delta_of(registry[i].1, number)));
                        assert(fits_i64(acceleration_of(registry[i].1, number)));
                        assert(accelerations_of(registry, blocks)[i] == acceleration_of(
                            registry[i].1,
                            number,
                        ));
                    }
                    assert(applied(registry, out[0]) =~= advanced(registry, blocks));
                }
            },
            _ => {},
        }
    }
}

/// The reader's and the compressor's registries stay equal: a reader that
/// starts from the registry that the compressor started from and applies all
/// that went out for a list of messages holds, at the end, the registry that
/// the compressor holds.
pub proof fn lemma_reader_follows(registry: Seq<(Seq<char>, Network)>, messages: Seq<MessageView>)
    requires
        compress_messages(registry, messages) is Ok,
    ensures
        applied_all(registry, compress_messages(registry, messages).unwrap().1)
            == compress_messages(registry, messages).unwrap().0,
    decreases messages.len(),
{
    if messages.len() > 0 {
        let step = compress_message(registry, messages[0]).unwrap();
        lemma_reader_follows_message(registry, messages[0]);
        lemma_reader_follows(step.0, messages.drop_first());
        let rest = compress_messages(step.0, messages.drop_first()).unwrap();
        lemma_applied_all_of_concat(registry, step.1, rest.1);
    }
}

/// An unsigned number read from the front of `s`, and what follows it.
pub open spec fn read_u64(s: Seq<u8>) -> Option<(u64, Seq<u8>)> {
    match parse_prefix_varint(s) {
        Some((value, read)) => Some((value, s.skip(read as int))),
        None => None,
    }
}

/// A signed number read from the front of `s`, and what follows it.
pub open spec fn read_i64(s: Seq<u8>) -> Option<(i64, Seq<u8>)> {
    match parse_i64(s) {
        Some((value, read)) => Some((value, s.skip(read as int))),
        None => None,
    }
}

/// The first `n` bytes of `s`, and what follows them.
pub open spec fn read_bytes(s: Seq<u8>, n: nat) -> Option<(Seq<u8>, Seq<u8>)> {
    if s.len() >= n {
        Some((s.take(n as int), s.skip(n as int)))
    } else {
        None
    }
}

/// `n` unsigned numbers read from the front of `s`, and what follows them.
pub open spec fn read_u64s(s: Seq<u8>, n: nat) -> Option<(Seq<u64>, Seq<u8>)>
    decreases n,
{
    if n == 0 {
        Some((Seq::empty(), s))
    } else {
        match read_u64(s) {
            Some((value, rest)) => match read_u64s(rest, (n - 1) as nat) {
                Some((values, end)) => Some((seq![value] + values, end)),
                None => None,
            },
            None => None,
        }
    }
}

/// `n` signed numbers read from the front of `s`, and what follows them.
pub open spec fn read_i64s(s: Seq<u8>, n: nat) -> Option<(Seq<i64>, Seq<u8>)>
    decreases n,
{
    if n == 0 {
        Some((Seq::empty(), s))
    } else {
        match read_i64(s) {
            Some((value, rest)) => match read_i64s(rest, (n - 1) as nat) {
                Some((values, end)) => Some((seq![value] + values, end)),
                None => None,
            },
            None => None,
        }
    }
}

/// A string read from the front of `s`, and what follows it.
pub open spec fn read_str(s: Seq<u8>) -> Option<(Seq<char>, Seq<u8>)> {
    match read_u64(s) {
        Some((len, rest)) => match read_bytes(rest, len as nat) {
            Some((bytes, end)) => if valid_utf8(bytes) {
                Some((decode_utf8(bytes), end))
            } else {
                None
            },
            None => None,
        },
        None => None,
    }
}

/// `n` strings read from the front of `s`, and what follows them.
pub open spec fn read_strs(s: Seq<u8>, n: nat) -> Option<(Seq<Seq<char>>, Seq<u8>)>
    decreases n,
{
    if n == 0 {
        Some((Seq::empty(), s))
    } else {
        match read_str(s) {
            Some((value, rest)) => match read_strs(rest, (n - 1) as nat) {
                Some((values, end)) => Some((seq![value] + values, end)),
                None => None,
            },
            None => None,
        }
    }
}

proof fn lemma_read_u64(v: u64, tail: Seq<u8>)
    ensures
        read_u64(prefix_varint(v) + tail) == Some((v, tail)),
{
    lemma_decode_encode_u64(v, tail);
    lemma_prefix_varint_len(v);
    assert((prefix_varint(v) + tail).skip(varint_len(v) as int) =~= tail);
}

proof fn lemma_read_i64(v: i64, tail: Seq<u8>)
    ensures
        read_i64(i64_encoding(v) + tail) == Some((v, tail)),
{
    lemma_decode_encode_i64(v, tail);
    lemma_prefix_varint_len(zigzag_of(v));
    assert((i64_encoding(v) + tail).skip(varint_len(zigzag_of(v)) as int) =~= tail);
}

proof fn lemma_read_bytes(bytes: Seq<u8>, tail: Seq<u8>)
    ensures
        read_bytes(bytes + tail, bytes.len()) == Some((bytes, tail)),
{
    assert((bytes + tail).take(bytes.len() as int) =~= bytes);
    assert((bytes + tail).skip(bytes.len() as int) =~= tail);
}

proof fn lemma_read_u64s(values: Seq<u64>, tail: Seq<u8>)
    ensures
        read_u64s(u64s_encoding(values) + tail, values.len()) == Some((values, tail)),
    decreases values.len(),
{
    if values.len() == 0 {
        assert(u64s_encoding(values) + tail =~= tail);
    } else {
        let rest = u64s_encoding(values.drop_first()) + tail;
        assert(u64s_encoding(values) + tail =~= prefix_varint(values[0]) + rest);
        lemma_read_u64(values[0], rest);
        lemma_read_u64s(values.drop_first(), tail);
        assert(seq![values[0]] + values.drop_first() =~= values);
    }
}

proof fn lemma_read_i64s(values: Seq<i64>, tail: Seq<u8>)
    ensures
        read_i64s(i64s_encoding(values) + tail, values.len()) == Some((values, tail)),
    decreases values.len(),
{
    if values.len() == 0 {
        assert(i64s_encoding(values) + tail =~= tail);
    } else {
        let rest = i64s_encoding(values.drop_first()) + tail;
        assert(i64s_encoding(values) + tail =~= i64_encoding(values[0]) + rest);
        lemma_read_i64(values[0], rest);
        lemma_read_i64s(values.drop_first(), tail);
        assert(seq![values[0]] + values.drop_first() =~= values);
    }
}

proof fn lemma_read_str(value: Seq<char>, tail: Seq<u8>)
    requires
        encode_utf8(value).len() <= u64::MAX,
    ensures
        read_str(str_encoding(value) + tail) == Some((value, tail)),
{
    let bytes = encode_utf8(value);
    assert(str_encoding(value) + tail =~= prefix_varint(bytes.len() as u64) + (bytes + tail));
    lemma_read_u64(bytes.len() as u64, bytes + tail);
    lemma_read_bytes(bytes, tail);
    encode_utf8_valid_utf8(value);
    encode_utf8_decode_utf8(value);
}

/// `true` when the UTF-8 form of each name is short enough for its length to
/// be written.
pub open spec fn names_fit(names: Seq<Seq<char>>) -> bool {
    forall|i: int| 0 <= i < names.len() ==> encode_utf8(#[trigger] names[i]).len() <= u64::MAX
}

proof fn lemma_read_strs(values: Seq<Seq<char>>, tail: Seq<u8>)
    requires
        names_fit(values),
    ensures
        read_strs(strs_encoding(values) + tail, values.len()) == Some((values, tail)),
    decreases values.len(),
{
    if values.len() == 0 {
        assert(strs_encoding(values) + tail =~= tail);
    } else {
        let rest = strs_encoding(values.drop_first()) + tail;
        assert(strs_encoding(values) + tail =~= str_encoding(values[0]) + rest);
        lemma_read_str(values[0], rest);
        assert forall|i: int| 0 <= i < values.drop_first().len() implies encode_utf8(
            #[trigger] values.drop_first()[i],
        ).len() <= u64::MAX by {
            assert(values.drop_first()[i] == values[i + 1]);
        }
        lemma_read_strs(values.drop_first(), tail);
        assert(seq![values[0]] + values.drop_first() =~= values);
    }
}

/// The 32 bytes of `bytes` as an array.
pub open spec fn bytes32_of(bytes: Seq<u8>) -> Bytes32 {
    choose|a: Bytes32| a@ == bytes
}

proof fn lemma_bytes32_of(a: Bytes32)
    ensures
        bytes32_of(a@) == a,
        a@.len() == 32,
{
    let chosen = bytes32_of(a@);
    assert(chosen@ == a@);
    assert(chosen =~= a);
}

/// `n` corrections read from the front of `s`, and what follows them.
pub open spec fn read_corrections(s: Seq<u8>, n: nat) -> Option<
    (Seq<(NetworkIndex, EpochDetails)>, Seq<u8>),
>
    decreases n,
{
    if n == 0 {
        Some((Seq::empty(), s))
    } else {
        match read_u64(s) {
            Some((index, after_index)) => match read_bytes(after_index, 32) {
                Some((tx_hash, after_hash)) => match read_bytes(after_hash, 32) {
                    Some((merkle_root, rest)) => match read_corrections(rest, (n - 1) as nat) {
                        Some((entries, end)) => Some(
                            (
                                seq![
                                    (
                                        index,
                                        EpochDetails {
                                            tx_hash: bytes32_of(tx_hash),
                                            merkle_root: bytes32_of(merkle_root),
                                        },
                                    ),
                                ] + entries,
                                end,
                            ),
                        ),
                        None => None,
                    },
                    None => None,
                },
                None => None,
            },
            None => None,
        }
    }
}

proof fn lemma_read_corrections(entries: Seq<(NetworkIndex, EpochDetails)>, tail: Seq<u8>)
    ensures
        read_corrections(corrections_encoding(entries) + tail, entries.len()) == Some(
            (entries, tail),
        ),
    decreases entries.len(),
{
    if entries.len() == 0 {
        assert(corrections_encoding(entries) + tail =~= tail);
    } else {
        let entry = entries[0];
        let rest = corrections_encoding(entries.drop_first()) + tail;
        let after_hash = entry.1.merkle_root@ + rest;
        let after_index = entry.1.tx_hash@ + after_hash;
        assert(corrections_encoding(entries) + tail =~= prefix_varint(entry.0) + after_index);
        lemma_read_u64(entry.0, after_index);
        lemma_bytes32_of(entry.1.tx_hash);
        lemma_bytes32_of(entry.1.merkle_root);
        lemma_read_bytes(entry.1.tx_hash@, after_hash);
        lemma_read_bytes(entry.1.merkle_root@, rest);
        lemma_read_corrections(entries.drop_first(), tail);
        assert(seq![entry] + entries.drop_first() =~= entries);
    }
}

/// The message with the tag `tag` read from the front of `s` by a reader
/// whose registry holds `networks` networks, and what follows it.
#[verifier::opaque]
pub open spec fn read_message(tag: int, networks: nat, s: Seq<u8>) -> Option<
    (CompressedView, Seq<u8>),
> {
    if tag == 0 && networks == 0 {
        match read_u64(s) {
            Some((count, rest)) => Some((CompressedView::Empty { count }, rest)),
            None => None,
        }
    } else if tag == 0 {
        match read_bytes(s, 32) {
            Some((root, rest)) => match read_i64s(rest, networks) {
                Some((accelerations, end)) => Some(
                    (CompressedView::NonEmpty { accelerations, root }, end),
                ),
                None => None,
            },
            None => None,
        }
    } else if tag == 1 {
        match read_u64(s) {
            Some((n, rest)) => match read_corrections(rest, n as nat) {
                Some((entries, end)) => Some((CompressedView::CorrectEpochs { entries }, end)),
                None => None,
            },
            None => None,
        }
    } else if tag == 2 {
        match read_u64(s) {
            Some((version_number, rest)) => Some(
                (CompressedView::UpdateVersion { version_number }, rest),
            ),
            None => None,
        }
    } else if tag == 3 {
        match read_u64(s) {
            Some((removed, after_count)) => match read_u64s(after_count, removed as nat) {
                Some((remove, after_remove)) => match read_u64(after_remove) {
                    Some((added, after_added)) => match read_strs(after_added, added as nat) {
                        Some((add, end)) => Some(
                            (CompressedView::RegisterNetworks { remove, add }, end),
                        ),
                        None => None,
                    },
                    None => None,
                },
                None => None,
            },
            None => None,
        }
    } else if tag == 4 {
        Some((CompressedView::Reset, s))
    } else if tag == 5 {
        match read_bytes(s, 20) {
            Some((new_owner_address, rest)) => Some(
                (CompressedView::ChangeOwnership { new_owner_address }, rest),
            ),
            None => None,
        }
    } else {
        None
    }
}

/// `true` when a reader whose registry holds `networks` networks can tell
/// what the message is from its bytes: block numbers come as an empty run
/// exactly where no network is registered and else with one acceleration for
/// each network and a root of 32 bytes, an address has 20 bytes, and every
/// count fits in 64 bits.
#[verifier::opaque]
pub open spec fn readable(networks: nat, message: CompressedView) -> bool {
    match message {
        CompressedView::Empty { .. } => networks == 0,
        CompressedView::NonEmpty { accelerations, root } => networks > 0 && accelerations.len()
            == networks && root.len() == 32,
        CompressedView::CorrectEpochs { entries } => entries.len() <= u64::MAX,
        CompressedView::RegisterNetworks { remove, add } => remove.len() <= u64::MAX && add.len()
            <= u64::MAX && names_fit(add),
        CompressedView::ChangeOwnership { new_owner_address } => new_owner_address.len() == 20,
        _ => true,
    }
}

proof fn lemma_read_message(networks: nat, message: CompressedView, tail: Seq<u8>)
    requires
        readable(networks, message),
    ensures
        read_message(message_tag(message) as int, networks, message_encoding(message) + tail)
            == Some((message, tail)),
        message_tag(message) == 0 ==> message_encoding(message).len() > 0,
{
    reveal(read_message);
    reveal(readable);
    match message {
        CompressedView::Empty { count } => {
            lemma_read_u64(count, tail);
            lemma_prefix_varint_len(count);
        },
        CompressedView::NonEmpty { accelerations, root } => {
            let rest = i64s_encoding(accelerations) + tail;
            assert(message_encoding(message) + tail =~= root + rest);
            lemma_read_bytes(root, rest);
            lemma_read_i64s(accelerations, tail);
        },
        CompressedView::CorrectEpochs { entries } => {
            let rest = corrections_encoding(entries) + tail;
            assert(message_encoding(message) + tail =~= prefix_varint(entries.len() as u64)
                + rest);
            lemma_read_u64(entries.len() as u64, rest);
            lemma_read_corrections(entries, tail);
        },
        CompressedView::UpdateVersion { version_number } => {
            lemma_read_u64(version_number, tail);
        },
        CompressedView::RegisterNetworks { remove, add } => {
            let after_added = strs_encoding(add) + tail;
            let after_remove = prefix_varint(add.len() as u64) + after_added;
            let after_count = u64s_encoding(remove) + after_remove;
            assert(message_encoding(message) + tail =~= prefix_varint(remove.len() as u64)
                + after_count);
            lemma_read_u64(remove.len() as u64, after_count);
            lemma_read_u64s(remove, after_remove);
            lemma_read_u64(add.len() as u64, after_added);
            lemma_read_strs(add, tail);
        },
        CompressedView::Reset => {
            assert(message_encoding(message) + tail =~= tail);
        },
        CompressedView::ChangeOwnership { new_owner_address } => {
            lemma_read_bytes(new_owner_address, tail);
        },
    }
}

/// The messages read from a payload by a reader that holds `registry`: block
/// by block, the registry following each message, up to the end of the
/// payload. A block whose preamble names no second message ends the payload
/// where no byte follows its first message.
pub open spec fn read_messages(registry: Seq<(Seq<char>, Network)>, s: Seq<u8>) -> Option<
    Seq<CompressedView>,
>
    decreases s.len(),
{
    if s.len() == 0 {
        Some(Seq::empty())
    } else {
        match read_message(s[0] as int % 16, registry.len(), s.skip(1)) {
            None => None,
            Some((first, rest)) => if s[0] as int / 16 == 0 && rest.len() == 0 {
                Some(seq![first])
            } else {
                match read_message(s[0] as int / 16, applied(registry, first).len(), rest) {
                    None => None,
                    Some((second, end)) => if end.len() < s.len() {
                        match read_messages(applied(applied(registry, first), second), end) {
                            Some(more) => Some(seq![first, second] + more),
                            None => None,
                        }
                    } else {
                        None
                    },
                }
            },
        }
    }
}

/// `true` when a reader that starts from `registry` can tell each of the
/// messages from its bytes, its registry following the messages.
pub open spec fn all_readable(
    registry: Seq<(Seq<char>, Network)>,
    messages: Seq<CompressedView>,
) -> bool
    decreases messages.len(),
{
    messages.len() == 0 || (readable(registry.len(), messages[0]) && all_readable(
        applied(registry, messages[0]),
        messages.drop_first(),
    ))
}

proof fn lemma_last_message_reads_back(
    registry: Seq<(Seq<char>, Network)>,
    first: CompressedView,
)
    requires
        readable(registry.len(), first),
    ensures
        read_messages(registry, seq![message_tag(first)] + message_encoding(first)) == Some(
            seq![first],
        ),
{
    let body = message_encoding(first);
    let payload = seq![message_tag(first)] + body;
    assert(payload.skip(1) =~= body + Seq::<u8>::empty());
    assert(payload[0] == message_tag(first));
    lemma_read_message(registry.len(), first, Seq::empty());
}

proof fn lemma_block_reads_back(
    registry: Seq<(Seq<char>, Network)>,
    first: CompressedView,
    second: CompressedView,
    end: Seq<u8>,
    others: Seq<CompressedView>,
)
    requires
        readable(registry.len(), first),
        readable(applied(registry, first).len(), second),
        read_messages(applied(applied(registry, first), second), end) == Some(others),
    ensures
        read_messages(
            registry,
            seq![(message_tag(first) + 16 * message_tag(second)) as u8] + (message_encoding(first)
                + (message_encoding(second) + end)),
        ) == Some(seq![first, second] + others),
{
    let byte = (message_tag(first) + 16 * message_tag(second)) as u8;
    let rest = message_encoding(second) + end;
    let payload = seq![byte] + (message_encoding(first) + rest);
    assert(payload.skip(1) =~= message_encoding(first) + rest);
    assert(payload[0] == byte);
    assert(byte as int % 16 == message_tag(first));
    assert(byte as int / 16 == message_tag(second));
    lemma_read_message(registry.len(), first, rest);
    lemma_read_message(applied(registry, first).len(), second, end);
    assert(message_tag(second) == 0 ==> rest.len() > 0);
    assert(end.len() < payload.len());
}

/// A payload reads back as the compressed messages that it was written from,
/// by a reader that holds the registry that they were compressed against.
pub proof fn lemma_payload_reads_back(
    registry: Seq<(Seq<char>, Network)>,
    messages: Seq<CompressedView>,
)
    requires
        all_readable(registry, messages),
    ensures
        read_messages(registry, messages_encoding(messages)) == Some(messages),
    decreases messages.len(),
{
    let payload = messages_encoding(messages);
    if messages.len() == 0 {
    } else if messages.len() == 1 {
        let first = messages[0];
        assert(payload =~= seq![message_tag(first)] + message_encoding(first));
        lemma_last_message_reads_back(registry, first);
        assert(messages =~= seq![first]);
    } else {
        let first = messages[0];
        let second = messages[1];
        let others = messages.skip(2);
        let after_second = applied(applied(registry, first), second);
        let end = messages_encoding(others);
        assert(messages.drop_first().drop_first() =~= others);
        assert(all_readable(applied(registry, first), messages.drop_first()));
        assert(messages.drop_first()[0] == second);
        assert(all_readable(after_second, others));
        assert(messages.take(2)[0] == first && messages.take(2)[1] == second);
        let byte = (message_tag(first) + 16 * message_tag(second)) as u8;
        assert(payload =~= seq![byte] + (message_encoding(first) + (message_encoding(second)
            + end)));
        lemma_payload_reads_back(after_second, others);
        lemma_block_reads_back(registry, first, second, end, others);
        assert(seq![first, second] + others =~= messages);
    }
}

/// `true` when the counts of a message fit in 64 bits and an address has 20
/// bytes, as they do in every message that a program holds.
pub open spec fn sizes_fit(message: MessageView) -> bool {
    match message {
        MessageView::RegisterNetworks { remove, add } => remove.len() <= u64::MAX && add.len()
            <= u64::MAX && names_fit(add),
        MessageView::CorrectEpochs { entries } => entries.len() <= u64::MAX,
        MessageView::ChangeOwnership { new_owner_address } => new_owner_address.len() == 20,
        _ => true,
    }
}

/// `true` when every Merkle root among the messages has 32 bytes, as every
/// root that a program holds has.
pub open spec fn roots_fit(messages: Seq<CompressedView>) -> bool {
    forall|k: int|
        0 <= k < messages.len() && #[trigger] messages[k] is NonEmpty ==> messages[k]->root.len()
            == 32
}

/// A reader can tell what the compressor puts out: block numbers go out as an
/// empty run exactly where no network is registered, and else with one
/// acceleration for each network.
pub proof fn lemma_compressed_is_readable(
    registry: Seq<(Seq<char>, Network)>,
    messages: Seq<MessageView>,
)
    requires
        compress_messages(registry, messages) is Ok,
        forall|j: int| 0 <= j < messages.len() ==> sizes_fit(#[trigger] messages[j]),
        roots_fit(compress_messages(registry, messages).unwrap().1),
    ensures
        all_readable(registry, compress_messages(registry, messages).unwrap().1),
    decreases messages.len(),
{
    reveal(readable);
    if messages.len() > 0 {
        let step = compress_message(registry, messages[0]).unwrap();
        let rest = compress_messages(step.0, messages.drop_first()).unwrap();
        let out = step.1 + rest.1;
        assert(sizes_fit(messages[0]));
        assert forall|j: int| 0 <= j < messages.drop_first().len() implies sizes_fit(
            #[trigger] messages.drop_first()[j],
        ) by {
            assert(messages.drop_first()[j] == messages[j + 1]);
        }
        assert forall|k: int| 0 <= k < rest.1.len() && #[trigger] rest.1[k] is NonEmpty implies rest.1[k]->root.len()
            == 32 by {
            assert(out[k + step.1.len()] == rest.1[k]);
        }
        lemma_compressed_is_readable(step.0, messages.drop_first());
        lemma_reader_follows_message(registry, messages[0]);
        if step.1.len() == 0 {
            assert(out =~= rest.1);
        } else {
            assert(step.1.len() == 1);
            assert(out[0] == step.1[0]);
            assert(out.drop_first() =~= rest.1);
            assert(step.1.drop_first().len() == 0);
            assert(applied_all(registry, step.1) == applied(registry, step.1[0])) by {
                reveal_with_fuel(applied_all, 2);
            }
            assert(readable(registry.len(), out[0]));
        }
    }
}

/// What the compressor writes, a reader reads back: from the payload of a
/// list of messages, a reader that holds the registry that the compressor
/// started from recovers the compressed messages, and its registry ends up
/// equal to the compressor's.
pub proof fn lemma_wire_round_trip(registry: Seq<(Seq<char>, Network)>, messages: Seq<MessageView>)
    requires
        compress_messages(registry, messages) is Ok,
        forall|j: int| 0 <= j < messages.len() ==> sizes_fit(#[trigger] messages[j]),
        roots_fit(compress_messages(registry, messages).unwrap().1),
    ensures
        read_messages(
            registry,
            messages_encoding(compress_messages(registry, messages).unwrap().1),
        ) == Some(compress_messages(registry, messages).unwrap().1),
        applied_all(registry, compress_messages(registry, messages).unwrap().1)
            == compress_messages(registry, messages).unwrap().0,
{
    lemma_compressed_is_readable(registry, messages);
    lemma_payload_reads_back(registry, compress_messages(registry, messages).unwrap().1);
    lemma_reader_follows(registry, messages);
}

} // verus!
