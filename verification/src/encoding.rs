//! The wire format: messages go out in blocks of up to two, each block a
//! preamble byte that packs the messages' tags, then the messages' bodies.

use vstd::prelude::*;
use vstd::utf8::encode_utf8;
use crate::messages::{
    names_of, views_of, CompressedMessage, CompressedSetBlockNumbersForNextEpoch, CompressedView,
    EpochDetails, NetworkIndex,
};
use crate::varint::{
    decode_prefix_varint, encode_prefix_varint, lemma_parse_ignores_tail,
    lemma_parse_of_prefix_varint, parse_prefix_varint, prefix_varint, varint_len,
};

verus! {

/// The ZigZag image of `v`: `0, -1, 1, -2, ..` go to `0, 1, 2, 3, ..`.
pub open spec fn zigzag_of(v: i64) -> u64 {
    if v >= 0 {
        (2 * v) as u64
    } else {
        (-2 * v - 1) as u64
    }
}

/// The signed number whose ZigZag image is `u`.
pub open spec fn zigzag_inverse(u: u64) -> i64 {
    if u % 2 == 0 {
        (u / 2) as i64
    } else {
        (-(u / 2) - 1) as i64
    }
}

/// The coding of a signed number: the prefix-varint of its ZigZag image.
pub open spec fn i64_encoding(v: i64) -> Seq<u8> {
    prefix_varint(zigzag_of(v))
}

/// What a decoder of signed numbers reads from the front of `s`.
pub open spec fn parse_i64(s: Seq<u8>) -> Option<(i64, nat)> {
    match parse_prefix_varint(s) {
        Some((u, read)) => Some((zigzag_inverse(u), read)),
        None => None,
    }
}

/// The codings of the numbers of `s`, one after the other.
pub open spec fn u64s_encoding(s: Seq<u64>) -> Seq<u8>
    decreases s.len(),
{
    if s.len() == 0 {
        Seq::empty()
    } else {
        prefix_varint(s[0]) + u64s_encoding(s.drop_first())
    }
}

/// The codings of the signed numbers of `s`, one after the other.
pub open spec fn i64s_encoding(s: Seq<i64>) -> Seq<u8>
    decreases s.len(),
{
    if s.len() == 0 {
        Seq::empty()
    } else {
        i64_encoding(s[0]) + i64s_encoding(s.drop_first())
    }
}

/// The coding of a string: the number of its UTF-8 bytes, then the bytes.
pub open spec fn str_encoding(s: Seq<char>) -> Seq<u8> {
    prefix_varint(encode_utf8(s).len() as u64) + encode_utf8(s)
}

/// The codings of the strings of `s`, one after the other.
pub open spec fn strs_encoding(s: Seq<Seq<char>>) -> Seq<u8>
    decreases s.len(),
{
    if s.len() == 0 {
        Seq::empty()
    } else {
        str_encoding(s[0]) + strs_encoding(s.drop_first())
    }
}

/// The body of a registry change: the removed indices behind their count,
/// then the added names behind theirs.
pub open spec fn register_networks_encoding(remove: Seq<u64>, add: Seq<Seq<char>>) -> Seq<u8> {
    prefix_varint(remove.len() as u64) + u64s_encoding(remove) + prefix_varint(add.len() as u64)
        + strs_encoding(add)
}

/// The codings of the corrections of `s`, one after the other: the network's
/// index, the transaction hash, the Merkle root.
pub open spec fn corrections_encoding(s: Seq<(NetworkIndex, EpochDetails)>) -> Seq<u8>
    decreases s.len(),
{
    if s.len() == 0 {
        Seq::empty()
    } else {
        prefix_varint(s[0].0) + s[0].1.tx_hash@ + s[0].1.merkle_root@ + corrections_encoding(
            s.drop_first(),
        )
    }
}

/// The tag of a message in the preamble.
pub open spec fn message_tag(m: CompressedView) -> u8 {
    match m {
        CompressedView::Empty { .. } => 0,
        CompressedView::NonEmpty { .. } => 0,
        CompressedView::CorrectEpochs { .. } => 1,
        CompressedView::UpdateVersion { .. } => 2,
        CompressedView::RegisterNetworks { .. } => 3,
        CompressedView::Reset => 4,
        CompressedView::ChangeOwnership { .. } => 5,
    }
}

/// The body of a message.
pub open spec fn message_encoding(m: CompressedView) -> Seq<u8> {
    match m {
        CompressedView::Empty { count } => prefix_varint(count),
        CompressedView::NonEmpty { accelerations, root } => root + i64s_encoding(accelerations),
        CompressedView::CorrectEpochs { entries } => prefix_varint(entries.len() as u64)
            + corrections_encoding(entries),
        CompressedView::UpdateVersion { version_number } => prefix_varint(version_number),
        CompressedView::RegisterNetworks { remove, add } => register_networks_encoding(
            remove,
            add,
        ),
        CompressedView::Reset => Seq::empty(),
        CompressedView::ChangeOwnership { new_owner_address } => new_owner_address,
    }
}

/// The preamble of a block of one or two messages: the first message's tag in
/// the low four bits, the second's, or zero, in the high four.
pub open spec fn preamble(block: Seq<CompressedView>) -> u8 {
    if block.len() >= 2 {
        (message_tag(block[0]) + 16 * message_tag(block[1])) as u8
    } else {
        message_tag(block[0])
    }
}

/// The bodies of the two messages of a block, or of its one.
pub open spec fn bodies_encoding(block: Seq<CompressedView>) -> Seq<u8> {
    if block.len() >= 2 {
        message_encoding(block[0]) + message_encoding(block[1])
    } else {
        message_encoding(block[0])
    }
}

/// The payload of a list of messages: its blocks of two messages, the last of
/// one where the list is odd, with nothing between them.
pub open spec fn messages_encoding(messages: Seq<CompressedView>) -> Seq<u8>
    decreases messages.len(),
{
    if messages.len() == 0 {
        Seq::empty()
    } else if messages.len() == 1 {
        seq![preamble(messages)] + bodies_encoding(messages)
    } else {
        seq![preamble(messages.take(2))] + bodies_encoding(messages.take(2)) + messages_encoding(
            messages.skip(2),
        )
    }
}

/// ZigZag coding loses nothing.
pub proof fn lemma_zigzag_inverse(v: i64)
    ensures
        zigzag_inverse(zigzag_of(v)) == v,
{
}

/// The ZigZag image in bits: the number shifted left by one, exclusive-or its
/// sign spread over all bits.
pub proof fn lemma_zigzag_in_bits(v: i64)
    ensures
        zigzag_of(v) == ((v << 1) ^ (v >> 63)) as u64,
{
    assert(v >= 0 ==> ((v << 1) ^ (v >> 63)) as u64 == (2 * v) as u64) by (bit_vector);
    assert(v < 0 ==> ((v << 1) ^ (v >> 63)) as u64 == (-2 * v - 1) as u64) by (bit_vector);
}

/// The inverse in bits: the image shifted right by one, exclusive-or the
/// negation of its lowest bit.
pub proof fn lemma_zigzag_inverse_in_bits(u: u64)
    ensures
        zigzag_inverse(u) == ((u >> 1) ^ (0 - (u & 1)) as u64) as i64,
{
    assert(u % 2 == 0 ==> ((u >> 1) ^ (0 - (u & 1)) as u64) as i64 == (u / 2) as i64)
        by (bit_vector);
    assert(u % 2 == 1 ==> ((u >> 1) ^ (0 - (u & 1)) as u64) as i64 == (-(u / 2) - 1) as i64)
        by (bit_vector);
}

/// Decoding the coding of an unsigned number gives the number back, whatever
/// follows it in the buffer.
pub proof fn lemma_decode_encode_u64(v: u64, tail: Seq<u8>)
    ensures
        parse_prefix_varint(prefix_varint(v)) == Some((v, varint_len(v))),
        parse_prefix_varint(prefix_varint(v) + tail) == Some((v, varint_len(v))),
{
    lemma_parse_of_prefix_varint(v);
    lemma_parse_ignores_tail(v, tail);
}

/// Decoding the coding of a signed number gives the number back, whatever
/// follows it in the buffer.
pub proof fn lemma_decode_encode_i64(v: i64, tail: Seq<u8>)
    ensures
        parse_i64(i64_encoding(v)) == Some((v, varint_len(zigzag_of(v)))),
        parse_i64(i64_encoding(v) + tail) == Some((v, varint_len(zigzag_of(v)))),
{
    lemma_parse_of_prefix_varint(zigzag_of(v));
    lemma_parse_ignores_tail(zigzag_of(v), tail);
}

/// `ZigZag::encode` of the crate zigzag, at `i64`: the left shift by one,
/// exclusive-or the sign spread over all bits, which is twice the number where
/// it is not negative and twice its distance below -1, plus one, where it is.
#[verifier::external_body]
fn zigzag_encode(value: i64) -> (r: u64)
    ensures
        r == zigzag_of(value),
{
    zigzag::ZigZag::encode(value)
}

/// `ZigZag::decode` of the crate zigzag, at `i64`: the right shift by one,
/// exclusive-or the negated lowest bit, which is half of an even number and
/// minus one minus half of an odd one.
#[verifier::external_body]
fn zigzag_decode(value: u64) -> (r: i64)
    ensures
        r == zigzag_inverse(value),
{
    zigzag::ZigZag::decode(value)
}

/// Appends `data` to `bytes`.
pub(crate) fn push_all(bytes: &mut Vec<u8>, data: &[u8])
    ensures
        final(bytes)@ == old(bytes)@ + data@,
{
    let mut i: usize = 0;
    while i < data.len()
        invariant
            i <= data.len(),
            bytes@ == old(bytes)@ + data@.take(i as int),
        decreases data.len() - i,
    {
        bytes.push(data[i]);
        i += 1;
        assert(bytes@ =~= old(bytes)@ + data@.take(i as int));
    }
    assert(data@.take(data.len() as int) =~= data@);
}

/// Appends the coding of `value` to `bytes`.
pub fn encode_u64(value: u64, bytes: &mut Vec<u8>)
    ensures
        final(bytes)@ == old(bytes)@ + prefix_varint(value),
        final(bytes)@.len() == old(bytes)@.len() + varint_len(value),
{
    encode_prefix_varint(value, bytes);
}

/// Appends the coding of the signed `value` to `bytes`.
pub fn encode_i64(value: i64, bytes: &mut Vec<u8>)
    ensures
        final(bytes)@ == old(bytes)@ + i64_encoding(value),
{
    encode_u64(zigzag_encode(value), bytes);
}

/// Reads an unsigned number from the front of `bytes`: the number and how many
/// bytes it took, or `None` where `bytes` ends too early.
pub fn decode_u64(bytes: &[u8]) -> (r: Option<(u64, usize)>)
    ensures
        match r {
            Some((value, read)) => parse_prefix_varint(bytes@) == Some((value, read as nat)),
            None => parse_prefix_varint(bytes@).is_none(),
        },
{
    decode_prefix_varint(bytes)
}

/// Reads a signed number from the front of `bytes`: the number and how many
/// bytes it took, or `None` where `bytes` ends too early.
pub fn decode_i64(bytes: &[u8]) -> (r: Option<(i64, usize)>)
    ensures
        match r {
            Some((value, read)) => parse_i64(bytes@) == Some((value, read as nat)),
            None => parse_i64(bytes@).is_none(),
        },
{
    match decode_prefix_varint(bytes) {
        Some((u, read)) => Some((zigzag_decode(u), read)),
        None => None,
    }
}

/// Appends the coding of the string `value` to `bytes`.
pub fn encode_str(value: &str, bytes: &mut Vec<u8>)
    ensures
        final(bytes)@ == old(bytes)@ + str_encoding(value@),
{
    let data = value.as_bytes();
    assert(data@ == encode_utf8(value@));
    encode_u64(data.len() as u64, bytes);
    push_all(bytes, data);
    assert(bytes@ =~= old(bytes)@ + str_encoding(value@));
}

/// Appends the body of a registry change to `bytes`.
pub fn encode_register_networks(add: &[String], remove: &[NetworkIndex], bytes: &mut Vec<u8>)
    ensures
        final(bytes)@ == old(bytes)@ + register_networks_encoding(remove@, names_of(add@)),
{
    encode_u64(remove.len() as u64, bytes);
    let ghost head = bytes@;
    let mut i: usize = 0;
    assert(remove@.skip(0) =~= remove@);
    while i < remove.len()
        invariant
            i <= remove.len(),
            head + u64s_encoding(remove@) == bytes@ + u64s_encoding(remove@.skip(i as int)),
        decreases remove.len() - i,
    {
        let ghost before = bytes@;
        let ghost rest = remove@.skip(i as int);
        encode_u64(remove[i], bytes);
        i += 1;
        proof {
            assert(rest.drop_first() =~= remove@.skip(i as int));
            assert(before + (prefix_varint(rest[0]) + u64s_encoding(rest.drop_first())) =~= bytes@
                + u64s_encoding(rest.drop_first()));
        }
    }
    assert(bytes@ =~= head + u64s_encoding(remove@));
    encode_u64(add.len() as u64, bytes);
    let ghost middle = bytes@;
    let mut j: usize = 0;
    assert(names_of(add@).skip(0) =~= names_of(add@));
    while j < add.len()
        invariant
            j <= add.len(),
            middle + strs_encoding(names_of(add@)) == bytes@ + strs_encoding(
                names_of(add@).skip(j as int),
            ),
        decreases add.len() - j,
    {
        let ghost before = bytes@;
        let ghost rest = names_of(add@).skip(j as int);
        encode_str(add[j].as_str(), bytes);
        j += 1;
        proof {
            assert(rest.drop_first() =~= names_of(add@).skip(j as int));
            assert(before + (str_encoding(rest[0]) + strs_encoding(rest.drop_first())) =~= bytes@
                + strs_encoding(rest.drop_first()));
        }
    }
    assert(bytes@ =~= middle + strs_encoding(names_of(add@)));
    assert(bytes@ =~= old(bytes)@ + register_networks_encoding(remove@, names_of(add@)));
}

/// Appends the body of one epoch's block numbers to `bytes`.
pub fn encode_set_block_numbers_for_next_block(
    block_numbers: &CompressedSetBlockNumbersForNextEpoch,
    bytes: &mut Vec<u8>,
)
    ensures
        final(bytes)@ == old(bytes)@ + message_encoding(block_numbers@),
{
    match block_numbers {
        CompressedSetBlockNumbersForNextEpoch::Empty { count } => encode_u64(*count, bytes),
        CompressedSetBlockNumbersForNextEpoch::NonEmpty { accelerations, root } => {
            push_all(bytes, root.as_slice());
            let ghost head = bytes@;
            let mut i: usize = 0;
            assert(accelerations@.skip(0) =~= accelerations@);
            while i < accelerations.len()
                invariant
                    i <= accelerations.len(),
                    head + i64s_encoding(accelerations@) == bytes@ + i64s_encoding(
                        accelerations@.skip(i as int),
                    ),
                decreases accelerations.len() - i,
            {
                let ghost before = bytes@;
                let ghost rest = accelerations@.skip(i as int);
                encode_i64(accelerations[i], bytes);
                i += 1;
                proof {
                    assert(rest.drop_first() =~= accelerations@.skip(i as int));
                    assert(before + (i64_encoding(rest[0]) + i64s_encoding(rest.drop_first()))
                        =~= bytes@ + i64s_encoding(rest.drop_first()));
                }
            }
            assert(bytes@ =~= head + i64s_encoding(accelerations@));
            assert(bytes@ =~= old(bytes)@ + (root@ + i64s_encoding(accelerations@)));
        },
    }
}

fn encode_corrections(entries: &Vec<(NetworkIndex, EpochDetails)>, bytes: &mut Vec<u8>)
    ensures
        final(bytes)@ == old(bytes)@ + prefix_varint(entries@.len() as u64) + corrections_encoding(
            entries@,
        ),
{
    encode_u64(entries.len() as u64, bytes);
    let ghost head = bytes@;
    let mut i: usize = 0;
    assert(entries@.skip(0) =~= entries@);
    while i < entries.len()
        invariant
            i <= entries.len(),
            head + corrections_encoding(entries@) == bytes@ + corrections_encoding(
                entries@.skip(i as int),
            ),
        decreases entries.len() - i,
    {
        let ghost before = bytes@;
        let ghost rest = entries@.skip(i as int);
        encode_u64(entries[i].0, bytes);
        push_all(bytes, entries[i].1.tx_hash.as_slice());
        push_all(bytes, entries[i].1.merkle_root.as_slice());
        i += 1;
        proof {
            assert(rest.drop_first() =~= entries@.skip(i as int));
            assert(before + (prefix_varint(rest[0].0) + rest[0].1.tx_hash@ + rest[0].1.merkle_root@
                + corrections_encoding(rest.drop_first())) =~= bytes@ + corrections_encoding(
                rest.drop_first(),
            ));
        }
    }
    assert(bytes@ =~= head + corrections_encoding(entries@));
}

/// Appends the body of `message` to `bytes`.
pub fn encode_message(message: &CompressedMessage, bytes: &mut Vec<u8>)
    ensures
        final(bytes)@ == old(bytes)@ + message_encoding(message@),
{
    match message {
        CompressedMessage::SetBlockNumbersForNextEpoch(compressed_block_numbers) => {
            encode_set_block_numbers_for_next_block(compressed_block_numbers, bytes)
        },
        CompressedMessage::RegisterNetworks { add, remove } => {
            encode_register_networks(add.as_slice(), remove.as_slice(), bytes)
        },
        CompressedMessage::CorrectEpochs { data_by_network_id } => {
            encode_corrections(data_by_network_id, bytes);
            assert(bytes@ =~= old(bytes)@ + message_encoding(message@));
        },
        CompressedMessage::UpdateVersion { version_number } => encode_u64(*version_number, bytes),
        CompressedMessage::ChangeOwnership { new_owner_address } => {
            push_all(bytes, new_owner_address.as_slice())
        },
        CompressedMessage::Reset => {
            assert(bytes@ =~= old(bytes)@ + message_encoding(message@));
        },
    }
}

fn tag(message: &CompressedMessage) -> (t: u8)
    ensures
        t == message_tag(message@),
        t <= 5,
{
    match message {
        CompressedMessage::SetBlockNumbersForNextEpoch(_) => 0u8,
        CompressedMessage::CorrectEpochs { .. } => 1,
        CompressedMessage::UpdateVersion { .. } => 2,
        CompressedMessage::RegisterNetworks { .. } => 3,
        CompressedMessage::Reset => 4,
        CompressedMessage::ChangeOwnership { .. } => 5,
    }
}

/// Appends the preamble of a block of one or two messages to `bytes`.
pub fn encode_preamble(messages: &[CompressedMessage], bytes: &mut Vec<u8>)
    requires
        0 < messages@.len() < 3,
    ensures
        final(bytes)@ == old(bytes)@.push(preamble(views_of(messages@))),
{
    let mut preamble: u8 = tag(&messages[0]);
    if messages.len() == 2 {
        preamble = preamble + 16 * tag(&messages[1]);
    }
    bytes.push(preamble)
}

fn encode_block(first: &CompressedMessage, second: &CompressedMessage, bytes: &mut Vec<u8>)
    ensures
        final(bytes)@ == old(bytes)@ + (seq![preamble(seq![first@, second@])] + bodies_encoding(
            seq![first@, second@],
        )),
{
    bytes.push(tag(first) + 16 * tag(second));
    encode_message(first, bytes);
    encode_message(second, bytes);
    assert(bytes@ =~= old(bytes)@ + (seq![preamble(seq![first@, second@])] + bodies_encoding(
        seq![first@, second@],
    )));
}

fn encode_last(last: &CompressedMessage, bytes: &mut Vec<u8>)
    ensures
        final(bytes)@ == old(bytes)@ + (seq![preamble(seq![last@])] + bodies_encoding(
            seq![last@],
        )),
{
    bytes.push(tag(last));
    encode_message(last, bytes);
    assert(bytes@ =~= old(bytes)@ + (seq![preamble(seq![last@])] + bodies_encoding(seq![last@])));
}

/// The payload of `messages`: its blocks of up to two messages, each a
/// preamble and the bodies, with nothing between the blocks.
pub fn encode_messages(messages: &[CompressedMessage]) -> (bytes: Vec<u8>)
    ensures
        bytes@ == messages_encoding(views_of(messages@)),
{
    let mut bytes = Vec::new();
    let mut i: usize = 0;
    assert(views_of(messages@).skip(0) =~= views_of(messages@));
    while i < messages.len()
        invariant
            i <= messages.len(),
            messages_encoding(views_of(messages@)) == bytes@ + messages_encoding(
                views_of(messages@).skip(i as int),
            ),
        decreases messages.len() - i,
    {
        let ghost before = bytes@;
        let ghost rest = views_of(messages@).skip(i as int);
        if messages.len() - i >= 2 {
            encode_block(&messages[i], &messages[i + 1], &mut bytes);
            i += 2;
            proof {
                let block = rest.take(2);
                assert(block =~= seq![messages@[i - 2]@, messages@[i - 1]@]);
                assert(rest.skip(2) =~= views_of(messages@).skip(i as int));
                assert(before + (seq![preamble(block)] + bodies_encoding(block)
                    + messages_encoding(rest.skip(2))) =~= bytes@ + messages_encoding(
                    rest.skip(2),
                ));
            }
        } else {
            encode_last(&messages[i], &mut bytes);
            i += 1;
            proof {
                assert(rest =~= seq![messages@[i - 1]@]);
                assert(views_of(messages@).skip(i as int).len() == 0);
            }
        }
    }
    assert(bytes@ =~= messages_encoding(views_of(messages@)));
    bytes
}

} // verus!
