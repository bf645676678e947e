//! Prefix-varint coding of unsigned 64-bit integers.
//!
//! A value takes one to nine bytes. The number of leading one bits of the first
//! byte says how many further bytes follow; the other bits of the first byte are
//! the high bits of the value and the further bytes hold the rest, big-endian.

use vstd::prelude::*;
use vstd::arithmetic::div_mod::lemma_breakdown;

verus! {

/// `256^k`.
pub open spec fn pow256(k: nat) -> nat
    decreases k,
{
    if k == 0 {
        1
    } else {
        256 * pow256((k - 1) as nat)
    }
}

/// The number of bytes that the coding of `v` takes: seven payload bits per
/// byte, and nine bytes from `2^56` on.
pub open spec fn varint_len(v: u64) -> nat {
    if v < 0x80 {
        1
    } else if v < 0x4000 {
        2
    } else if v < 0x20_0000 {
        3
    } else if v < 0x1000_0000 {
        4
    } else if v < 0x8_0000_0000 {
        5
    } else if v < 0x400_0000_0000 {
        6
    } else if v < 0x2_0000_0000_0000 {
        7
    } else if v < 0x100_0000_0000_0000 {
        8
    } else {
        9
    }
}

/// The first byte of a coding of `n` bytes with no payload bit set: `n - 1`
/// leading ones.
pub open spec fn marker(n: nat) -> u8 {
    if n <= 1 {
        0x00
    } else if n == 2 {
        0x80
    } else if n == 3 {
        0xC0
    } else if n == 4 {
        0xE0
    } else if n == 5 {
        0xF0
    } else if n == 6 {
        0xF8
    } else if n == 7 {
        0xFC
    } else if n == 8 {
        0xFE
    } else {
        0xFF
    }
}

/// The number of leading one bits of `b`.
pub open spec fn leading_ones(b: u8) -> nat {
    if b < 0x80 {
        0
    } else if b < 0xC0 {
        1
    } else if b < 0xE0 {
        2
    } else if b < 0xF0 {
        3
    } else if b < 0xF8 {
        4
    } else if b < 0xFC {
        5
    } else if b < 0xFE {
        6
    } else if b < 0xFF {
        7
    } else {
        8
    }
}

/// The low `k` bytes of `v`, most significant first.
pub open spec fn be_bytes(v: nat, k: nat) -> Seq<u8>
    decreases k,
{
    if k == 0 {
        Seq::empty()
    } else {
        be_bytes(v / 256, (k - 1) as nat).push((v % 256) as u8)
    }
}

/// The number that `s` spells, most significant byte first.
pub open spec fn be_value(s: Seq<u8>) -> nat
    decreases s.len(),
{
    if s.len() == 0 {
        0
    } else {
        256 * be_value(s.drop_last()) + s.last() as nat
    }
}

/// The prefix-varint coding of `v`.
pub open spec fn prefix_varint(v: u64) -> Seq<u8> {
    let n = varint_len(v);
    let high = v as nat / pow256((n - 1) as nat);
    seq![(marker(n) + high) as u8] + be_bytes(v as nat, (n - 1) as nat)
}

/// What a decoder reads from the front of `s`: the value and the number of
/// bytes that it took, or `None` where `s` ends before the coding does.
pub open spec fn parse_prefix_varint(s: Seq<u8>) -> Option<(u64, nat)> {
    if s.len() == 0 {
        None
    } else {
        let extra = leading_ones(s[0]);
        if s.len() < 1 + extra {
            None
        } else {
            let high = (s[0] - marker(extra + 1)) as nat;
            let low = be_value(s.subrange(1, 1 + extra as int));
            Some(((high * pow256(extra) + low) as u64, 1 + extra))
        }
    }
}

/// The powers of 256 that the coding uses, as numbers.
pub proof fn lemma_pow256_values()
    ensures
        pow256(0) == 1,
        pow256(1) == 0x100,
        pow256(2) == 0x1_0000,
        pow256(3) == 0x100_0000,
        pow256(4) == 0x1_0000_0000,
        pow256(5) == 0x100_0000_0000,
        pow256(6) == 0x1_0000_0000_0000,
        pow256(7) == 0x100_0000_0000_0000,
        pow256(8) == 0x1_0000_0000_0000_0000,
{
    reveal_with_fuel(pow256, 10);
}

/// No power of 256 is zero.
pub proof fn lemma_pow256_positive(k: nat)
    ensures
        pow256(k) > 0,
    decreases k,
{
    if k > 0 {
        lemma_pow256_positive((k - 1) as nat);
    }
}

/// The low `k` bytes of a number are `k` bytes.
pub proof fn lemma_be_bytes_len(v: nat, k: nat)
    ensures
        be_bytes(v, k).len() == k,
    decreases k,
{
    if k > 0 {
        lemma_be_bytes_len(v / 256, (k - 1) as nat);
    }
}

/// A sequence of `k` bytes spells a number below `256^k`.
pub proof fn lemma_be_value_bound(s: Seq<u8>)
    ensures
        be_value(s) < pow256(s.len()),
    decreases s.len(),
{
    if s.len() > 0 {
        lemma_be_value_bound(s.drop_last());
    }
}

/// Reading back the low `k` bytes of `v` gives `v` modulo `256^k`.
pub proof fn lemma_be_value_of_be_bytes(v: nat, k: nat)
    ensures
        be_value(be_bytes(v, k)) == v % pow256(k),
    decreases k,
{
    if k > 0 {
        let rest = be_bytes(v / 256, (k - 1) as nat);
        lemma_be_value_of_be_bytes(v / 256, (k - 1) as nat);
        lemma_be_bytes_len(v / 256, (k - 1) as nat);
        assert(be_bytes(v, k).drop_last() =~= rest);
        lemma_pow256_positive((k - 1) as nat);
        lemma_breakdown(v as int, 256, pow256((k - 1) as nat) as int);
    }
}

/// The coding of `v` has `varint_len(v)` bytes: one below `2^7`, two below
/// `2^14`, and so on by seven bits a byte, nine from `2^56` on.
pub proof fn lemma_prefix_varint_len(v: u64)
    ensures
        prefix_varint(v).len() == varint_len(v),
        1 <= varint_len(v) <= 9,
        v < 0x80 <==> varint_len(v) == 1,
        0x80 <= v < 0x4000 <==> varint_len(v) == 2,
        0x4000 <= v < 0x20_0000 <==> varint_len(v) == 3,
        0x20_0000 <= v < 0x1000_0000 <==> varint_len(v) == 4,
        0x1000_0000 <= v < 0x8_0000_0000 <==> varint_len(v) == 5,
        0x8_0000_0000 <= v < 0x400_0000_0000 <==> varint_len(v) == 6,
        0x400_0000_0000 <= v < 0x2_0000_0000_0000 <==> varint_len(v) == 7,
        0x2_0000_0000_0000 <= v < 0x100_0000_0000_0000 <==> varint_len(v) == 8,
        0x100_0000_0000_0000 <= v <==> varint_len(v) == 9,
{
    lemma_be_bytes_len(v as nat, (varint_len(v) - 1) as nat);
}

/// The high part of `v`, which shares the first byte with the marker: it fits
/// there, leaves the marker's leading ones readable, and with the low bytes
/// makes up `v`.
pub proof fn lemma_first_byte(v: u64)
    ensures
        marker(varint_len(v)) + v as nat / pow256((varint_len(v) - 1) as nat) <= 0xFF,
        leading_ones((marker(varint_len(v)) + v as nat / pow256((varint_len(v) - 1) as nat)) as u8)
            == varint_len(v) - 1,
        v as nat == (v as nat / pow256((varint_len(v) - 1) as nat)) * pow256(
            (varint_len(v) - 1) as nat,
        ) + v as nat % pow256((varint_len(v) - 1) as nat),
{
    lemma_pow256_values();
    let x = v as nat;
    let n = varint_len(v);
    if n == 1 {
        assert(x / pow256(0) == x / 1);
        assert(x % pow256(0) == x % 1);
        assert((x / 1) * pow256(0) == (x / 1) * 1) by (nonlinear_arith)
            requires
                pow256(0) == 1,
        ;
    } else if n == 2 {
        assert(x / pow256(1) == x / 0x100);
        assert(x % pow256(1) == x % 0x100);
        assert((x / 0x100) * pow256(1) == (x / 0x100) * 0x100) by (nonlinear_arith)
            requires
                pow256(1) == 0x100,
        ;
    } else if n == 3 {
        assert(x / pow256(2) == x / 0x1_0000);
        assert(x % pow256(2) == x % 0x1_0000);
        assert((x / 0x1_0000) * pow256(2) == (x / 0x1_0000) * 0x1_0000) by (nonlinear_arith)
            requires
                pow256(2) == 0x1_0000,
        ;
    } else if n == 4 {
        assert(x / pow256(3) == x / 0x100_0000);
        assert(x % pow256(3) == x % 0x100_0000);
        assert((x / 0x100_0000) * pow256(3) == (x / 0x100_0000) * 0x100_0000) by (nonlinear_arith)
            requires
                pow256(3) == 0x100_0000,
        ;
    } else if n == 5 {
        assert(x / pow256(4) == x / 0x1_0000_0000);
        assert(x % pow256(4) == x % 0x1_0000_0000);
        assert((x / 0x1_0000_0000) * pow256(4) == (x / 0x1_0000_0000) * 0x1_0000_0000) by (nonlinear_arith)
            requires
                pow256(4) == 0x1_0000_0000,
        ;
    } else if n == 6 {
        assert(x / pow256(5) == x / 0x100_0000_0000);
        assert(x % pow256(5) == x % 0x100_0000_0000);
        assert((x / 0x100_0000_0000) * pow256(5) == (x / 0x100_0000_0000) * 0x100_0000_0000) by (nonlinear_arith)
            requires
                pow256(5) == 0x100_0000_0000,
        ;
    } else if n == 7 {
        assert(x / pow256(6) == x / 0x1_0000_0000_0000);
        assert(x % pow256(6) == x % 0x1_0000_0000_0000);
        assert((x / 0x1_0000_0000_0000) * pow256(6) == (x / 0x1_0000_0000_0000) * 0x1_0000_0000_0000) by (nonlinear_arith)
            requires
                pow256(6) == 0x1_0000_0000_0000,
        ;
    } else if n == 8 {
        assert(x / pow256(7) == x / 0x100_0000_0000_0000);
        assert(x % pow256(7) == x % 0x100_0000_0000_0000);
        assert((x / 0x100_0000_0000_0000) * pow256(7) == (x / 0x100_0000_0000_0000) * 0x100_0000_0000_0000) by (nonlinear_arith)
            requires
                pow256(7) == 0x100_0000_0000_0000,
        ;
    } else {
        assert(x / pow256(8) == x / 0x1_0000_0000_0000_0000);
        assert(x % pow256(8) == x % 0x1_0000_0000_0000_0000);
        assert((x / 0x1_0000_0000_0000_0000) * pow256(8) == (x / 0x1_0000_0000_0000_0000) * 0x1_0000_0000_0000_0000) by (nonlinear_arith)
            requires
                pow256(8) == 0x1_0000_0000_0000_0000,
        ;
    }
}

/// The first byte in bits, for a coding of up to eight bytes: as many leading
/// ones as bytes follow, cut out of `0xFF` by a shift, over the bits of `v`
/// above its low `n - 1` bytes.
pub proof fn lemma_first_byte_in_bits(v: u64)
    requires
        varint_len(v) <= 8,
    ensures
        prefix_varint(v)[0] == ((0xFFu64 << (9 - varint_len(v)) as u64) & 0xFF) | (v >> (8 * (
            varint_len(v) - 1)) as u64),
{
    lemma_pow256_values();
    lemma_first_byte(v);
    assert(v < 0x80 ==> ((0xFFu64 << 8u64) & 0xFF) | (v >> 0u64) == 0x00 + v / 1) by (bit_vector);
    assert(v < 0x4000 ==> ((0xFFu64 << 7u64) & 0xFF) | (v >> 8u64) == 0x80 + v / 0x100) by (bit_vector);
    assert(v < 0x20_0000 ==> ((0xFFu64 << 6u64) & 0xFF) | (v >> 16u64) == 0xC0 + v / 0x1_0000) by (bit_vector);
    assert(v < 0x1000_0000 ==> ((0xFFu64 << 5u64) & 0xFF) | (v >> 24u64) == 0xE0 + v / 0x100_0000) by (bit_vector);
    assert(v < 0x8_0000_0000 ==> ((0xFFu64 << 4u64) & 0xFF) | (v >> 32u64) == 0xF0 + v / 0x1_0000_0000) by (bit_vector);
    assert(v < 0x400_0000_0000 ==> ((0xFFu64 << 3u64) & 0xFF) | (v >> 40u64) == 0xF8 + v / 0x100_0000_0000) by (bit_vector);
    assert(v < 0x2_0000_0000_0000 ==> ((0xFFu64 << 2u64) & 0xFF) | (v >> 48u64) == 0xFC + v / 0x1_0000_0000_0000) by (bit_vector);
    assert(v < 0x100_0000_0000_0000 ==> ((0xFFu64 << 1u64) & 0xFF) | (v >> 56u64) == 0xFE + v / 0x100_0000_0000_0000) by (bit_vector);
}

/// Decoding the coding of `v` gives `v` back and takes all of its bytes.
pub proof fn lemma_parse_of_prefix_varint(v: u64)
    ensures
        parse_prefix_varint(prefix_varint(v)) == Some((v, varint_len(v))),
{
    let n = varint_len(v);
    let k = (n - 1) as nat;
    let s = prefix_varint(v);
    lemma_pow256_values();
    lemma_first_byte(v);
    lemma_be_bytes_len(v as nat, k);
    lemma_be_value_of_be_bytes(v as nat, k);
    assert(s.subrange(1, 1 + k as int) =~= be_bytes(v as nat, k));
    let high = v as nat / pow256(k);
    assert(s[0] == (marker(n) + high) as u8);
}

/// Decoding reads only the coding at the front: what follows it in the buffer
/// does not change the result.
pub proof fn lemma_parse_ignores_tail(v: u64, tail: Seq<u8>)
    ensures
        parse_prefix_varint(prefix_varint(v) + tail) == Some((v, varint_len(v))),
{
    let s = prefix_varint(v);
    lemma_parse_of_prefix_varint(v);
    lemma_prefix_varint_len(v);
    lemma_first_byte(v);
    let extra = leading_ones(s[0]);
    assert((s + tail)[0] == s[0]);
    assert((s + tail).subrange(1, 1 + extra as int) =~= s.subrange(1, 1 + extra as int));
}

fn varint_length(value: u64) -> (n: usize)
    ensures
        n == varint_len(value),
{
    if value < 0x80 {
        1
    } else if value < 0x4000 {
        2
    } else if value < 0x20_0000 {
        3
    } else if value < 0x1000_0000 {
        4
    } else if value < 0x8_0000_0000 {
        5
    } else if value < 0x400_0000_0000 {
        6
    } else if value < 0x2_0000_0000_0000 {
        7
    } else if value < 0x100_0000_0000_0000 {
        8
    } else {
        9
    }
}

fn marker_byte(n: usize) -> (m: u8)
    ensures
        m == marker(n as nat),
{
    if n <= 1 {
        0x00
    } else if n == 2 {
        0x80
    } else if n == 3 {
        0xC0
    } else if n == 4 {
        0xE0
    } else if n == 5 {
        0xF0
    } else if n == 6 {
        0xF8
    } else if n == 7 {
        0xFC
    } else if n == 8 {
        0xFE
    } else {
        0xFF
    }
}

fn count_leading_ones(b: u8) -> (n: usize)
    ensures
        n == leading_ones(b),
{
    if b < 0x80 {
        0
    } else if b < 0xC0 {
        1
    } else if b < 0xE0 {
        2
    } else if b < 0xF0 {
        3
    } else if b < 0xF8 {
        4
    } else if b < 0xFC {
        5
    } else if b < 0xFE {
        6
    } else if b < 0xFF {
        7
    } else {
        8
    }
}

fn power_of_256(k: usize) -> (p: u64)
    requires
        k <= 7,
    ensures
        p == pow256(k as nat),
{
    proof {
        lemma_pow256_values();
    }
    if k == 0 {
        1
    } else if k == 1 {
        0x100
    } else if k == 2 {
        0x1_0000
    } else if k == 3 {
        0x100_0000
    } else if k == 4 {
        0x1_0000_0000
    } else if k == 5 {
        0x100_0000_0000
    } else if k == 6 {
        0x1_0000_0000_0000
    } else {
        0x100_0000_0000_0000
    }
}

/// Appends the low `k` bytes of `value` to `bytes`, most significant first.
pub(crate) fn push_be_bytes(value: u64, k: usize, bytes: &mut Vec<u8>)
    ensures
        final(bytes)@ == old(bytes)@ + be_bytes(value as nat, k as nat),
    decreases k,
{
    if k > 0 {
        push_be_bytes(value / 256, k - 1, bytes);
        bytes.push((value % 256) as u8);
        assert(bytes@ =~= old(bytes)@ + be_bytes(value as nat, k as nat));
    } else {
        assert(bytes@ =~= old(bytes)@ + be_bytes(value as nat, k as nat));
    }
}

/// Appends the prefix-varint coding of `value` to `bytes`.
pub fn encode_prefix_varint(value: u64, bytes: &mut Vec<u8>)
    ensures
        final(bytes)@ == old(bytes)@ + prefix_varint(value),
        final(bytes)@.len() == old(bytes)@.len() + varint_len(value),
{
    let n = varint_length(value);
    proof {
        lemma_pow256_values();
        lemma_first_byte(value);
        lemma_prefix_varint_len(value);
    }
    let first: u8 = if n == 9 {
        0xFF
    } else {
        marker_byte(n) + (value / power_of_256(n - 1)) as u8
    };
    bytes.push(first);
    push_be_bytes(value, n - 1, bytes);
    assert(bytes@ =~= old(bytes)@ + prefix_varint(value));
}

/// Reads one prefix-varint from the front of `bytes`: the value and the number
/// of bytes read, or `None` where `bytes` ends too early.
pub fn decode_prefix_varint(bytes: &[u8]) -> (r: Option<(u64, usize)>)
    ensures
        match r {
            Some((value, read)) => parse_prefix_varint(bytes@) == Some((value, read as nat)),
            None => parse_prefix_varint(bytes@).is_none(),
        },
{
    if bytes.len() == 0 {
        return None;
    }
    let b0 = bytes[0];
    let extra = count_leading_ones(b0);
    if bytes.len() - 1 < extra {
        return None;
    }
    let ghost rest = bytes@.subrange(1, 1 + extra as int);
    let mut low: u64 = 0;
    let mut i: usize = 0;
    while i < extra
        invariant
            i <= extra <= 8,
            1 + extra <= bytes.len(),
            rest == bytes@.subrange(1, 1 + extra as int),
            low == be_value(rest.take(i as int)),
        decreases extra - i,
    {
        proof {
            lemma_be_value_bound(rest.take(i as int));
            lemma_pow256_values();
            assert(rest.take(i + 1).drop_last() =~= rest.take(i as int));
            assert(pow256(i as nat) <= pow256(7)) by {
                reveal_with_fuel(pow256, 10);
            }
        }
        low = low * 256 + bytes[1 + i] as u64;
        i += 1;
    }
    proof {
        assert(rest.take(extra as int) =~= rest);
        lemma_be_value_bound(rest);
        lemma_pow256_values();
    }
    let high = (b0 - marker_byte(extra + 1)) as u64;
    if extra >= 7 {
        assert(high as nat * pow256(extra as nat) == 0) by (nonlinear_arith)
            requires
                high == 0,
        ;
        Some((low, 1 + extra))
    } else {
        let unit = power_of_256(extra);
        assert(low < unit);
        assert(high < 0x80);
        assert(high * unit <= 0x7F * unit) by (nonlinear_arith)
            requires
                high <= 0x7F,
                unit >= 0,
        ;
        Some((high * unit + low, 1 + extra))
    }
}

} // verus!
