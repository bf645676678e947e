//! The Merkle root over an ordered sequence of 32-byte digests, with
//! Keccak-256 as the hash of the nodes.

use vstd::prelude::*;
use crate::messages::Bytes32;

verus! {

/// The Keccak-256 digest of `data`.
pub uninterp spec fn keccak256_of(data: Seq<u8>) -> Seq<u8>;

/// `web3::signing::keccak256`: the Keccak-256 digest of the bytes, which
/// depends on nothing but the bytes.
#[verifier::external_body]
pub(crate) fn keccak256(data: &[u8]) -> (digest: Bytes32)
    ensures
        digest@ == keccak256_of(data@),
{
    web3::signing::keccak256(data)
}

/// The digests of `nodes` as sequences of bytes.
pub open spec fn digests(nodes: Seq<Bytes32>) -> Seq<Seq<u8>> {
    Seq::new(nodes.len(), |i: int| nodes[i]@)
}

/// The parent of the nodes `left` and `right`.
pub open spec fn parent_of(left: Seq<u8>, right: Seq<u8>) -> Seq<u8> {
    keccak256_of(left + right)
}

/// The level above `nodes`: the parents of its pairs, the last node paired
/// with itself where their number is odd.
pub open spec fn level_above(nodes: Seq<Seq<u8>>) -> Seq<Seq<u8>> {
    Seq::new(
        ((nodes.len() + 1) / 2) as nat,
        |i: int|
            parent_of(
                nodes[2 * i],
                if 2 * i + 1 < nodes.len() {
                    nodes[2 * i + 1]
                } else {
                    nodes[2 * i]
                },
            ),
    )
}

/// The root of the tree over `leaves`: 32 zero bytes where there is none, the
/// leaf itself where there is one.
pub open spec fn merkle_root_of(leaves: Seq<Seq<u8>>) -> Seq<u8>
    decreases leaves.len(),
{
    if leaves.len() == 0 {
        Seq::new(32, |i: int| 0u8)
    } else if leaves.len() == 1 {
        leaves[0]
    } else {
        merkle_root_of(level_above(leaves))
    }
}

fn concat(left: &Bytes32, right: &Bytes32) -> (joined: Vec<u8>)
    ensures
        joined@ == left@ + right@,
{
    let mut joined: Vec<u8> = Vec::new();
    let mut i: usize = 0;
    while i < 32
        invariant
            i <= 32,
            joined@ == left@.take(i as int),
        decreases 32 - i,
    {
        joined.push(left[i]);
        i += 1;
        assert(joined@ =~= left@.take(i as int));
    }
    let mut j: usize = 0;
    while j < 32
        invariant
            j <= 32,
            joined@ == left@ + right@.take(j as int),
        decreases 32 - j,
    {
        joined.push(right[j]);
        j += 1;
        assert(joined@ =~= left@ + right@.take(j as int));
    }
    assert(right@.take(32) =~= right@);
    joined
}

fn next_level(nodes: &Vec<Bytes32>) -> (above: Vec<Bytes32>)
    ensures
        digests(above@) == level_above(digests(nodes@)),
        above@.len() == (nodes@.len() + 1) / 2,
{
    let pairs: usize = nodes.len() / 2 + nodes.len() % 2;
    let mut above: Vec<Bytes32> = Vec::new();
    let mut k: usize = 0;
    while k < pairs
        invariant
            k <= pairs,
            pairs == (nodes@.len() + 1) / 2,
            above@.len() == k,
            forall|j: int|
                0 <= j < above@.len() ==> above@[j]@ == level_above(digests(nodes@))[j],
        decreases pairs - k,
    {
        let joined = if nodes.len() - 2 * k >= 2 {
            concat(&nodes[2 * k], &nodes[2 * k + 1])
        } else {
            concat(&nodes[2 * k], &nodes[2 * k])
        };
        above.push(keccak256(joined.as_slice()));
        k += 1;
    }
    assert(digests(above@) =~= level_above(digests(nodes@)));
    above
}

/// The Merkle root over `leaves`, in their order.
pub fn merkle_root(leaves: Vec<Bytes32>) -> (root: Bytes32)
    ensures
        root@ == merkle_root_of(digests(leaves@)),
{
    if leaves.len() == 0 {
        let zero: Bytes32 = [0u8;32];
        assert(zero@ =~= Seq::new(32, |i: int| 0u8));
        return zero;
    }
    let mut level = leaves;
    while level.len() > 1
        invariant
            level.len() > 0,
            merkle_root_of(digests(level@)) == merkle_root_of(digests(leaves@)),
        decreases level.len(),
    {
        level = next_level(&level);
    }
    level[0]
}

} // verus!
