//! The Merkle root of a list of digests.

use crate::crypto::hash::{sha256, H256};
use vstd::prelude::*;

verus! {

/// The digest of two digests written one after the other.
pub open spec fn hash_pair(left: H256, right: H256) -> H256 {
    H256::spec_from_bytes(sha256(left.bytes() + right.bytes()))
}

/// The level above `level`: the digest of each pair, the last digest paired
/// with itself where the level is of odd length.
pub open spec fn level_above(level: Seq<H256>) -> Seq<H256> {
    Seq::new(
        ((level.len() + 1) / 2) as nat,
        |i: int|
            hash_pair(
                level[2 * i],
                if 2 * i + 1 < level.len() {
                    level[2 * i + 1]
                } else {
                    level[2 * i]
                },
            ),
    )
}

/// The root over the leaves `level`: the zero digest for none, the leaf
/// itself for one, and else the root over the level above.
pub open spec fn root_of(level: Seq<H256>) -> H256
    decreases level.len(),
{
    if level.len() == 0 {
        H256::spec_zero()
    } else if level.len() == 1 {
        level[0]
    } else {
        root_of(level_above(level))
    }
}

fn pair_digest(left: &H256, right: &H256) -> (h: H256)
    ensures
        h == hash_pair(*left, *right),
{
    let mut bytes = left.to_bytes();
    let mut tail = right.to_bytes();
    bytes.append(&mut tail);
    H256::digest(bytes.as_slice())
}

/// The Merkle root over `leaves`.
pub fn merkle_root(leaves: &Vec<H256>) -> (root: H256)
    ensures
        root == root_of(leaves@),
{
    if leaves.len() == 0 {
        return H256::zero();
    }
    let mut level: Vec<H256> = leaves.clone();
    assert(level@ =~= leaves@);
    while level.len() > 1
        invariant
            level@.len() >= 1,
            root_of(level@) == root_of(leaves@),
        decreases level@.len(),
    {
        let mut above: Vec<H256> = Vec::new();
        let count = level.len();
        let pairs = count / 2 + count % 2;
        let mut k: usize = 0;
        while k < pairs
            invariant
                count == level@.len(),
                pairs == (count + 1) / 2,
                k <= pairs,
                above@.len() == k,
                forall|j: int| 0 <= j < above@.len() ==> above@[j] == level_above(level@)[j],
            decreases pairs - k,
        {
            let left = level[2 * k];
            let right = if 2 * k + 1 < count {
                level[2 * k + 1]
            } else {
                level[2 * k]
            };
            above.push(pair_digest(&left, &right));
            k += 1;
        }
        assert(above@ =~= level_above(level@));
        level = above;
    }
    level[0]
}

} // verus!
