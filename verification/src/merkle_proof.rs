use vstd::prelude::*;

use crate::crypto_utils::{poseidon2, poseidon_hash_two};
use crate::hashes::{bytes32_eq, PoseidonHash};

verus! {

/// A membership proof of one leaf in the Poseidon state tree.
#[derive(Debug, Clone)]
pub struct MerkleProof {
    pub leaf_index: u64,
    pub leaf_hash: PoseidonHash,
    pub siblings: Vec<PoseidonHash>,
    pub root: PoseidonHash,
}

/// The answer to an account query: the account's fields and its proof.
#[derive(Debug, Clone)]
pub struct AccountProofResponse {
    pub address: String,
    pub balance: u128,
    pub nonce: u64,
    pub proof: MerkleProof,
}

/// One step up the tree: a node at position `index` and its sibling, ordered by
/// the low bit of `index` (even: the node is the left child).
pub open spec fn hash_up(h: PoseidonHash, index: nat, sibling: PoseidonHash) -> PoseidonHash {
    if index % 2 == 0 {
        poseidon2(h.0, sibling.0)
    } else {
        poseidon2(sibling.0, h.0)
    }
}

/// The root that a leaf hash at `index` reaches through `siblings`, bottom-up.
pub open spec fn fold_path(h: PoseidonHash, index: nat, siblings: Seq<PoseidonHash>) -> PoseidonHash
    decreases siblings.len(),
{
    if siblings.len() == 0 {
        h
    } else {
        fold_path(hash_up(h, index, siblings[0]), index / 2, siblings.drop_first())
    }
}

impl MerkleProof {
    /// True exactly when folding the leaf through the siblings gives the root.
    pub fn verify(&self) -> (res: bool)
        ensures
            res == (fold_path(self.leaf_hash, self.leaf_index as nat, self.siblings@) == self.root),
    {
        let mut current_hash = self.leaf_hash;
        let mut index = self.leaf_index;
        let mut i: usize = 0;
        proof {
            assert(self.siblings@.skip(0) =~= self.siblings@);
        }
        while i < self.siblings.len()
            invariant
                0 <= i <= self.siblings@.len(),
                fold_path(self.leaf_hash, self.leaf_index as nat, self.siblings@) == fold_path(
                    current_hash,
                    index as nat,
                    self.siblings@.skip(i as int),
                ),
            decreases self.siblings@.len() - i,
        {
            let sibling = &self.siblings[i];
            proof {
                assert(self.siblings@.skip(i as int).drop_first() =~= self.siblings@.skip(
                    i + 1,
                ));
            }
            current_hash =
                if index % 2 == 0 {
                    poseidon_hash_two(&current_hash, sibling)
                } else {
                    poseidon_hash_two(sibling, &current_hash)
                };
            index = index / 2;
            i += 1;
        }
        proof {
            assert(self.siblings@.skip(i as int) =~= Seq::<PoseidonHash>::empty());
        }
        let eq = bytes32_eq(&current_hash.0, &self.root.0);
        proof {
            if eq {
                assert(current_hash.0 =~= self.root.0);
            }
        }
        eq
    }
}

} // verus!
