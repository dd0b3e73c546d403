use vstd::prelude::*;

use crate::crypto_utils::{calculate_keccak_hash, keccak256};
use crate::hashes::KeccakHash;

verus! {

/// Number of transactions committed by one batch tree.
pub const BATCH_SIZE: usize = 20;

/// Keccak-256 of the 64-byte concatenation of two nodes.
pub open spec fn pair_hash(l: KeccakHash, r: KeccakHash) -> KeccakHash {
    KeccakHash(keccak256(l.0@ + r.0@))
}

/// A layer padded to even length by repeating its last node.
pub open spec fn padded(layer: Seq<KeccakHash>) -> Seq<KeccakHash> {
    if layer.len() % 2 != 0 {
        layer.push(layer.last())
    } else {
        layer
    }
}

/// The layer above `layer`: pairwise hashes of the padded layer.
pub open spec fn next_layer(layer: Seq<KeccakHash>) -> Seq<KeccakHash> {
    let p = padded(layer);
    Seq::new(p.len() / 2, |i: int| pair_hash(p[2 * i], p[2 * i + 1]))
}

/// The layers above `layer`, bottom-up, up to the first one with a single node.
pub open spec fn layers_above(layer: Seq<KeccakHash>) -> Seq<Seq<KeccakHash>>
    decreases layer.len(),
{
    if layer.len() <= 1 {
        seq![]
    } else {
        seq![next_layer(layer)] + layers_above(next_layer(layer))
    }
}

/// All layers of the tree over `leaves`, the leaves first.
pub open spec fn tree_layers(leaves: Seq<KeccakHash>) -> Seq<Seq<KeccakHash>> {
    seq![leaves] + layers_above(leaves)
}

/// The proof nodes collected from layer `i` up, for the node at position `cur`:
/// its sibling on each layer but the top, skipped when the sibling is past the
/// end of the layer.
pub open spec fn proof_from(layers: Seq<Seq<KeccakHash>>, i: nat, cur: nat) -> Seq<KeccakHash>
    decreases layers.len() - i,
{
    if i + 1 >= layers.len() {
        seq![]
    } else {
        let sib: nat = if cur % 2 != 0 {
            (cur - 1) as nat
        } else {
            cur + 1
        };
        let here = if sib < layers[i as int].len() {
            seq![layers[i as int][sib as int]]
        } else {
            seq![]
        };
        here + proof_from(layers, i + 1, cur / 2)
    }
}

/// The number of nodes on each layer.
pub open spec fn layer_lens(layers: Seq<Seq<KeccakHash>>) -> Seq<nat> {
    Seq::new(layers.len(), |k: int| layers[k].len())
}

/// Folds a proof back up from node `h` at position `cur`, given the length of
/// every layer from here to the top: on each layer but the top, the next proof
/// node is hashed in on the side its position gives, or, where the sibling is
/// past the end of the layer, the node is hashed with itself. `None` when the
/// proof runs out early or has nodes left over at the top.
pub open spec fn fold_keccak_proof(
    h: KeccakHash,
    cur: nat,
    lens: Seq<nat>,
    proof: Seq<KeccakHash>,
) -> Option<KeccakHash>
    decreases lens.len(),
{
    if lens.len() <= 1 {
        if proof.len() == 0 {
            Some(h)
        } else {
            None
        }
    } else {
        let sib: nat = if cur % 2 != 0 {
            (cur - 1) as nat
        } else {
            cur + 1
        };
        if sib < lens[0] {
            if proof.len() == 0 {
                None
            } else {
                let s = proof[0];
                let up = if cur % 2 != 0 {
                    pair_hash(s, h)
                } else {
                    pair_hash(h, s)
                };
                fold_keccak_proof(up, cur / 2, lens.drop_first(), proof.drop_first())
            }
        } else {
            fold_keccak_proof(pair_hash(h, h), cur / 2, lens.drop_first(), proof)
        }
    }
}

proof fn lemma_proof_from_shift(
    bottom: Seq<KeccakHash>,
    above: Seq<Seq<KeccakHash>>,
    i: nat,
    cur: nat,
)
    ensures
        proof_from(seq![bottom] + above, i + 1, cur) == proof_from(above, i, cur),
    decreases above.len() - i,
{
    if i + 1 < above.len() {
        assert((seq![bottom] + above)[i + 1int] == above[i as int]);
        lemma_proof_from_shift(bottom, above, i + 1, cur / 2);
    }
}

proof fn lemma_fold_layer(layer: Seq<KeccakHash>, idx: nat)
    requires
        layer.len() > 0,
        idx < layer.len(),
    ensures
        fold_keccak_proof(
            layer[idx as int],
            idx,
            layer_lens(tree_layers(layer)),
            proof_from(tree_layers(layer), 0, idx),
        ) == Some(tree_layers(layer).last()[0]),
    decreases layer.len(),
{
    let tl = tree_layers(layer);
    if layer.len() <= 1 {
        assert(tl =~= seq![layer]);
        assert(layer_lens(tl).len() == 1);
    } else {
        let nl = next_layer(layer);
        lemma_next_layer_shorter(layer);
        assert(tl =~= seq![layer] + tree_layers(nl));
        let tn = tree_layers(nl);
        assert(layer_lens(tl).drop_first() =~= layer_lens(tn));
        assert(layer_lens(tl)[0] == layer.len());
        assert(tl.last() == tn.last());
        lemma_proof_from_shift(layer, tn, 0, idx / 2);
        let p = padded(layer);
        assert(idx / 2 < nl.len());
        lemma_fold_layer(nl, idx / 2);
        if idx % 2 != 0 {
            assert(2 * (idx / 2) == idx - 1);
        } else {
            assert(2 * (idx / 2) == idx);
        }
        let sib: nat = if idx % 2 != 0 {
            (idx - 1) as nat
        } else {
            idx + 1
        };
        let rest = proof_from(tl, 1, idx / 2);
        if sib < layer.len() {
            assert(proof_from(tl, 0, idx) =~= seq![layer[sib as int]] + rest);
            assert(proof_from(tl, 0, idx).drop_first() =~= rest);
        } else {
            assert(proof_from(tl, 0, idx) =~= rest);
            assert(p[idx + 1int] == layer[idx as int]);
        }
    }
}

/// Every leaf's proof folds back to the root: starting from leaf `index` and
/// hashing in the proof nodes layer by layer (a node without a sibling is
/// hashed with itself) uses the whole proof and ends at the top node.
pub proof fn lemma_keccak_proof_folds_to_root(t: KeccakMerkleTree, index: nat)
    requires
        t.wf(),
        index < t.leaves@.len(),
    ensures
        fold_keccak_proof(
            t.leaves@[index as int],
            index,
            layer_lens(t.layers_view()),
            proof_from(t.layers_view(), 0, index),
        ) == Some(t.layers_view().last()[0]),
{
    lemma_fold_layer(t.leaves@, index);
}

/// A binary Keccak Merkle tree over the transactions of one batch.
#[derive(Debug, Clone)]
pub struct KeccakMerkleTree {
    pub leaves: Vec<KeccakHash>,
    pub layers: Vec<Vec<KeccakHash>>,
}

proof fn lemma_next_layer_shorter(layer: Seq<KeccakHash>)
    requires
        layer.len() > 1,
    ensures
        next_layer(layer).len() < layer.len(),
        next_layer(layer).len() > 0,
{
}

proof fn lemma_last_layer_nonempty(layer: Seq<KeccakHash>)
    requires
        layer.len() > 0,
    ensures
        tree_layers(layer).last().len() > 0,
    decreases layer.len(),
{
    if layer.len() > 1 {
        lemma_next_layer_shorter(layer);
        lemma_last_layer_nonempty(next_layer(layer));
        assert(tree_layers(layer) =~= seq![layer] + tree_layers(next_layer(layer)));
    } else {
        assert(tree_layers(layer) =~= seq![layer]);
    }
}

impl KeccakMerkleTree {
    /// The layers as sequences of nodes.
    pub open spec fn layers_view(&self) -> Seq<Seq<KeccakHash>> {
        self.layers@.map_values(|l: Vec<KeccakHash>| l@)
    }

    /// The tree is the full Keccak tree over its (non-empty) leaves.
    pub open spec fn wf(&self) -> bool {
        &&& self.leaves@.len() > 0
        &&& self.layers_view() == tree_layers(self.leaves@)
    }

    /// Builds the tree over a batch of exactly `BATCH_SIZE` transactions; leaf `i`
    /// is the Keccak-256 of transaction `i`.
    pub fn new(transactions: Vec<Vec<u8>>) -> (res: Self)
        requires
            transactions@.len() == BATCH_SIZE,
        ensures
            res.wf(),
            res.leaves@.len() == BATCH_SIZE,
            forall|i: int|
                0 <= i < BATCH_SIZE ==> #[trigger] res.leaves@[i] == KeccakHash(
                    keccak256(transactions@[i]@),
                ),
    {
        let mut leaves: Vec<KeccakHash> = Vec::new();
        let mut i: usize = 0;
        while i < transactions.len()
            invariant
                0 <= i <= transactions@.len(),
                leaves@.len() == i,
                forall|j: int|
                    0 <= j < i ==> #[trigger] leaves@[j] == KeccakHash(
                        keccak256(transactions@[j]@),
                    ),
            decreases transactions@.len() - i,
        {
            leaves.push(calculate_keccak_hash(transactions[i].as_slice()));
            i += 1;
        }
        let first = copy_layer(&leaves);
        let mut layers: Vec<Vec<KeccakHash>> = Vec::new();
        layers.push(first);
        let mut tree = Self { leaves, layers };
        proof {
            assert(tree.layers_view() =~= seq![tree.leaves@]);
        }
        tree.build_tree();
        tree
    }

    fn build_tree(&mut self)
        requires
            old(self).leaves@.len() > 0,
            old(self).layers_view() == seq![old(self).leaves@],
        ensures
            final(self).leaves == old(self).leaves,
            final(self).wf(),
    {
        proof {
            assert(self.layers_view().len() == 1);
            assert(self.layers@.len() == 1);
        }
        let mut current_layer = copy_layer(&self.layers[0]);
        proof {
            assert(self.layers_view()[0] == self.layers@[0]@);
        }
        while current_layer.len() > 1
            invariant
                self.leaves == old(self).leaves,
                self.leaves@.len() > 0,
                self.layers_view().len() > 0,
                self.layers_view().last() == current_layer@,
                tree_layers(self.leaves@) == self.layers_view() + layers_above(current_layer@),
            decreases current_layer@.len(),
        {
            let ghost cur0 = current_layer@;
            let mut next_layer_v: Vec<KeccakHash> = Vec::new();
            if current_layer.len() % 2 != 0 {
                let last = current_layer[current_layer.len() - 1];
                current_layer.push(last);
            }
            assert(current_layer@ == padded(cur0));
            let mut i: usize = 0;
            while i < current_layer.len()
                invariant
                    current_layer@ == padded(cur0),
                    current_layer@.len() % 2 == 0,
                    i % 2 == 0,
                    0 <= i <= current_layer@.len(),
                    next_layer_v@ =~= next_layer(cur0).take(i as int / 2),
                decreases current_layer@.len() - i,
            {
                let combined = concat_pair(&current_layer[i], &current_layer[i + 1]);
                next_layer_v.push(calculate_keccak_hash(&combined));
                proof {
                    assert(next_layer_v@ =~= next_layer(cur0).take((i + 2) as int / 2));
                }
                i += 2;
            }
            proof {
                lemma_next_layer_shorter(cur0);
                assert(next_layer_v@ =~= next_layer(cur0));
                assert(layers_above(cur0) == seq![next_layer(cur0)] + layers_above(
                    next_layer(cur0),
                ));
            }
            let pushed = copy_layer(&next_layer_v);
            let ghost before = self.layers_view();
            self.layers.push(pushed);
            proof {
                assert(self.layers_view() =~= before.push(next_layer_v@));
                assert(before + layers_above(cur0) =~= self.layers_view() + layers_above(
                    next_layer_v@,
                ));
            }
            current_layer = next_layer_v;
        }
        proof {
            assert(layers_above(current_layer@) =~= Seq::<Seq<KeccakHash>>::empty());
            assert(self.layers_view() + layers_above(current_layer@) =~= self.layers_view());
        }
    }

    /// The single node of the top layer.
    pub fn get_root(&self) -> (res: KeccakHash)
        requires
            self.wf(),
        ensures
            res == self.layers_view().last()[0],
    {
        proof {
            lemma_last_layer_nonempty(self.leaves@);
            assert(self.layers_view().len() > 0);
            let n = self.layers_view().len() - 1;
            assert(self.layers_view()[n] == self.layers@[n]@);
        }
        let top = &self.layers[self.layers.len() - 1];
        top[0]
    }

    /// The siblings of leaf `index` on every layer below the top, bottom-up; a
    /// sibling past the end of its layer is left out.
    pub fn get_proof(&self, index: usize) -> (res: Vec<KeccakHash>)
        requires
            self.wf(),
        ensures
            res@ == proof_from(self.layers_view(), 0, index as nat),
    {
        let mut proof_nodes: Vec<KeccakHash> = Vec::new();
        let mut current_index = index;
        let mut i: usize = 0;
        proof {
            assert(self.layers_view().len() > 0);
        }
        while i < self.layers.len() - 1
            invariant
                self.layers_view().len() > 0,
                0 <= i <= self.layers@.len() - 1,
                proof_nodes@ + proof_from(self.layers_view(), i as nat, current_index as nat)
                    == proof_from(self.layers_view(), 0, index as nat),
            decreases self.layers@.len() - i,
        {
            let layer = &self.layers[i];
            proof {
                assert(self.layers_view()[i as int] == layer@);
            }
            let is_right_node = current_index % 2 != 0;
            let sibling_index = if is_right_node {
                current_index - 1
            } else {
                current_index + 1
            };
            let ghost before = proof_nodes@;
            if sibling_index < layer.len() {
                proof_nodes.push(layer[sibling_index]);
            }
            proof {
                let rest = proof_from(self.layers_view(), (i + 1) as nat, (current_index / 2) as nat);
                assert(before + proof_from(self.layers_view(), i as nat, current_index as nat)
                    =~= proof_nodes@ + rest);
            }
            current_index = current_index / 2;
            i += 1;
        }
        proof {
            assert(proof_from(self.layers_view(), i as nat, current_index as nat)
                =~= Seq::<KeccakHash>::empty());
            assert(proof_nodes@ + Seq::<KeccakHash>::empty() =~= proof_nodes@);
        }
        proof_nodes
    }
}

/// An element-by-element copy of a layer.
fn copy_layer(v: &Vec<KeccakHash>) -> (res: Vec<KeccakHash>)
    ensures
        res@ == v@,
{
    let mut out: Vec<KeccakHash> = Vec::new();
    let mut i: usize = 0;
    while i < v.len()
        invariant
            0 <= i <= v@.len(),
            out@ =~= v@.take(i as int),
        decreases v@.len() - i,
    {
        out.push(v[i]);
        i += 1;
    }
    assert(out@ =~= v@);
    out
}

/// The 64 bytes `left || right`.
fn concat_pair(left: &KeccakHash, right: &KeccakHash) -> (res: [u8; 64])
    ensures
        res@ == left.0@ + right.0@,
{
    let mut combined = [0u8; 64];
    let mut k: usize = 0;
    while k < 32
        invariant
            0 <= k <= 32,
            combined@.len() == 64,
            forall|j: int| 0 <= j < k ==> #[trigger] combined@[j] == left.0@[j],
            forall|j: int| 32 <= j < 32 + k ==> #[trigger] combined@[j] == right.0@[j - 32],
        decreases 32 - k,
    {
        combined[k] = left.0[k];
        combined[32 + k] = right.0[k];
        k += 1;
    }
    assert(combined@ =~= left.0@ + right.0@);
    combined
}

} // verus!
