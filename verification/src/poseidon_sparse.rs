use vstd::prelude::*;
use vstd::arithmetic::div_mod::{lemma_div_denominator, lemma_fundamental_div_mod_converse};
use vstd::arithmetic::power2::{pow2, lemma_pow2_pos, lemma_pow2_unfold};
use std::collections::HashMap;

use crate::account::AccountState;
use crate::bytes::{be_bytes, u128_be32};
use crate::crypto_utils::{poseidon2, poseidon3, poseidon_hash_three, poseidon_hash_two};
use crate::hashes::PoseidonHash;
use crate::merkle_proof::fold_path;

verus! {

broadcast use vstd::std_specs::hash::group_hash_axioms;

/// Number of distinct node positions per level in the cache key space (2^64).
pub open spec fn level_span() -> nat {
    0x1_0000_0000_0000_0000
}

/// The cache key of the node at (`level`, `index`): `level * 2^64 + index`.
pub open spec fn cache_key(level: nat, index: nat) -> u128 {
    (level * level_span() + index) as u128
}

/// The level encoded in a cache key.
pub open spec fn key_level(k: u128) -> nat {
    (k as nat) / level_span()
}

/// The position encoded in a cache key.
pub open spec fn key_index(k: u128) -> nat {
    (k as nat) % level_span()
}

/// The other child of the same parent.
pub open spec fn sibling_index(j: nat) -> nat {
    if j % 2 == 1 {
        (j - 1) as nat
    } else {
        j + 1
    }
}

/// The position at `level` on the path from leaf `index` to the root.
pub open spec fn cur_at(index: nat, level: nat) -> nat
    decreases level,
{
    if level == 0 {
        index
    } else {
        cur_at(index, (level - 1) as nat) / 2
    }
}

/// The parent of a node at position `cur`, given the node and its sibling.
pub open spec fn combine(cur: nat, h: PoseidonHash, sib: PoseidonHash) -> PoseidonHash {
    if cur % 2 == 1 {
        poseidon2(sib.0, h.0)
    } else {
        poseidon2(h.0, sib.0)
    }
}

/// The all-zero leaf.
pub open spec fn zero_hash() -> PoseidonHash {
    PoseidonHash(
        [0u8, 0u8, 0u8, 0u8, 0u8, 0u8, 0u8, 0u8, 0u8, 0u8, 0u8, 0u8, 0u8, 0u8, 0u8, 0u8, 0u8,
        0u8, 0u8, 0u8, 0u8, 0u8, 0u8, 0u8, 0u8, 0u8, 0u8, 0u8, 0u8, 0u8, 0u8, 0u8],
    )
}

/// The root of an empty subtree of height `level`.
pub open spec fn default_node(level: nat) -> PoseidonHash
    decreases level,
{
    if level == 0 {
        zero_hash()
    } else {
        let d = default_node((level - 1) as nat);
        poseidon2(d.0, d.0)
    }
}

/// The 32-byte big-endian encoding of `n`, as an array.
pub open spec fn be32(n: nat) -> [u8; 32] {
    choose|a: [u8; 32]| a@ == be_bytes(n, 32)
}

/// The leaf that commits to an account: Poseidon(address, balance, nonce), where
/// address = Poseidon(pubkey_x, pubkey_y).
pub open spec fn leaf_of(account: AccountState) -> PoseidonHash {
    poseidon3(
        poseidon2(account.l2_pubkey_x, account.l2_pubkey_y).0,
        be32(account.balance as nat),
        be32(account.nonce as nat),
    )
}

/// The mathematical content of a sparse tree: root, depth, cached nodes and the
/// empty-subtree roots.
pub struct SmtView {
    pub root: PoseidonHash,
    pub depth: nat,
    pub cache: Map<u128, PoseidonHash>,
    pub defaults: Seq<PoseidonHash>,
}

impl SmtView {
    /// The node at (`level`, `index`): the cached one, or the empty-subtree root.
    pub open spec fn node(self, level: nat, index: nat) -> PoseidonHash {
        if self.cache.contains_key(cache_key(level, index)) {
            self.cache[cache_key(level, index)]
        } else {
            self.defaults[level as int]
        }
    }

    /// The node at `level` on the path of leaf `index` once that leaf is `leaf`,
    /// with every sibling taken from this tree.
    pub open spec fn path_hash(self, index: nat, leaf: PoseidonHash, level: nat) -> PoseidonHash
        decreases level,
    {
        if level == 0 {
            leaf
        } else {
            let l = (level - 1) as nat;
            let c = cur_at(index, l);
            combine(c, self.path_hash(index, leaf, l), self.node(l, sibling_index(c)))
        }
    }

    /// Whether key `k` names a node on the path of leaf `index` at a level up to `upto`.
    pub open spec fn is_path_key(self, index: nat, upto: nat, k: u128) -> bool {
        key_level(k) <= upto && key_index(k) == cur_at(index, key_level(k))
    }

    /// The cache once the path nodes of leaf `index` up to level `upto` are written.
    pub open spec fn cache_upto(self, index: nat, leaf: PoseidonHash, upto: nat) -> Map<
        u128,
        PoseidonHash,
    > {
        Map::new(
            |k: u128| self.cache.contains_key(k) || self.is_path_key(index, upto, k),
            |k: u128|
                if self.is_path_key(index, upto, k) {
                    self.path_hash(index, leaf, key_level(k))
                } else {
                    self.cache[k]
                },
        )
    }

    /// The tree after leaf `index` is set to `leaf` and its path recomputed.
    pub open spec fn update(self, index: nat, leaf: PoseidonHash) -> SmtView {
        SmtView {
            root: self.path_hash(index, leaf, self.depth),
            depth: self.depth,
            cache: self.cache_upto(index, leaf, self.depth),
            defaults: self.defaults,
        }
    }

    /// The invariant every tree built by `new` and `update` keeps: one empty-subtree
    /// root per level, each the hash of two copies of the one below; every written
    /// node has its parent written; and every written inner node is the hash of
    /// its two children.
    pub open spec fn wf(self) -> bool {
        &&& self.defaults.len() == self.depth + 1
        &&& self.depth < level_span()
        &&& forall|l: int|
            0 < l <= self.depth ==> #[trigger] self.defaults[l] == poseidon2(
                self.defaults[l - 1].0,
                self.defaults[l - 1].0,
            )
        &&& forall|l: nat, i: nat|
            l < self.depth && i < level_span() && #[trigger] self.cache.contains_key(
                cache_key(l, i),
            ) ==> self.cache.contains_key(cache_key(l + 1, i / 2))
        &&& forall|l: nat, j: nat|
            l < self.depth && j < level_span() && #[trigger] self.cache.contains_key(
                cache_key(l + 1, j),
            ) ==> j < 0x8000_0000_0000_0000 && self.cache[cache_key(l + 1, j)] == poseidon2(
                self.node(l, 2 * j).0,
                self.node(l, 2 * j + 1).0,
            )
        &&& forall|l: nat, i: nat|
            l < level_span() && i < level_span() && #[trigger] self.cache.contains_key(
                cache_key(l, i),
            ) ==> i * pow2(l) < level_span()
    }

    /// The root field is the top node of the tree.
    pub open spec fn rooted(self) -> bool {
        self.root == self.node(self.depth, 0)
    }

    /// The siblings of leaf `index`, bottom-up.
    pub open spec fn siblings_of(self, index: nat) -> Seq<PoseidonHash> {
        Seq::new(self.depth, |l: int| self.node(l as nat, sibling_index(cur_at(index, l as nat))))
    }
}

/// A fresh tree of the given depth.
pub open spec fn empty_tree(depth: nat) -> SmtView {
    SmtView {
        root: default_node(depth),
        depth: depth,
        cache: Map::empty(),
        defaults: Seq::new(depth + 1, |i: int| default_node(i as nat)),
    }
}

/// A fixed-depth sparse Poseidon Merkle tree; absent nodes are empty-subtree roots.
#[derive(Debug, Clone)]
pub struct PoseidonMerkleTree {
    pub root: PoseidonHash,
    pub depth: usize,
    /// Written nodes, keyed by `level * 2^64 + index` (one `u128` per
    /// (level, index) pair: vstd models `HashMap` lookups for integer keys, not
    /// for tuples).
    pub node_cache: HashMap<u128, PoseidonHash>,
    pub default_nodes: Vec<PoseidonHash>,
}

impl View for PoseidonMerkleTree {
    type V = SmtView;

    open spec fn view(&self) -> SmtView {
        SmtView {
            root: self.root,
            depth: self.depth as nat,
            cache: self.node_cache@,
            defaults: self.default_nodes@,
        }
    }
}

proof fn lemma_key_decode(level: nat, index: nat)
    requires
        level < level_span(),
        index < level_span(),
    ensures
        key_level(cache_key(level, index)) == level,
        key_index(cache_key(level, index)) == index,
{
    assert(level * level_span() + index < 0x1_0000_0000_0000_0000_0000_0000_0000_0000) by (nonlinear_arith)
        requires
            level < level_span(),
            index < level_span(),
            level_span() == 0x1_0000_0000_0000_0000nat,
    ;
    lemma_fundamental_div_mod_converse(
        (level * level_span() + index) as int,
        level_span() as int,
        level as int,
        index as int,
    );
}

proof fn lemma_key_encode(k: u128)
    ensures
        k == cache_key(key_level(k), key_index(k)),
        key_index(k) < level_span(),
        key_level(k) < level_span(),
{
    let q = (k as nat) / level_span();
    let r = (k as nat) % level_span();
    assert((k as nat) == q * level_span() + r && r < level_span() && q < level_span()) by (nonlinear_arith)
        requires
            q == (k as nat) / level_span(),
            r == (k as nat) % level_span(),
            level_span() == 0x1_0000_0000_0000_0000nat,
            k < 0x1_0000_0000_0000_0000_0000_0000_0000_0000,
    ;
}

proof fn lemma_cur_bound(index: nat, level: nat)
    requires
        index < level_span(),
    ensures
        cur_at(index, level) <= index,
        level > 0 ==> cur_at(index, level) < 0x8000_0000_0000_0000,
    decreases level,
{
    if level > 0 {
        lemma_cur_bound(index, (level - 1) as nat);
    }
}

/// Exec computation of `cache_key`.
fn node_key(level: usize, index: u64) -> (k: u128)
    ensures
        k == cache_key(level as nat, index as nat),
{
    let l = level as u128;
    assert(l * 0x1_0000_0000_0000_0000u128 + (index as u128) < 0x1_0000_0000_0000_0000_0000_0000_0000_0000) by (nonlinear_arith)
        requires
            l < 0x1_0000_0000_0000_0000,
            index < 0x1_0000_0000_0000_0000,
    ;
    l * 0x1_0000_0000_0000_0000u128 + (index as u128)
}

impl PoseidonMerkleTree {
    /// The shape every method relies on: one empty-subtree root per level.
    pub open spec fn shape_ok(&self) -> bool {
        self.default_nodes@.len() == self.depth + 1
    }

    /// An empty tree of the given depth: no written node, root = empty root.
    pub fn new(depth: usize) -> (res: Self)
        requires
            depth < usize::MAX,
        ensures
            res.shape_ok(),
            res@.depth == depth,
            res@.cache == Map::<u128, PoseidonHash>::empty(),
            res@.defaults == Seq::new((depth + 1) as nat, |i: int| default_node(i as nat)),
            res@.root == default_node(depth as nat),
            res@ == empty_tree(depth as nat),
            res@.wf(),
            res@.rooted(),
            forall|j: nat| #[trigger] res@.node(0, j) == zero_hash(),
    {
        let default_nodes = Self::build_default_nodes(depth);
        let root = default_nodes[depth];
        let tree = PoseidonMerkleTree { root, depth, node_cache: HashMap::new(), default_nodes };
        proof {
            assert forall|l: int| 0 < l <= tree@.depth implies #[trigger] tree@.defaults[l]
                == poseidon2(tree@.defaults[l - 1].0, tree@.defaults[l - 1].0) by {
                assert(tree@.defaults[l] == default_node(l as nat));
                assert(tree@.defaults[l - 1] == default_node((l - 1) as nat));
            }
            assert(tree@ =~= empty_tree(depth as nat));
        }
        tree
    }

    fn build_default_nodes(depth: usize) -> (nodes: Vec<PoseidonHash>)
        requires
            depth < usize::MAX,
        ensures
            nodes@ == Seq::new((depth + 1) as nat, |i: int| default_node(i as nat)),
    {
        let mut nodes: Vec<PoseidonHash> = Vec::new();
        nodes.push(PoseidonHash([0u8; 32]));
        proof {
            assert(nodes@[0].0 =~= zero_hash().0);
        }
        let mut i: usize = 0;
        while i < depth
            invariant
                0 <= i <= depth,
                nodes@.len() == i + 1,
                forall|j: int| 0 <= j <= i ==> #[trigger] nodes@[j] == default_node(j as nat),
            decreases depth - i,
        {
            let next = poseidon_hash_two(&nodes[i], &nodes[i]);
            nodes.push(next);
            i += 1;
        }
        assert(nodes@ =~= Seq::new((depth + 1) as nat, |i: int| default_node(i as nat)));
        nodes
    }

    /// Commitment of an account's balance and nonce under its key-derived address.
    pub fn hash_leaf(account: &AccountState) -> (res: PoseidonHash)
        ensures
            res == leaf_of(*account),
    {
        let pk_x = PoseidonHash(account.l2_pubkey_x);
        let pk_y = PoseidonHash(account.l2_pubkey_y);
        let address = poseidon_hash_two(&pk_x, &pk_y);
        let balance_bytes = u128_be32(account.balance);
        let nonce_bytes = u128_be32(account.nonce as u128);
        proof {
            let b = be32(account.balance as nat);
            let n = be32(account.nonce as nat);
            assert(b@ == be_bytes(account.balance as nat, 32));
            assert(balance_bytes =~= b);
            assert(n@ == be_bytes(account.nonce as nat, 32));
            assert(nonce_bytes =~= n);
        }
        poseidon_hash_three(&address.0, &balance_bytes, &nonce_bytes)
    }

    /// Sets leaf `index` to the account's commitment, rewrites the nodes on its
    /// path, and returns the new root.
    pub fn update_leaf_from_account(&mut self, index: u64, account: &AccountState) -> (res:
        PoseidonHash)
        requires
            old(self).shape_ok(),
        ensures
            final(self).shape_ok(),
            final(self)@ == old(self)@.update(index as nat, leaf_of(*account)),
            res == final(self).root,
            final(self).depth == old(self).depth,
            final(self).default_nodes@ == old(self).default_nodes@,
            final(self)@.node(0, index as nat) == leaf_of(*account),
            forall|j: nat|
                j < level_span() && j != index ==> #[trigger] final(self)@.node(0, j) == old(
                    self,
                )@.node(0, j),
            old(self)@.wf() ==> final(self)@.wf(),
            old(self)@.wf() && old(self)@.rooted() && (index as nat) < pow2(old(self)@.depth)
                ==> final(self)@.rooted(),
    {
        let ghost v0 = self@;
        let ghost leaf = leaf_of(*account);
        let leaf_hash = Self::hash_leaf(account);
        let k0 = node_key(0, index);
        self.node_cache.insert(k0, leaf_hash);
        proof {
            lemma_key_decode(0, index as nat);
            assert forall|k: u128| true implies v0.is_path_key(index as nat, 0, k) == (k == k0) by {
                lemma_key_encode(k);
            }
            assert(self.node_cache@ =~= v0.cache_upto(index as nat, leaf, 0));
        }
        let mut current_hash = leaf_hash;
        let mut current_index = index;
        let mut level: usize = 0;
        while level < self.depth
            invariant
                0 <= level <= self.depth,
                self.depth == v0.depth,
                self.default_nodes@ == v0.defaults,
                self.root == v0.root,
                v0.defaults.len() == v0.depth + 1,
                current_index as nat == cur_at(index as nat, level as nat),
                current_hash == v0.path_hash(index as nat, leaf, level as nat),
                self.node_cache@ == v0.cache_upto(index as nat, leaf, level as nat),
            decreases self.depth - level,
        {
            let is_right = current_index % 2 == 1;
            let sib_index = if is_right {
                current_index - 1
            } else {
                current_index + 1
            };
            let sk = node_key(level, sib_index);
            let sibling = match self.node_cache.get(&sk) {
                Some(v) => *v,
                None => self.default_nodes[level],
            };
            proof {
                lemma_key_decode(level as nat, sib_index as nat);
                assert(!v0.is_path_key(index as nat, level as nat, sk));
                assert(sibling == v0.node(level as nat, sibling_index(current_index as nat)));
            }
            current_hash =
                if is_right {
                    poseidon_hash_two(&sibling, &current_hash)
                } else {
                    poseidon_hash_two(&current_hash, &sibling)
                };
            current_index = current_index / 2;
            let pk = node_key(level + 1, current_index);
            self.node_cache.insert(pk, current_hash);
            proof {
                let next = (level + 1) as nat;
                lemma_key_decode(next, current_index as nat);
                assert forall|k: u128| true implies v0.is_path_key(index as nat, next, k) == (
                v0.is_path_key(index as nat, level as nat, k) || k == pk) by {
                    lemma_key_encode(k);
                }
                assert(self.node_cache@ =~= v0.cache_upto(index as nat, leaf, next));
            }
            level += 1;
        }
        self.root = current_hash;
        proof {
            assert(self@ == v0.update(index as nat, leaf));
            assert forall|j: nat| j < level_span() implies #[trigger] self@.node(0, j) == (if j
                == index {
                leaf
            } else {
                v0.node(0, j)
            }) by {
                lemma_update_read_back(v0, index as nat, leaf, j);
            }
            lemma_update_read_back(v0, index as nat, leaf, index as nat);
            if v0.wf() {
                lemma_update_preserves_wf(v0, index as nat, leaf);
            }
        }
        self.root
    }

    /// The siblings of leaf `index`, bottom-up, one per level.
    pub fn get_proof(&self, index: u64) -> (res: Vec<PoseidonHash>)
        requires
            self.shape_ok(),
        ensures
            res@ == self@.siblings_of(index as nat),
            self@.wf() && self@.rooted() && (index as nat) < pow2(self@.depth) ==> fold_path(
                self@.node(0, index as nat),
                index as nat,
                res@,
            ) == self.root,
    {
        let mut path: Vec<PoseidonHash> = Vec::with_capacity(self.depth);
        let mut current_index = index;
        let mut level: usize = 0;
        while level < self.depth
            invariant
                0 <= level <= self.depth,
                self.shape_ok(),
                current_index as nat == cur_at(index as nat, level as nat),
                path@ == self@.siblings_of(index as nat).take(level as int),
            decreases self.depth - level,
        {
            let is_right = current_index % 2 == 1;
            let sib_index = if is_right {
                current_index - 1
            } else {
                current_index + 1
            };
            let sk = node_key(level, sib_index);
            let sibling = match self.node_cache.get(&sk) {
                Some(v) => *v,
                None => self.default_nodes[level],
            };
            path.push(sibling);
            proof {
                assert(path@ =~= self@.siblings_of(index as nat).take(level + 1));
            }
            current_index = current_index / 2;
            level += 1;
        }
        assert(path@ =~= self@.siblings_of(index as nat));
        proof {
            if self@.wf() && self@.rooted() && (index as nat) < pow2(self@.depth) {
                lemma_every_leaf_proof_verifies(self@, index as nat);
            }
        }
        path
    }
}


proof fn lemma_update_node(t: SmtView, index: nat, leaf: PoseidonHash, l: nat, x: nat)
    requires
        index < level_span(),
        l < level_span(),
        x < level_span(),
    ensures
        t.update(index, leaf).node(l, x) == (if l <= t.depth && x == cur_at(index, l) {
            t.path_hash(index, leaf, l)
        } else {
            t.node(l, x)
        }),
        t.update(index, leaf).cache.contains_key(cache_key(l, x)) == (t.cache.contains_key(
            cache_key(l, x),
        ) || (l <= t.depth && x == cur_at(index, l))),
{
    lemma_key_decode(l, x);
}

proof fn lemma_cur_at_div(index: nat, l: nat)
    ensures
        cur_at(index, l) == index / pow2(l),
    decreases l,
{
    if l == 0 {
        assert(pow2(0) == 1) by {
            reveal(pow2);
            vstd::arithmetic::power::lemma_pow0(2);
        }
        assert(index / 1nat == index) by (nonlinear_arith);
    } else {
        lemma_cur_at_div(index, (l - 1) as nat);
        lemma_pow2_unfold(l);
        lemma_pow2_pos((l - 1) as nat);
        lemma_div_denominator(index as int, pow2((l - 1) as nat) as int, 2);
        assert(pow2((l - 1) as nat) * 2 == 2 * pow2((l - 1) as nat)) by (nonlinear_arith);
    }
}

proof fn lemma_cur_at_top(index: nat, depth: nat)
    requires
        index < pow2(depth),
    ensures
        cur_at(index, depth) == 0,
{
    lemma_cur_at_div(index, depth);
    lemma_pow2_pos(depth);
    assert(index / pow2(depth) == 0) by (nonlinear_arith)
        requires
            index < pow2(depth),
            pow2(depth) > 0,
    ;
}

/// In a well-formed tree every inner node is the hash of its two children,
/// written or not.
proof fn lemma_node_consistent(t: SmtView, l: nat, j: nat)
    requires
        t.wf(),
        l < t.depth,
        j < 0x8000_0000_0000_0000,
    ensures
        t.node(l + 1, j) == poseidon2(t.node(l, 2 * j).0, t.node(l, 2 * j + 1).0),
{
    if !t.cache.contains_key(cache_key(l + 1, j)) {
        assert((2 * j) / 2 == j);
        assert((2 * j + 1) / 2 == j);
        if t.cache.contains_key(cache_key(l, 2 * j)) {
            assert(t.cache.contains_key(cache_key(l + 1, (2 * j) / 2)));
        }
        if t.cache.contains_key(cache_key(l, 2 * j + 1)) {
            assert(t.cache.contains_key(cache_key(l + 1, (2 * j + 1) / 2)));
        }
        assert(t.defaults[(l + 1) as int] == poseidon2(t.defaults[l as int].0, t.defaults[l as int].0));
    }
}

proof fn lemma_updated_fold_from(t: SmtView, index: nat, leaf: PoseidonHash, k: nat)
    requires
        index < level_span(),
        t.depth < level_span(),
        k <= t.depth,
    ensures
        fold_path(
            t.path_hash(index, leaf, k),
            cur_at(index, k),
            t.update(index, leaf).siblings_of(index).skip(k as int),
        ) == t.path_hash(index, leaf, t.depth),
    decreases t.depth - k,
{
    let sibs = t.update(index, leaf).siblings_of(index);
    if k == t.depth {
        assert(sibs.skip(k as int) =~= Seq::<PoseidonHash>::empty());
    } else {
        let c = cur_at(index, k);
        lemma_cur_bound(index, k);
        lemma_update_node(t, index, leaf, k, sibling_index(c));
        assert(sibs.skip(k as int).drop_first() =~= sibs.skip((k + 1) as int));
        assert(sibs.skip(k as int)[0] == t.node(k, sibling_index(c)));
        lemma_updated_fold_from(t, index, leaf, k + 1);
    }
}

/// Rewriting a leaf leaves its own siblings as they were: a path taken before
/// the update is the path after it.
pub proof fn lemma_update_keeps_own_siblings(t: SmtView, index: nat, leaf: PoseidonHash)
    requires
        index < level_span(),
        t.depth < level_span(),
    ensures
        t.update(index, leaf).siblings_of(index) == t.siblings_of(index),
        t.siblings_of(index).len() == t.depth,
{
    assert forall|l: int| 0 <= l < t.depth implies #[trigger] t.update(index, leaf).siblings_of(
        index,
    )[l] == t.siblings_of(index)[l] by {
        let c = cur_at(index, l as nat);
        lemma_cur_bound(index, l as nat);
        lemma_update_node(t, index, leaf, l as nat, sibling_index(c));
    }
    assert(t.update(index, leaf).siblings_of(index) =~= t.siblings_of(index));
}

/// Leaf `j` of the tree: the written one, or the empty leaf; positions from
/// 2^64 up (no `u64` index reaches them) are always empty.
pub open spec fn leaf_at(t: SmtView, j: nat) -> PoseidonHash {
    if j < level_span() {
        t.node(0, j)
    } else {
        t.defaults[0]
    }
}

/// The node at (`level`, `index`) computed bottom-up from the leaves of `t`:
/// a leaf is `leaf_at`, an inner node the hash of its two children.
pub open spec fn fold_node(t: SmtView, level: nat, index: nat) -> PoseidonHash
    decreases level,
{
    if level == 0 {
        leaf_at(t, index)
    } else {
        poseidon2(
            fold_node(t, (level - 1) as nat, 2 * index).0,
            fold_node(t, (level - 1) as nat, 2 * index + 1).0,
        )
    }
}

/// A subtree all of whose leaves lie from 2^64 up folds to the empty-subtree
/// root of its height.
proof fn lemma_fold_beyond(t: SmtView, level: nat, index: nat)
    requires
        t.wf(),
        level <= t.depth,
        index * pow2(level) >= level_span(),
    ensures
        fold_node(t, level, index) == t.defaults[level as int],
    decreases level,
{
    if level == 0 {
        assert(pow2(0) == 1) by {
            reveal(pow2);
            vstd::arithmetic::power::lemma_pow0(2);
        }
        assert(index * 1 == index);
    } else {
        let l = (level - 1) as nat;
        lemma_pow2_unfold(level);
        assert((2 * index) * pow2(l) == index * pow2(level)) by (nonlinear_arith)
            requires
                pow2(level) == 2 * pow2(l),
        ;
        assert((2 * index + 1) * pow2(l) >= (2 * index) * pow2(l)) by (nonlinear_arith);
        lemma_fold_beyond(t, l, 2 * index);
        lemma_fold_beyond(t, l, 2 * index + 1);
        assert(t.defaults[level as int] == poseidon2(t.defaults[level - 1].0, t.defaults[level - 1].0));
    }
}

proof fn lemma_node_is_fold(t: SmtView, level: nat, index: nat)
    requires
        t.wf(),
        level <= t.depth,
        index < level_span(),
    ensures
        t.node(level, index) == fold_node(t, level, index),
    decreases level,
{
    assert(level < level_span());
    if index * pow2(level) >= level_span() {
        lemma_fold_beyond(t, level, index);
        assert(!t.cache.contains_key(cache_key(level, index)));
    } else if level > 0 {
        let l = (level - 1) as nat;
        lemma_pow2_unfold(level);
        lemma_pow2_pos(l);
        assert(index < 0x8000_0000_0000_0000) by (nonlinear_arith)
            requires
                index * pow2(level) < 0x1_0000_0000_0000_0000,
                pow2(level) == 2 * pow2(l),
                pow2(l) >= 1,
        ;
        lemma_node_is_fold(t, l, 2 * index);
        lemma_node_is_fold(t, l, 2 * index + 1);
        if t.cache.contains_key(cache_key(level, index)) {
            assert(t.cache.contains_key(cache_key(l + 1, index)));
        } else {
            if t.cache.contains_key(cache_key(l, 2 * index)) {
                assert((2 * index) / 2 == index);
                assert(t.cache.contains_key(cache_key(l + 1, (2 * index) / 2)));
            }
            if t.cache.contains_key(cache_key(l, 2 * index + 1)) {
                assert((2 * index + 1) / 2 == index);
                assert(t.cache.contains_key(cache_key(l + 1, (2 * index + 1) / 2)));
            }
            assert(t.defaults[level as int] == poseidon2(
                t.defaults[level - 1].0,
                t.defaults[level - 1].0,
            ));
        }
    }
}

/// In every well-formed rooted tree the root is the bottom-up fold of its
/// leaves (an unwritten leaf being the empty leaf `defaults[0]`).
pub proof fn lemma_root_is_fold_of_leaves(t: SmtView)
    requires
        t.wf(),
        t.rooted(),
    ensures
        t.root == fold_node(t, t.depth, 0),
        forall|j: nat| !t.cache.contains_key(cache_key(0, j)) ==> #[trigger] t.node(0, j) == t.defaults[0],
{
    lemma_node_is_fold(t, t.depth, 0);
}

proof fn lemma_fold_same_leaves(t1: SmtView, t2: SmtView, level: nat, index: nat)
    requires
        forall|j: nat| #[trigger] leaf_at(t1, j) == leaf_at(t2, j),
    ensures
        fold_node(t1, level, index) == fold_node(t2, level, index),
    decreases level,
{
    if level > 0 {
        lemma_fold_same_leaves(t1, t2, (level - 1) as nat, 2 * index);
        lemma_fold_same_leaves(t1, t2, (level - 1) as nat, 2 * index + 1);
    } else {
        assert(leaf_at(t1, index) == leaf_at(t2, index));
    }
}

/// Two well-formed rooted trees of the same depth and empty leaf whose leaves
/// agree have the same root and give every leaf the same proof.
pub proof fn lemma_same_leaves_same_tree(t1: SmtView, t2: SmtView)
    requires
        t1.wf(),
        t2.wf(),
        t1.rooted(),
        t2.rooted(),
        t1.depth == t2.depth,
        t1.defaults[0] == t2.defaults[0],
        forall|j: nat| j < level_span() ==> #[trigger] t1.node(0, j) == t2.node(0, j),
    ensures
        t1.root == t2.root,
        forall|k: nat| k < level_span() ==> #[trigger] t1.siblings_of(k) == t2.siblings_of(k),
{
    let d = t1.depth;
    assert forall|j: nat| #[trigger] leaf_at(t1, j) == leaf_at(t2, j) by {
        if j < level_span() {
            assert(t1.node(0, j) == t2.node(0, j));
        }
    }
    assert forall|l: nat, x: nat| l <= d && x < level_span() implies #[trigger] t1.node(l, x)
        == t2.node(l, x) by {
        lemma_node_is_fold(t1, l, x);
        lemma_node_is_fold(t2, l, x);
        lemma_fold_same_leaves(t1, t2, l, x);
    }
    assert(t1.node(d, 0) == t2.node(d, 0));
    assert forall|k: nat| k < level_span() implies #[trigger] t1.siblings_of(k) == t2.siblings_of(k) by {
        assert forall|l: int| 0 <= l < d implies #[trigger] t1.siblings_of(k)[l] == t2.siblings_of(
            k,
        )[l] by {
            lemma_cur_bound(k, l as nat);
            let c = cur_at(k, l as nat);
            assert(sibling_index(c) < level_span());
        }
        assert(t1.siblings_of(k) =~= t2.siblings_of(k));
    }
}

/// Writing two distinct leaves gives the same tree in either order: the same
/// root, the same leaves, and the same proof for every leaf.
pub proof fn lemma_updates_commute(t: SmtView, i: nat, a: PoseidonHash, j: nat, b: PoseidonHash)
    requires
        t.wf(),
        t.rooted(),
        i < pow2(t.depth),
        j < pow2(t.depth),
        i < level_span(),
        j < level_span(),
        i != j,
    ensures
        t.update(i, a).update(j, b).root == t.update(j, b).update(i, a).root,
        forall|k: nat|
            k < level_span() ==> #[trigger] t.update(i, a).update(j, b).node(0, k) == t.update(
                j,
                b,
            ).update(i, a).node(0, k),
        forall|k: nat|
            k < level_span() ==> #[trigger] t.update(i, a).update(j, b).siblings_of(k)
                == t.update(j, b).update(i, a).siblings_of(k),
{
    let t1 = t.update(i, a).update(j, b);
    let t2 = t.update(j, b).update(i, a);
    lemma_update_preserves_wf(t, i, a);
    lemma_update_preserves_wf(t.update(i, a), j, b);
    lemma_update_preserves_wf(t, j, b);
    lemma_update_preserves_wf(t.update(j, b), i, a);
    assert forall|k: nat| k < level_span() implies #[trigger] t1.node(0, k) == t2.node(0, k) by {
        lemma_update_read_back(t, i, a, k);
        lemma_update_read_back(t.update(i, a), j, b, k);
        lemma_update_read_back(t, j, b, k);
        lemma_update_read_back(t.update(j, b), i, a, k);
    }
    lemma_same_leaves_same_tree(t1, t2);
}

/// Writing a leaf twice leaves the tree the last write alone gives: the same
/// root, the same leaves, and the same proof for every leaf (so writing the
/// same value twice changes nothing more than writing it once).
pub proof fn lemma_last_write_wins(t: SmtView, i: nat, a: PoseidonHash, b: PoseidonHash)
    requires
        t.wf(),
        t.rooted(),
        i < pow2(t.depth),
        i < level_span(),
    ensures
        t.update(i, a).update(i, b).root == t.update(i, b).root,
        t.update(i, a).update(i, b).node(0, i) == b,
        forall|k: nat|
            k < level_span() ==> #[trigger] t.update(i, a).update(i, b).node(0, k) == t.update(
                i,
                b,
            ).node(0, k),
        forall|k: nat|
            k < level_span() ==> #[trigger] t.update(i, a).update(i, b).siblings_of(k)
                == t.update(i, b).siblings_of(k),
{
    let t1 = t.update(i, a).update(i, b);
    let t2 = t.update(i, b);
    lemma_update_preserves_wf(t, i, a);
    lemma_update_preserves_wf(t.update(i, a), i, b);
    lemma_update_preserves_wf(t, i, b);
    assert forall|k: nat| k < level_span() implies #[trigger] t1.node(0, k) == t2.node(0, k) by {
        lemma_update_read_back(t, i, a, k);
        lemma_update_read_back(t.update(i, a), i, b, k);
        lemma_update_read_back(t, i, b, k);
    }
    lemma_update_read_back(t.update(i, a), i, b, i);
    lemma_same_leaves_same_tree(t1, t2);
}

/// After leaf `index` is set to `leaf`, its freshly computed proof leads from
/// `leaf` to the new root.
pub proof fn lemma_updated_leaf_proof_verifies(t: SmtView, index: nat, leaf: PoseidonHash)
    requires
        index < level_span(),
        t.depth < level_span(),
    ensures
        fold_path(leaf, index, t.update(index, leaf).siblings_of(index)) == t.update(
            index,
            leaf,
        ).root,
{
    lemma_updated_fold_from(t, index, leaf, 0);
    assert(t.update(index, leaf).siblings_of(index).skip(0) =~= t.update(index, leaf).siblings_of(index));
}

/// Setting leaf `index` keeps the tree well-formed, and keeps its root the top
/// node when `index` lies inside the tree.
pub proof fn lemma_update_preserves_wf(t: SmtView, index: nat, leaf: PoseidonHash)
    requires
        t.wf(),
        index < level_span(),
    ensures
        t.update(index, leaf).wf(),
        t.rooted() && index < pow2(t.depth) ==> t.update(index, leaf).rooted(),
{
    let u = t.update(index, leaf);
    assert forall|l: nat, i: nat|
        l < u.depth && i < level_span() && #[trigger] u.cache.contains_key(
            cache_key(l, i),
        ) implies u.cache.contains_key(cache_key(l + 1, i / 2)) by {
        lemma_update_node(t, index, leaf, l, i);
        lemma_update_node(t, index, leaf, l + 1, i / 2);
    }
    assert forall|l: nat, j: nat|
        l < u.depth && j < level_span() && #[trigger] u.cache.contains_key(
            cache_key(l + 1, j),
        ) implies j < 0x8000_0000_0000_0000 && u.cache[cache_key(l + 1, j)] == poseidon2(
        u.node(l, 2 * j).0,
        u.node(l, 2 * j + 1).0,
    ) by {
        lemma_update_node(t, index, leaf, l + 1, j);
        lemma_cur_bound(index, l);
        lemma_cur_bound(index, l + 1);
        let c = cur_at(index, l);
        if j == cur_at(index, l + 1) {
            assert(j == c / 2);
            lemma_update_node(t, index, leaf, l, c);
            lemma_update_node(t, index, leaf, l, sibling_index(c));
            if c % 2 == 0 {
                assert(c == 2 * j && sibling_index(c) == 2 * j + 1);
            } else {
                assert(c == 2 * j + 1 && sibling_index(c) == 2 * j);
            }
        } else {
            assert(t.cache.contains_key(cache_key(l + 1, j)));
            lemma_update_node(t, index, leaf, l, 2 * j);
            lemma_update_node(t, index, leaf, l, 2 * j + 1);
            assert((2 * j) / 2 == j);
            assert((2 * j + 1) / 2 == j);
        }
    }
    assert forall|l: nat, i: nat|
        l < level_span() && i < level_span() && #[trigger] u.cache.contains_key(
            cache_key(l, i),
        ) implies i * pow2(l) < level_span() by {
        lemma_update_node(t, index, leaf, l, i);
        if !t.cache.contains_key(cache_key(l, i)) {
            lemma_cur_at_div(index, l);
            lemma_pow2_pos(l);
            vstd::arithmetic::div_mod::lemma_fundamental_div_mod(index as int, pow2(l) as int);
            vstd::arithmetic::div_mod::lemma_mod_pos_bound(index as int, pow2(l) as int);
            assert(i * pow2(l) <= index) by (nonlinear_arith)
                requires
                    i == index / pow2(l),
                    index == pow2(l) * (index / pow2(l)) + index % pow2(l),
                    index % pow2(l) >= 0,
            ;
        }
    }
    if t.rooted() && index < pow2(t.depth) {
        lemma_cur_at_top(index, t.depth);
        lemma_update_node(t, index, leaf, t.depth, 0);
    }
}

proof fn lemma_fold_from(t: SmtView, index: nat, k: nat)
    requires
        t.wf(),
        index < level_span(),
        k <= t.depth,
    ensures
        fold_path(t.node(k, cur_at(index, k)), cur_at(index, k), t.siblings_of(index).skip(k as int))
            == t.node(t.depth, cur_at(index, t.depth)),
    decreases t.depth - k,
{
    let sibs = t.siblings_of(index);
    if k == t.depth {
        assert(sibs.skip(k as int) =~= Seq::<PoseidonHash>::empty());
    } else {
        let c = cur_at(index, k);
        lemma_cur_bound(index, k);
        assert(c / 2 < 0x8000_0000_0000_0000);
        lemma_node_consistent(t, k, c / 2);
        if c % 2 == 0 {
            assert(c == 2 * (c / 2) && sibling_index(c) == 2 * (c / 2) + 1);
        } else {
            assert(c == 2 * (c / 2) + 1 && sibling_index(c) == 2 * (c / 2));
        }
        assert(sibs.skip(k as int).drop_first() =~= sibs.skip((k + 1) as int));
        assert(sibs.skip(k as int)[0] == t.node(k, sibling_index(c)));
        lemma_fold_from(t, index, k + 1);
    }
}

/// In a well-formed, rooted tree the proof of every leaf inside the tree leads
/// from that leaf to the root.
pub proof fn lemma_every_leaf_proof_verifies(t: SmtView, index: nat)
    requires
        t.wf(),
        t.rooted(),
        index < pow2(t.depth),
        index < level_span(),
    ensures
        fold_path(t.node(0, index), index, t.siblings_of(index)) == t.root,
{
    lemma_fold_from(t, index, 0);
    assert(t.siblings_of(index).skip(0) =~= t.siblings_of(index));
    lemma_cur_at_top(index, t.depth);
}

/// Setting leaf `index` to `leaf` makes that leaf read back as `leaf` and
/// leaves every other leaf as it was.
pub proof fn lemma_update_read_back(t: SmtView, index: nat, leaf: PoseidonHash, other: nat)
    requires
        index < level_span(),
        other < level_span(),
    ensures
        t.update(index, leaf).node(0, index) == leaf,
        other != index ==> t.update(index, leaf).node(0, other) == t.node(0, other),
{
    lemma_update_node(t, index, leaf, 0, index);
    lemma_update_node(t, index, leaf, 0, other);
}

} // verus!
