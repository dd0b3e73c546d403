use vstd::prelude::*;

use crate::account::AccountState;
use crate::address_map::AddressMap;
use crate::poseidon_sparse::{default_node, empty_tree, PoseidonMerkleTree, SmtView};

verus! {

/// Depth of the account tree (2^20 leaves).
pub const TREE_DEPTH: usize = 20;

/// The mathematical content of the L2 state.
#[verifier::ext_equal]
pub struct L2StateView {
    pub tree: SmtView,
    pub indices: Map<Seq<u8>, u64>,
    pub states: Map<Seq<u8>, AccountState>,
}

/// The rollup's L2 state: the account tree, each owner's leaf index and account.
#[derive(Debug)]
pub struct L2State {
    pub tree: PoseidonMerkleTree,
    pub account_indices: AddressMap<u64>,
    pub account_states: AddressMap<AccountState>,
}

impl View for L2State {
    type V = L2StateView;

    open spec fn view(&self) -> L2StateView {
        L2StateView {
            tree: self.tree@,
            indices: self.account_indices.view(),
            states: self.account_states.view(),
        }
    }
}

impl L2State {
    /// An empty state over an empty tree of depth `TREE_DEPTH`.
    pub fn new() -> (res: Self)
        ensures
            res.tree.shape_ok(),
            res@.tree.depth == TREE_DEPTH,
            res@.tree.cache == Map::<u128, crate::hashes::PoseidonHash>::empty(),
            res@.tree.root == default_node(TREE_DEPTH as nat),
            res@.tree == empty_tree(TREE_DEPTH as nat),
            res@.tree.wf(),
            res@.tree.rooted(),
            res@.indices == Map::<Seq<u8>, u64>::empty(),
            res@.states == Map::<Seq<u8>, AccountState>::empty(),
    {
        Self {
            tree: PoseidonMerkleTree::new(TREE_DEPTH),
            account_indices: AddressMap::new(),
            account_states: AddressMap::new(),
        }
    }

    /// The leaf index registered for `address`, if any.
    pub fn get_account_index(&self, address: &[u8; 20]) -> (res: Option<u64>)
        ensures
            res == (if self@.indices.contains_key(address@) {
                Some(self@.indices[address@])
            } else {
                None
            }),
    {
        self.account_indices.get(address)
    }

    /// The index the next registered account would take: the number of indices.
    pub fn next_leaf_index(&self) -> (res: u64)
        ensures
            res == self@.indices.len(),
    {
        self.account_indices.len() as u64
    }
}

impl Default for L2State {
    fn default() -> (res: Self)
        ensures
            res@.indices == Map::<Seq<u8>, u64>::empty(),
            res@.states == Map::<Seq<u8>, AccountState>::empty(),
            res@.tree.depth == TREE_DEPTH,
            res@.tree.root == default_node(TREE_DEPTH as nat),
    {
        Self::new()
    }
}

} // verus!
