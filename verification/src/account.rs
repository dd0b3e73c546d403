use vstd::prelude::*;

use crate::hashes::PoseidonHash;

verus! {

/// One L2 account: its L1 owner, its BabyJubjub public key, balance and nonce,
/// and the leaf of the state tree that holds it.
#[derive(Debug, Clone, Copy, PartialEq, Eq, Default)]
pub struct AccountState {
    pub owner_address: [u8; 20],
    pub l2_address: PoseidonHash,
    pub l2_pubkey_x: [u8; 32],
    pub l2_pubkey_y: [u8; 32],
    pub balance: u128,
    pub nonce: u64,
    pub leaf_index: u64,
}

} // verus!
