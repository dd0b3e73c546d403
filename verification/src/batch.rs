use vstd::prelude::*;

use crate::hashes::{KeccakHash, PoseidonHash};
use crate::tx::L2Transaction;

verus! {

/// Where a batch stands between closing and L1 finality.
#[derive(Debug, Clone, Copy, PartialEq, Eq, Structural)]
pub enum BatchStatus {
    PendingProof,
    Proven,
    SubmittedToL1,
    Finalized,
}

/// A closed batch: its transactions, the state roots around it, its proof and
/// where it landed on L1.
#[derive(Debug, Clone)]
pub struct Batch {
    pub batch_id: i32,
    pub transactions: Vec<L2Transaction>,
    pub pre_state_root_poseidon: PoseidonHash,
    pub post_state_root_poseidon: PoseidonHash,
    pub zk_proof: Option<Vec<u8>>,
    pub l1_tx_hash: Option<KeccakHash>,
    pub l1_block_number: Option<i64>,
    pub status: BatchStatus,
}

} // verus!
