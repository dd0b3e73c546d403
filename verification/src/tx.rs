use vstd::prelude::*;

use crate::hashes::PoseidonHash;

verus! {

/// Where a transaction stands in the pipeline.
#[derive(Debug, Clone, Copy, PartialEq, Eq, Structural)]
pub enum L2TransactionStatus {
    Pending,
    AcceptedOnL2,
    Finalized,
}

/// A signed L2 transfer.
#[derive(Debug, Clone, Copy)]
pub struct L2Transaction {
    pub tx_hash: PoseidonHash,
    pub sender: [u8; 20],
    pub recipient: [u8; 20],
    pub amount: u128,
    pub fee: u128,
    pub nonce: u64,
    pub status: L2TransactionStatus,
    pub batch_id: Option<i32>,
    pub sig_r8_x: [u8; 32],
    pub sig_r8_y: [u8; 32],
    pub sig_s: [u8; 32],
}

} // verus!
