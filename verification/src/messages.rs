use vstd::prelude::*;

use crate::batch::BatchStatus;
use crate::hashes::PoseidonHash;
use crate::tx::L2TransactionStatus;

verus! {

/// The sequencer's answer to an accepted transaction.
#[derive(Debug, Clone, Copy, PartialEq, Eq)]
pub struct SubmitTxResponse {
    pub tx_hash: PoseidonHash,
    pub status: L2TransactionStatus,
}

/// The status of one batch.
#[derive(Debug, Clone, Copy, PartialEq, Eq)]
pub struct BatchStatusResponse {
    pub batch_id: i32,
    pub status: BatchStatus,
}

} // verus!
