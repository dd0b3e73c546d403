use vstd::prelude::*;

use crate::accounts::{compute_l2_address, l2_address_of, signature_valid, verify_tx};
use crate::apply::{batch_overflows, execute_batch, run_batch, try_execute_batch, ExecError};
use crate::crypto_utils::{all_zero, is_all_zero};
use crate::hashes::PoseidonHash;
use crate::state::{L2State, L2StateView};
use crate::tx::L2Transaction;

verus! {

/// Pending transfers a batch closes with.
pub const BATCH_SIZE: usize = 20;

/// Why a submitted transfer was refused before touching any state.
#[derive(Debug, Clone, Copy, PartialEq, Eq)]
pub enum TxRejection {
    /// The amount is zero.
    ZeroAmount,
    /// The transaction hash is all zeros.
    ZeroHash,
}

/// The stateless checks of a submitted transfer: a non-zero amount, then a
/// non-zero hash.
pub fn light_validate(tx: &L2Transaction) -> (res: Result<(), TxRejection>)
    ensures
        res == (if tx.amount == 0 {
            Err::<(), TxRejection>(TxRejection::ZeroAmount)
        } else if all_zero(tx.tx_hash.0) {
            Err::<(), TxRejection>(TxRejection::ZeroHash)
        } else {
            Ok::<(), TxRejection>(())
        }),
{
    if tx.amount == 0 {
        return Err(TxRejection::ZeroAmount);
    }
    if is_all_zero(&tx.tx_hash.0) {
        return Err(TxRejection::ZeroHash);
    }
    Ok(())
}

/// Whether enough transfers are pending to close a batch.
pub fn batch_ready(pending: usize) -> (res: bool)
    ensures
        res == (pending >= BATCH_SIZE),
{
    pending >= BATCH_SIZE
}

/// A batch ready to be stored: the roots around it, the hashes of its
/// transfers in order, and the state after it.
pub struct ClosedBatch {
    pub pre_state_root: PoseidonHash,
    pub post_state_root: PoseidonHash,
    pub tx_hashes: Vec<[u8; 32]>,
    pub state: L2State,
}

/// The hashes of the transfers, in order.
pub open spec fn hashes_of(txs: Seq<L2Transaction>) -> Seq<[u8; 32]> {
    txs.map_values(|t: L2Transaction| t.tx_hash.0)
}

fn tx_hashes(txs: &Vec<L2Transaction>) -> (res: Vec<[u8; 32]>)
    ensures
        res@ == hashes_of(txs@),
{
    let mut out: Vec<[u8; 32]> = Vec::new();
    let mut i: usize = 0;
    while i < txs.len()
        invariant
            0 <= i <= txs@.len(),
            out@.len() == i,
            forall|k: int| 0 <= k < i ==> #[trigger] out@[k] == txs@[k].tx_hash.0,
        decreases txs@.len() - i,
    {
        out.push(txs[i].tx_hash.0);
        i += 1;
    }
    assert(out@ =~= hashes_of(txs@));
    out
}

/// Executes the pending transfers as one batch. On success the batch closes
/// with the old and new roots and the hashes of its transfers; on the first
/// failing transfer nothing closes and the error says why.
pub fn close_batch(pending: Vec<L2Transaction>, state: L2State) -> (res: Result<
    ClosedBatch,
    ExecError,
>)
    requires
        state.tree.shape_ok(),
        !batch_overflows(state@, pending@),
    ensures
        match res {
            Ok(c) => {
                &&& run_batch(state@, pending@) == Ok::<L2StateView, ExecError>(c.state@)
                &&& c.pre_state_root == state@.tree.root
                &&& c.post_state_root == c.state@.tree.root
                &&& c.tx_hashes@ == hashes_of(pending@)
            },
            Err(e) => run_batch(state@, pending@) == Err::<L2StateView, ExecError>(e),
        },
{
    let pre_state_root = state.tree.root;
    let hashes = tx_hashes(&pending);
    match execute_batch(state, pending) {
        Ok((post_state_root, updated)) => Ok(
            ClosedBatch { pre_state_root, post_state_root, tx_hashes: hashes, state: updated },
        ),
        Err(e) => Err(e),
    }
}

/// `close_batch` with the overflow check made at run time: `None` exactly
/// when some transfer of the batch would overflow a nonce or a balance.
pub fn try_close_batch(pending: Vec<L2Transaction>, state: L2State) -> (res: Option<
    Result<ClosedBatch, ExecError>,
>)
    requires
        state.tree.shape_ok(),
    ensures
        res is None <==> batch_overflows(state@, pending@),
        res matches Some(r) ==> match r {
            Ok(c) => {
                &&& run_batch(state@, pending@) == Ok::<L2StateView, ExecError>(c.state@)
                &&& c.pre_state_root == state@.tree.root
                &&& c.post_state_root == c.state@.tree.root
                &&& c.tx_hashes@ == hashes_of(pending@)
            },
            Err(e) => run_batch(state@, pending@) == Err::<L2StateView, ExecError>(e),
        },
{
    let pre_state_root = state.tree.root;
    let hashes = tx_hashes(&pending);
    match try_execute_batch(state, pending) {
        None => None,
        Some(Ok((post_state_root, updated))) => Some(
            Ok(ClosedBatch { pre_state_root, post_state_root, tx_hashes: hashes, state: updated }),
        ),
        Some(Err(e)) => Some(Err(e)),
    }
}

/// Why a transfer's signature was refused.
#[derive(Debug, Clone, Copy, PartialEq, Eq)]
pub enum SignatureRejection {
    /// The sender has no registered key.
    SenderNotRegistered([u8; 20]),
    /// The recipient has no registered key.
    RecipientNotRegistered([u8; 20]),
    /// The EdDSA-Poseidon signature does not verify.
    BadSignature,
}

/// The signature check of a submitted transfer, given the registered keys of
/// its sender and recipient (if any): both must be registered, and the
/// signature must verify under the sender's key over the message built from
/// both parties' L2 addresses, the amount and the nonce.
pub fn check_signature(
    tx: &L2Transaction,
    sender_key: Option<([u8; 32], [u8; 32])>,
    recipient_key: Option<([u8; 32], [u8; 32])>,
) -> (res: Result<(), SignatureRejection>)
    ensures
        res == (match sender_key {
            None => Err(SignatureRejection::SenderNotRegistered(tx.sender)),
            Some(sk) => match recipient_key {
                None => Err(SignatureRejection::RecipientNotRegistered(tx.recipient)),
                Some(rk) => if signature_valid(
                    sk.0,
                    sk.1,
                    l2_address_of(sk.0, sk.1),
                    l2_address_of(rk.0, rk.1),
                    tx.amount,
                    tx.nonce,
                    tx.sig_r8_x,
                    tx.sig_r8_y,
                    tx.sig_s,
                ) {
                    Ok(())
                } else {
                    Err(SignatureRejection::BadSignature)
                },
            },
        }),
{
    let (sender_pkx, sender_pky) = match sender_key {
        Some(k) => k,
        None => {
            return Err(SignatureRejection::SenderNotRegistered(tx.sender));
        },
    };
    let (recv_pkx, recv_pky) = match recipient_key {
        Some(k) => k,
        None => {
            return Err(SignatureRejection::RecipientNotRegistered(tx.recipient));
        },
    };
    let sender_l2 = compute_l2_address(&sender_pkx, &sender_pky);
    let recv_l2 = compute_l2_address(&recv_pkx, &recv_pky);
    let ok = verify_tx(
        &sender_pkx,
        &sender_pky,
        &sender_l2,
        &recv_l2,
        tx.amount,
        tx.nonce,
        &tx.sig_r8_x,
        &tx.sig_r8_y,
        &tx.sig_s,
    );
    if !ok {
        return Err(SignatureRejection::BadSignature);
    }
    Ok(())
}

} // verus!
