use vstd::prelude::*;

use crate::batch::Batch;
use crate::bytes::{be_bytes, be_bytes_vec, be_nat, lemma_be_nat_be_bytes};
use crate::crypto_utils::keccak256;
use crate::prover::ProofData;
use crate::text::{dec_value, is_dec_digit};
use crate::tx::L2Transaction;
use ethers::types::U256;
use vstd::arithmetic::power::pow;

verus! {

/// The value of a decimal numeral as `U256::from_dec_str` reads it: digits
/// only (none at all reads as zero), the value below 2^256.
pub open spec fn u256_from_dec(s: Seq<char>) -> Option<nat> {
    if (forall|i: int| 0 <= i < s.len() ==> is_dec_digit(#[trigger] s[i])) && dec_value(s) < pow(
        256,
        32,
    ) {
        Some(dec_value(s))
    } else {
        None
    }
}

/// Calls `ethers::types::U256::from_dec_str` and writes the number with
/// `to_big_endian` into 32 bytes. Trusted: the crate reads every byte of the
/// string as a decimal digit, refusing any other byte and any value from 2^256
/// up; the output is the value's 32-byte big-endian writing.
#[verifier::external_body]
fn u256_be_from_dec(s: &str) -> (res: Option<[u8; 32]>)
    ensures
        match u256_from_dec(s@) {
            None => res is None,
            Some(n) => res is Some && res->Some_0@ == be_bytes(n, 32),
        },
{
    match U256::from_dec_str(s) {
        Ok(v) => {
            let mut out = [0u8; 32];
            v.to_big_endian(&mut out);
            Some(out)
        },
        Err(_) => None,
    }
}

/// Calls `ethers::utils::keccak256`. Trusted: it is Keccak-256 (it runs
/// `tiny_keccak`'s `Keccak::v256` over the bytes), so its digest is
/// `keccak256(data)`.
#[verifier::external_body]
fn ethers_keccak256(data: &[u8]) -> (res: [u8; 32])
    ensures
        res == keccak256(data@),
{
    ethers::utils::keccak256(data)
}

/// Why a proven batch could not be prepared for L1.
#[derive(Debug, Clone, Copy, PartialEq, Eq)]
pub enum SubmitError {
    /// A proof coordinate or public signal is not a decimal below 2^256.
    InvalidDecimal,
}

/// The proof in the verifier's encoding, with the deposits root it proves.
#[derive(Debug, Clone, Copy)]
pub struct ProofCallArgs {
    pub a: [[u8; 32]; 2],
    pub b: [[[u8; 32]; 2]; 2],
    pub c: [[u8; 32]; 2],
    pub deposits_root: [u8; 32],
}

/// Whether a text reads as a 256-bit number.
pub open spec fn u256_ok(s: Seq<char>) -> bool {
    u256_from_dec(s) is Some
}

/// The 32-byte big-endian writing of a text that reads as a 256-bit number.
pub open spec fn u256_bytes(s: Seq<char>) -> Seq<u8> {
    be_bytes(u256_from_dec(s)->Some_0, 32)
}

/// Whether every coordinate of the proof and the deposits root (the third
/// public signal) read as 256-bit numbers.
pub open spec fn proof_args_ok(p: ProofData) -> bool {
    &&& u256_ok(p.a[0]@)
    &&& u256_ok(p.a[1]@)
    &&& u256_ok(p.b[0][0]@)
    &&& u256_ok(p.b[0][1]@)
    &&& u256_ok(p.b[1][0]@)
    &&& u256_ok(p.b[1][1]@)
    &&& u256_ok(p.c[0]@)
    &&& u256_ok(p.c[1]@)
    &&& u256_ok(p.public_signals[2]@)
}

fn u256_arg(s: &String) -> (res: Result<[u8; 32], SubmitError>)
    ensures
        u256_ok(s@) <==> res is Ok,
        res is Ok ==> res->Ok_0@ == u256_bytes(s@),
        res is Err ==> res == Err::<[u8; 32], SubmitError>(SubmitError::InvalidDecimal),
{
    match u256_be_from_dec(s.as_str()) {
        Some(v) => Ok(v),
        None => Err(SubmitError::InvalidDecimal),
    }
}

/// The proof's coordinates and deposits root as 32-byte big-endian numbers,
/// each pair of `b` kept in the order the proof holds it.
pub fn proof_call_args(proof: &ProofData) -> (res: Result<ProofCallArgs, SubmitError>)
    ensures
        proof_args_ok(*proof) <==> res is Ok,
        res is Err ==> res == Err::<ProofCallArgs, SubmitError>(SubmitError::InvalidDecimal),
        res is Ok ==> {
            let r = res->Ok_0;
            &&& r.a[0]@ == u256_bytes(proof.a[0]@)
            &&& r.a[1]@ == u256_bytes(proof.a[1]@)
            &&& r.b[0][0]@ == u256_bytes(proof.b[0][0]@)
            &&& r.b[0][1]@ == u256_bytes(proof.b[0][1]@)
            &&& r.b[1][0]@ == u256_bytes(proof.b[1][0]@)
            &&& r.b[1][1]@ == u256_bytes(proof.b[1][1]@)
            &&& r.c[0]@ == u256_bytes(proof.c[0]@)
            &&& r.c[1]@ == u256_bytes(proof.c[1]@)
            &&& r.deposits_root@ == u256_bytes(proof.public_signals[2]@)
        },
{
    let a0 = u256_arg(&proof.a[0])?;
    let a1 = u256_arg(&proof.a[1])?;
    let b00 = u256_arg(&proof.b[0][0])?;
    let b01 = u256_arg(&proof.b[0][1])?;
    let b10 = u256_arg(&proof.b[1][0])?;
    let b11 = u256_arg(&proof.b[1][1])?;
    let c0 = u256_arg(&proof.c[0])?;
    let c1 = u256_arg(&proof.c[1])?;
    let deposits_root = u256_arg(&proof.public_signals[2])?;
    Ok(ProofCallArgs { a: [a0, a1], b: [[b00, b01], [b10, b11]], c: [c0, c1], deposits_root })
}

/// The data-availability record of one transfer: sender, recipient, amount
/// (16 bytes), nonce (8 bytes), then R8.x, R8.y and S; 160 bytes.
pub open spec fn tx_da_bytes(tx: L2Transaction) -> Seq<u8> {
    tx.sender@ + tx.recipient@ + be_bytes(tx.amount as nat, 16) + be_bytes(tx.nonce as nat, 8)
        + tx.sig_r8_x@ + tx.sig_r8_y@ + tx.sig_s@
}

/// The records of the transfers, in order.
pub open spec fn txs_da_bytes(txs: Seq<L2Transaction>) -> Seq<u8>
    decreases txs.len(),
{
    if txs.len() == 0 {
        Seq::empty()
    } else {
        txs_da_bytes(txs.drop_last()) + tx_da_bytes(txs.last())
    }
}

/// The batch data posted to L1: the transfer count as a big-endian `u32`
/// (the count's low 32 bits), then every transfer's record.
pub open spec fn batch_data(txs: Seq<L2Transaction>) -> Seq<u8> {
    be_bytes((txs.len() as u32) as nat, 4) + txs_da_bytes(txs)
}

fn append(buf: &mut Vec<u8>, bytes: &[u8])
    ensures
        final(buf)@ == old(buf)@ + bytes@,
{
    let mut i: usize = 0;
    let ghost start = buf@;
    while i < bytes.len()
        invariant
            0 <= i <= bytes@.len(),
            buf@ == start + bytes@.subrange(0, i as int),
        decreases bytes@.len() - i,
    {
        buf.push(bytes[i]);
        i += 1;
        proof {
            assert(bytes@.subrange(0, i as int) =~= bytes@.subrange(0, i - 1).push(bytes@[i - 1]));
        }
    }
    assert(bytes@.subrange(0, i as int) =~= bytes@);
}

/// Encodes the batch data posted to L1.
pub fn encode_batch_data(txs: &Vec<L2Transaction>) -> (res: Vec<u8>)
    ensures
        res@ == batch_data(txs@),
        da_layout(res@, txs@),
{
    let count = txs.len() as u32;
    let mut out = be_bytes_vec(count as u128, 4);
    let ghost head = out@;
    let mut i: usize = 0;
    proof {
        assert(txs@.take(0) =~= Seq::<L2Transaction>::empty());
        assert(out@ =~= head + txs_da_bytes(txs@.take(0)));
    }
    while i < txs.len()
        invariant
            0 <= i <= txs@.len(),
            head == be_bytes((txs@.len() as u32) as nat, 4),
            out@ == head + txs_da_bytes(txs@.take(i as int)),
        decreases txs@.len() - i,
    {
        let tx = &txs[i];
        let ghost before = out@;
        append(&mut out, tx.sender.as_slice());
        append(&mut out, tx.recipient.as_slice());
        let amount = be_bytes_vec(tx.amount, 16);
        append(&mut out, amount.as_slice());
        let nonce = be_bytes_vec(tx.nonce as u128, 8);
        append(&mut out, nonce.as_slice());
        append(&mut out, tx.sig_r8_x.as_slice());
        append(&mut out, tx.sig_r8_y.as_slice());
        append(&mut out, tx.sig_s.as_slice());
        proof {
            assert(txs@.take(i + 1).drop_last() =~= txs@.take(i as int));
            assert(txs@.take(i + 1).last() == txs@[i as int]);
            assert(out@ =~= before + tx_da_bytes(txs@[i as int]));
            assert(out@ =~= head + txs_da_bytes(txs@.take(i + 1)));
        }
        i += 1;
    }
    proof {
        assert(txs@.take(i as int) =~= txs@);
        lemma_batch_data_fields(txs@);
    }
    out
}

/// The public inputs the rollup contract checks a batch against.
#[derive(Debug, Clone, Copy)]
pub struct PublicInputs {
    pub old_root: [u8; 32],
    pub new_root: [u8; 32],
    pub withdrawals_root: [u8; 32],
    pub deposits_root: [u8; 32],
    pub batch_data_hash: [u8; 32],
    pub batch_number: u64,
    pub l1_block_number: u64,
    pub circuit_version: u32,
}

/// What `submitBatch` is called with besides the proof.
#[derive(Debug, Clone)]
pub struct Submission {
    pub public_inputs: PublicInputs,
    pub batch_data: Vec<u8>,
}

/// The public inputs and batch data of a proven batch, to be submitted as the
/// contract's next batch: its roots, no withdrawals, the proven deposits root,
/// the Keccak-256 of the batch data, circuit version 1.
pub fn prepare_submission(
    batch: &Batch,
    deposits_root: [u8; 32],
    current_batch_number: u64,
    txs: &Vec<L2Transaction>,
) -> (res: Submission)
    requires
        current_batch_number < u64::MAX,
    ensures
        res.batch_data@ == batch_data(txs@),
        da_layout(res.batch_data@, txs@),
        res.public_inputs.old_root == batch.pre_state_root_poseidon.0,
        res.public_inputs.new_root == batch.post_state_root_poseidon.0,
        res.public_inputs.withdrawals_root@ == Seq::new(32, |i: int| 0u8),
        res.public_inputs.deposits_root == deposits_root,
        res.public_inputs.batch_data_hash == keccak256(batch_data(txs@)),
        res.public_inputs.batch_number == current_batch_number + 1,
        res.public_inputs.l1_block_number == 0,
        res.public_inputs.circuit_version == 1,
{
    let data = encode_batch_data(txs);
    let hash = ethers_keccak256(data.as_slice());
    let withdrawals_root = [0u8; 32];
    assert(withdrawals_root@ =~= Seq::new(32, |i: int| 0u8));
    Submission {
        public_inputs: PublicInputs {
            old_root: batch.pre_state_root_poseidon.0,
            new_root: batch.post_state_root_poseidon.0,
            withdrawals_root,
            deposits_root,
            batch_data_hash: hash,
            batch_number: current_batch_number + 1,
            l1_block_number: 0,
            circuit_version: 1,
        },
        batch_data: data,
    }
}

/// Every transfer takes 160 bytes of batch data, after a 4-byte count.
pub proof fn lemma_batch_data_len(txs: Seq<L2Transaction>)
    ensures
        batch_data(txs).len() == 4 + 160 * txs.len(),
{
    lemma_txs_da_len(txs);
}

proof fn lemma_txs_da_len(txs: Seq<L2Transaction>)
    ensures
        txs_da_bytes(txs).len() == 160 * txs.len(),
    decreases txs.len(),
{
    if txs.len() > 0 {
        lemma_txs_da_len(txs.drop_last());
    }
}


proof fn lemma_pow256_small()
    ensures
        pow(256, 4) == 0x1_0000_0000nat,
        pow(256, 8) == 0x1_0000_0000_0000_0000nat,
        pow(256, 16) == 0x1_0000_0000_0000_0000_0000_0000_0000_0000nat,
{
    vstd::arithmetic::power::lemma_pow1(256);
    vstd::arithmetic::power::lemma_pow_adds(256, 1, 1);
    assert(pow(256, 2) == 0x1_0000nat);
    vstd::arithmetic::power::lemma_pow_adds(256, 2, 2);
    assert(pow(256, 4) == 0x1_0000_0000nat);
    vstd::arithmetic::power::lemma_pow_adds(256, 4, 4);
    assert(pow(256, 8) == 0x1_0000_0000_0000_0000nat);
    vstd::arithmetic::power::lemma_pow_adds(256, 8, 8);
}

proof fn lemma_record_at(txs: Seq<L2Transaction>, i: int)
    requires
        0 <= i < txs.len(),
    ensures
        txs_da_bytes(txs).len() == 160 * txs.len(),
        txs_da_bytes(txs).subrange(160 * i, 160 * i + 160) == tx_da_bytes(txs[i]),
    decreases txs.len(),
{
    lemma_txs_da_len(txs);
    let pre = txs.drop_last();
    lemma_txs_da_len(pre);
    if i < txs.len() - 1 {
        lemma_record_at(pre, i);
        assert(txs_da_bytes(txs).subrange(160 * i, 160 * i + 160) =~= txs_da_bytes(pre).subrange(
            160 * i,
            160 * i + 160,
        ));
    } else {
        assert(txs_da_bytes(txs).subrange(160 * i, 160 * i + 160) =~= tx_da_bytes(txs.last()));
    }
}

/// Batch data `d` lays out `txs` for L1: a 4-byte big-endian count (the
/// number of transfers as a `u32`), then for transfer `i` a 160-byte record at
/// offset `4 + 160 i` holding, at offsets 0, 20, 40, 56, 64, 96 and 128, the
/// sender, the recipient, the amount (16 bytes, big-endian), the nonce (8
/// bytes, big-endian), and R8.x, R8.y and S of its signature.
pub open spec fn da_layout(d: Seq<u8>, txs: Seq<L2Transaction>) -> bool {
    &&& d.len() == 4 + 160 * txs.len()
    &&& be_nat(d.subrange(0, 4)) == txs.len() as u32
    &&& forall|i: int|
        #![trigger txs[i]]
        0 <= i < txs.len() ==> {
            let r = 4 + 160 * i;
            &&& d.subrange(r, r + 20) == txs[i].sender@
            &&& d.subrange(r + 20, r + 40) == txs[i].recipient@
            &&& d.subrange(r + 40, r + 56).len() == 16
            &&& be_nat(d.subrange(r + 40, r + 56)) == txs[i].amount
            &&& d.subrange(r + 56, r + 64).len() == 8
            &&& be_nat(d.subrange(r + 56, r + 64)) == txs[i].nonce
            &&& d.subrange(r + 64, r + 96) == txs[i].sig_r8_x@
            &&& d.subrange(r + 96, r + 128) == txs[i].sig_r8_y@
            &&& d.subrange(r + 128, r + 160) == txs[i].sig_s@
        }
}

/// The batch data posted to L1 has the layout `da_layout` describes: the
/// transfer count, then one 160-byte record per transfer, field by field.
pub proof fn lemma_batch_data_fields(txs: Seq<L2Transaction>)
    ensures
        da_layout(batch_data(txs), txs),
{
    let d = batch_data(txs);
    let head = be_bytes((txs.len() as u32) as nat, 4);
    lemma_txs_da_len(txs);
    assert(head.len() == 4);
    assert(d.subrange(0, 4) =~= head);
    lemma_be_nat_be_bytes((txs.len() as u32) as nat, 4);
    lemma_pow256_small();
    vstd::arithmetic::div_mod::lemma_small_mod((txs.len() as u32) as nat, pow(256, 4) as nat);
    assert forall|i: int| #![trigger txs[i]] 0 <= i < txs.len() implies {
        let r = 4 + 160 * i;
        &&& d.subrange(r, r + 20) == txs[i].sender@
        &&& d.subrange(r + 20, r + 40) == txs[i].recipient@
        &&& d.subrange(r + 40, r + 56).len() == 16
        &&& be_nat(d.subrange(r + 40, r + 56)) == txs[i].amount
        &&& d.subrange(r + 56, r + 64).len() == 8
        &&& be_nat(d.subrange(r + 56, r + 64)) == txs[i].nonce
        &&& d.subrange(r + 64, r + 96) == txs[i].sig_r8_x@
        &&& d.subrange(r + 96, r + 128) == txs[i].sig_r8_y@
        &&& d.subrange(r + 128, r + 160) == txs[i].sig_s@
    } by {
        lemma_record_at(txs, i);
        let tx = txs[i];
        let rec = tx_da_bytes(tx);
        let r = 4 + 160 * i;
        assert(d.subrange(r, r + 160) =~= rec);
        let amt = be_bytes(tx.amount as nat, 16);
        let non = be_bytes(tx.nonce as nat, 8);
        assert forall|k: int| 0 <= k < 160 implies d[r + k] == #[trigger] rec[k] by {
            assert(d.subrange(r, r + 160)[k] == d[r + k]);
        }
        assert(rec.subrange(0, 20) =~= tx.sender@);
        assert(rec.subrange(20, 40) =~= tx.recipient@);
        assert(rec.subrange(40, 56) =~= amt);
        assert(rec.subrange(56, 64) =~= non);
        assert(rec.subrange(64, 96) =~= tx.sig_r8_x@);
        assert(rec.subrange(96, 128) =~= tx.sig_r8_y@);
        assert(rec.subrange(128, 160) =~= tx.sig_s@);
        assert(d.subrange(r, r + 20) =~= rec.subrange(0, 20));
        assert(d.subrange(r + 20, r + 40) =~= rec.subrange(20, 40));
        assert(d.subrange(r + 40, r + 56) =~= rec.subrange(40, 56));
        assert(d.subrange(r + 56, r + 64) =~= rec.subrange(56, 64));
        assert(d.subrange(r + 64, r + 96) =~= rec.subrange(64, 96));
        assert(d.subrange(r + 96, r + 128) =~= rec.subrange(96, 128));
        assert(d.subrange(r + 128, r + 160) =~= rec.subrange(128, 160));
        assert(d.subrange(r, r + 20) =~= tx.sender@);
        assert(d.subrange(r + 20, r + 40) =~= tx.recipient@);
        assert(d.subrange(r + 40, r + 56) =~= amt);
        assert(d.subrange(r + 56, r + 64) =~= non);
        assert(d.subrange(r + 64, r + 96) =~= tx.sig_r8_x@);
        assert(d.subrange(r + 96, r + 128) =~= tx.sig_r8_y@);
        assert(d.subrange(r + 128, r + 160) =~= tx.sig_s@);
        lemma_be_nat_be_bytes(tx.amount as nat, 16);
        lemma_be_nat_be_bytes(tx.nonce as nat, 8);
        vstd::arithmetic::div_mod::lemma_small_mod(tx.amount as nat, pow(256, 16) as nat);
        vstd::arithmetic::div_mod::lemma_small_mod(tx.nonce as nat, pow(256, 8) as nat);
    }
}

/// What the submitter finds when it looks for the next proven batch.
#[derive(Debug, Clone)]
pub enum ProvenBatchProof {
    /// No batch is waiting to be submitted.
    NoBatch,
    /// The batch is marked proven but holds no proof bytes.
    MissingProof(i32),
    /// The stored proof bytes of the batch.
    Proof(Vec<u8>),
}

/// The proof to submit for the batch found (if any): nothing to do without a
/// batch, an error for a batch without proof bytes, else its proof bytes.
pub fn proven_batch_proof(batch: &Option<Batch>) -> (res: ProvenBatchProof)
    ensures
        match batch {
            None => res is NoBatch,
            Some(b) => match b.zk_proof {
                None => res == ProvenBatchProof::MissingProof(b.batch_id),
                Some(p) => res matches ProvenBatchProof::Proof(q) && q@ == p@,
            },
        },
{
    match batch {
        None => ProvenBatchProof::NoBatch,
        Some(b) => match &b.zk_proof {
            None => ProvenBatchProof::MissingProof(b.batch_id),
            Some(p) => {
                let mut q: Vec<u8> = Vec::new();
                let mut i: usize = 0;
                while i < p.len()
                    invariant
                        0 <= i <= p@.len(),
                        q@ == p@.subrange(0, i as int),
                    decreases p@.len() - i,
                {
                    q.push(p[i]);
                    i += 1;
                    assert(p@.subrange(0, i as int) =~= p@.subrange(0, i - 1).push(p@[i - 1]));
                }
                assert(p@.subrange(0, p@.len() as int) =~= p@);
                ProvenBatchProof::Proof(q)
            },
        },
    }
}

} // verus!
