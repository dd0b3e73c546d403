use vstd::prelude::*;

use crate::account::AccountState;
use crate::address_map::AddressMap;
use crate::bytes::{
    be_bytes, be_nat, lemma_be_bytes_be_nat, lemma_be_bytes_pad, lemma_be_nat_be_bytes, lemma_min_be_len, min_be_len,
};
use crate::crypto_utils::{compute_l2_address, poseidon2};
use crate::hashes::PoseidonHash;
use crate::merkle_proof::fold_path;
use crate::poseidon_sparse::{
    cur_at, default_node, empty_tree, leaf_of, level_span, lemma_every_leaf_proof_verifies,
    lemma_update_keeps_own_siblings, lemma_update_preserves_wf, lemma_update_read_back,
    lemma_updated_leaf_proof_verifies, PoseidonMerkleTree, SmtView,
};
use vstd::arithmetic::power2::pow2;
use crate::text::{
    biguint_be_to_decimal, biguint_from_dec, biguint_parse_decimal_be, dec_string, is_dec_digit,
    lemma_dec_string, lemma_filter_keeps_all, strip_plus, u128_to_decimal,
};
use vstd::arithmetic::power::{lemma_pow_increases, pow};
use crate::tx::L2Transaction;
use crate::apply::{apply_tx, batch_overflows, credited, debited, run_batch, tx_overflows, ExecError};
use crate::state::L2StateView;

verus! {

broadcast use vstd::string::to_string_from_display_ensures_for_str;

/// Transfers per proven batch: the circuit's fixed size.
pub const N_TXS: usize = 20;

/// Depth of the state tree whose paths the circuit checks.
pub const DEPTH: usize = 20;

/// Deposit slots of the circuit; every one is filled with a no-op deposit.
pub const N_DEPOSITS: usize = 4;

/// A Groth16 proof as decimal strings, with the inner pairs of `b` in the
/// order the on-chain verifier expects, and the circuit's public signals.
#[derive(Debug, Clone)]
pub struct ProofData {
    pub a: [String; 2],
    pub b: [[String; 2]; 2],
    pub c: [String; 2],
    pub public_signals: [String; 3],
}

/// How long witness generation and proving took, in milliseconds.
#[derive(Debug, Clone, Copy)]
pub struct ProveTimings {
    pub witness_ms: u128,
    pub prove_ms: u128,
}

/// One account as it stood when its batch was closed.
#[derive(Debug, Clone, Copy, PartialEq, Eq)]
pub struct SnapshotAccount {
    pub leaf_index: u64,
    pub owner_address: [u8; 20],
    pub l2_pubkey_x: [u8; 32],
    pub l2_pubkey_y: [u8; 32],
    pub pre_balance: u128,
    pub pre_nonce: u64,
}

/// The circuit input of one batch, every number in decimal.
#[derive(Debug, Clone)]
pub struct WitnessInput {
    pub old_root: String,
    pub new_root: String,
    pub deposits_root: String,
    pub deposit_pubkey_x: Vec<String>,
    pub deposit_pubkey_y: Vec<String>,
    pub deposit_amount: Vec<String>,
    pub deposit_is_new: Vec<String>,
    pub deposit_old_balance: Vec<String>,
    pub deposit_old_nonce: Vec<String>,
    pub deposit_path_elements: Vec<Vec<String>>,
    pub deposit_path_indices: Vec<Vec<String>>,
    pub tx_sender_address: Vec<String>,
    pub tx_receiver_address: Vec<String>,
    pub tx_amount: Vec<String>,
    pub tx_nonce: Vec<String>,
    pub sender_balance: Vec<String>,
    pub sender_nonce: Vec<String>,
    pub sender_path_elements: Vec<Vec<String>>,
    pub sender_path_indices: Vec<Vec<String>>,
    pub receiver_balance: Vec<String>,
    pub receiver_nonce: Vec<String>,
    pub receiver_path_elements: Vec<Vec<String>>,
    pub receiver_path_indices: Vec<Vec<String>>,
    pub sig_r8x: Vec<String>,
    pub sig_r8y: Vec<String>,
    pub sig_s: Vec<String>,
    pub sender_pub_key_x: Vec<String>,
    pub sender_pub_key_y: Vec<String>,
}

/// The text content of a `WitnessInput`, field by field.
#[verifier::ext_equal]
pub struct WitnessText {
    pub old_root: Seq<char>,
    pub new_root: Seq<char>,
    pub deposits_root: Seq<char>,
    pub deposit_pubkey_x: Seq<Seq<char>>,
    pub deposit_pubkey_y: Seq<Seq<char>>,
    pub deposit_amount: Seq<Seq<char>>,
    pub deposit_is_new: Seq<Seq<char>>,
    pub deposit_old_balance: Seq<Seq<char>>,
    pub deposit_old_nonce: Seq<Seq<char>>,
    pub deposit_path_elements: Seq<Seq<Seq<char>>>,
    pub deposit_path_indices: Seq<Seq<Seq<char>>>,
    pub tx_sender_address: Seq<Seq<char>>,
    pub tx_receiver_address: Seq<Seq<char>>,
    pub tx_amount: Seq<Seq<char>>,
    pub tx_nonce: Seq<Seq<char>>,
    pub sender_balance: Seq<Seq<char>>,
    pub sender_nonce: Seq<Seq<char>>,
    pub sender_path_elements: Seq<Seq<Seq<char>>>,
    pub sender_path_indices: Seq<Seq<Seq<char>>>,
    pub receiver_balance: Seq<Seq<char>>,
    pub receiver_nonce: Seq<Seq<char>>,
    pub receiver_path_elements: Seq<Seq<Seq<char>>>,
    pub receiver_path_indices: Seq<Seq<Seq<char>>>,
    pub sig_r8x: Seq<Seq<char>>,
    pub sig_r8y: Seq<Seq<char>>,
    pub sig_s: Seq<Seq<char>>,
    pub sender_pub_key_x: Seq<Seq<char>>,
    pub sender_pub_key_y: Seq<Seq<char>>,
}

/// The texts of a list of strings.
pub open spec fn texts(v: Seq<String>) -> Seq<Seq<char>> {
    v.map_values(|s: String| s@)
}

/// The texts of a list of lists of strings.
pub open spec fn texts2(v: Seq<Vec<String>>) -> Seq<Seq<Seq<char>>> {
    v.map_values(|r: Vec<String>| texts(r@))
}

impl View for WitnessInput {
    type V = WitnessText;

    open spec fn view(&self) -> WitnessText {
        WitnessText {
            old_root: self.old_root@,
            new_root: self.new_root@,
            deposits_root: self.deposits_root@,
            deposit_pubkey_x: texts(self.deposit_pubkey_x@),
            deposit_pubkey_y: texts(self.deposit_pubkey_y@),
            deposit_amount: texts(self.deposit_amount@),
            deposit_is_new: texts(self.deposit_is_new@),
            deposit_old_balance: texts(self.deposit_old_balance@),
            deposit_old_nonce: texts(self.deposit_old_nonce@),
            deposit_path_elements: texts2(self.deposit_path_elements@),
            deposit_path_indices: texts2(self.deposit_path_indices@),
            tx_sender_address: texts(self.tx_sender_address@),
            tx_receiver_address: texts(self.tx_receiver_address@),
            tx_amount: texts(self.tx_amount@),
            tx_nonce: texts(self.tx_nonce@),
            sender_balance: texts(self.sender_balance@),
            sender_nonce: texts(self.sender_nonce@),
            sender_path_elements: texts2(self.sender_path_elements@),
            sender_path_indices: texts2(self.sender_path_indices@),
            receiver_balance: texts(self.receiver_balance@),
            receiver_nonce: texts(self.receiver_nonce@),
            receiver_path_elements: texts2(self.receiver_path_elements@),
            receiver_path_indices: texts2(self.receiver_path_indices@),
            sig_r8x: texts(self.sig_r8x@),
            sig_r8y: texts(self.sig_r8y@),
            sig_s: texts(self.sig_s@),
            sender_pub_key_x: texts(self.sender_pub_key_x@),
            sender_pub_key_y: texts(self.sender_pub_key_y@),
        }
    }
}

/// Why a batch witness could not be built.
#[derive(Debug, Clone, Copy, PartialEq, Eq)]
pub enum WitnessError {
    /// The batch has no account snapshot.
    EmptySnapshot,
    /// A sender is not in the snapshot.
    UnknownSender([u8; 20]),
    /// A recipient is not in the snapshot.
    UnknownRecipient([u8; 20]),
    /// The transfer at this position overdraws its sender.
    SenderUnderflow(usize),
    /// The transfer at this position overflows its sender's nonce.
    SenderNonceOverflow(usize),
    /// The transfer at this position overflows its recipient's balance.
    ReceiverOverflow(usize),
}

/// The text "0".
pub open spec fn zero_text() -> Seq<char> {
    seq!['0']
}

/// The decimal text of a 32-byte big-endian number.
pub open spec fn dec32(b: [u8; 32]) -> Seq<char> {
    dec_string(be_nat(b@))
}

/// `n` copies of "0".
pub open spec fn zeros_text(n: nat) -> Seq<Seq<char>> {
    Seq::new(n, |j: int| zero_text())
}

/// The decimal texts of a Merkle path.
pub open spec fn path_text(p: Seq<PoseidonHash>) -> Seq<Seq<char>> {
    p.map_values(|h: PoseidonHash| dec32(h.0))
}

/// The left/right bits ("0" or "1") of leaf `index`'s path, bottom-up.
pub open spec fn bits_text(index: u64) -> Seq<Seq<char>> {
    Seq::new(DEPTH as nat, |j: int| dec_string(cur_at(index as nat, j as nat) % 2))
}

/// A snapshot entry with new balance and nonce.
pub open spec fn with_balance(a: SnapshotAccount, balance: u128, nonce: u64) -> SnapshotAccount {
    SnapshotAccount {
        leaf_index: a.leaf_index,
        owner_address: a.owner_address,
        l2_pubkey_x: a.l2_pubkey_x,
        l2_pubkey_y: a.l2_pubkey_y,
        pre_balance: balance,
        pre_nonce: nonce,
    }
}

/// The L2 address of a snapshot entry's key.
pub open spec fn l2_of(a: SnapshotAccount) -> PoseidonHash {
    poseidon2(a.l2_pubkey_x, a.l2_pubkey_y)
}

/// The account a snapshot entry stands for.
pub open spec fn account_of(a: SnapshotAccount) -> AccountState {
    AccountState {
        owner_address: a.owner_address,
        l2_address: l2_of(a),
        l2_pubkey_x: a.l2_pubkey_x,
        l2_pubkey_y: a.l2_pubkey_y,
        balance: a.pre_balance,
        nonce: a.pre_nonce,
        leaf_index: a.leaf_index,
    }
}

/// The tree of depth `DEPTH` once every snapshot entry's leaf is written, in order.
pub open spec fn snapshot_tree(snap: Seq<SnapshotAccount>) -> SmtView
    decreases snap.len(),
{
    if snap.len() == 0 {
        empty_tree(DEPTH as nat)
    } else {
        let a = snap.last();
        snapshot_tree(snap.drop_last()).update(a.leaf_index as nat, leaf_of(account_of(a)))
    }
}

/// Owner address to snapshot entry; a later entry of the same owner wins.
pub open spec fn snapshot_index(snap: Seq<SnapshotAccount>) -> Map<Seq<u8>, SnapshotAccount>
    decreases snap.len(),
{
    if snap.len() == 0 {
        Map::empty()
    } else {
        let a = snap.last();
        snapshot_index(snap.drop_last()).insert(a.owner_address@, a)
    }
}

/// The values one applied transfer contributes to the witness: the transfer,
/// both parties as they stood before it, their addresses, and each party's
/// path (the sender's before its update, the recipient's after the sender's).
pub struct TxWitness {
    pub tx: L2Transaction,
    pub sender: SnapshotAccount,
    pub recipient: SnapshotAccount,
    pub sender_l2: PoseidonHash,
    pub receiver_l2: PoseidonHash,
    pub sender_path: Seq<PoseidonHash>,
    pub receiver_path: Seq<PoseidonHash>,
}

/// A transfer's witness values with the tree and the account index after it.
#[verifier::ext_equal]
pub struct StepOut {
    pub row: TxWitness,
    pub tree: SmtView,
    pub index: Map<Seq<u8>, SnapshotAccount>,
}

/// The witness values of several transfers with the tree and index after them.
#[verifier::ext_equal]
pub struct RunOut {
    pub rows: Seq<TxWitness>,
    pub tree: SmtView,
    pub index: Map<Seq<u8>, SnapshotAccount>,
}

/// The account state written for a snapshot entry with new balance and nonce.
pub open spec fn written(a: SnapshotAccount, l2: PoseidonHash, balance: u128, nonce: u64) -> AccountState {
    AccountState {
        owner_address: a.owner_address,
        l2_address: l2,
        l2_pubkey_x: a.l2_pubkey_x,
        l2_pubkey_y: a.l2_pubkey_y,
        balance: balance,
        nonce: nonce,
        leaf_index: a.leaf_index,
    }
}

/// Transfer number `i` applied to the tree `t` and the account index `m`: both
/// parties must be indexed; the sender is debited (balance down, nonce up) and
/// its leaf rewritten, then the recipient credited and its leaf rewritten.
pub open spec fn witness_step(
    t: SmtView,
    m: Map<Seq<u8>, SnapshotAccount>,
    tx: L2Transaction,
    i: nat,
) -> Result<StepOut, WitnessError> {
    if !m.contains_key(tx.sender@) {
        Err(WitnessError::UnknownSender(tx.sender))
    } else if !m.contains_key(tx.recipient@) {
        Err(WitnessError::UnknownRecipient(tx.recipient))
    } else {
        let s = m[tx.sender@];
        let r = m[tx.recipient@];
        if s.pre_balance < tx.amount {
            Err(WitnessError::SenderUnderflow(i as usize))
        } else if s.pre_nonce == u64::MAX {
            Err(WitnessError::SenderNonceOverflow(i as usize))
        } else {
            let nb = (s.pre_balance - tx.amount) as u128;
            let nn = (s.pre_nonce + 1) as u64;
            let t1 = t.update(s.leaf_index as nat, leaf_of(written(s, l2_of(s), nb, nn)));
            if r.pre_balance + tx.amount > u128::MAX {
                Err(WitnessError::ReceiverOverflow(i as usize))
            } else {
                let rb = (r.pre_balance + tx.amount) as u128;
                let t2 = t1.update(
                    r.leaf_index as nat,
                    leaf_of(written(r, l2_of(r), rb, r.pre_nonce)),
                );
                Ok(
                    StepOut {
                        row: TxWitness {
                            tx: tx,
                            sender: s,
                            recipient: r,
                            sender_l2: l2_of(s),
                            receiver_l2: l2_of(r),
                            sender_path: t.siblings_of(s.leaf_index as nat),
                            receiver_path: t1.siblings_of(r.leaf_index as nat),
                        },
                        tree: t2,
                        index: m.insert(s.owner_address@, with_balance(s, nb, nn)).insert(
                            r.owner_address@,
                            with_balance(r, rb, r.pre_nonce),
                        ),
                    },
                )
            }
        }
    }
}

/// The transfers applied in order from tree `t0` and index `m0`; the first
/// failing one ends the run with its error.
pub open spec fn witness_run(
    t0: SmtView,
    m0: Map<Seq<u8>, SnapshotAccount>,
    txs: Seq<L2Transaction>,
) -> Result<RunOut, WitnessError>
    decreases txs.len(),
{
    if txs.len() == 0 {
        Ok(RunOut { rows: Seq::empty(), tree: t0, index: m0 })
    } else {
        match witness_run(t0, m0, txs.drop_last()) {
            Err(e) => Err(e),
            Ok(out) => match witness_step(out.tree, out.index, txs.last(), (txs.len() - 1) as nat) {
                Err(e) => Err(e),
                Ok(step) => Ok(RunOut { rows: out.rows.push(step.row), tree: step.tree, index: step.index }),
            },
        }
    }
}

/// The per-transfer text of slot `i`: that of the `i`-th row, or zeros.
pub open spec fn row_at(rows: Seq<TxWitness>, i: int) -> RowText {
    if 0 <= i < rows.len() {
        row_text(rows[i])
    } else {
        empty_row_text()
    }
}

/// The whole witness text: roots, the no-op deposits (all repeating the first
/// snapshot entry and its path in the snapshot tree), and one column entry per
/// transfer slot.
pub open spec fn witness_text(
    old_root: PoseidonHash,
    new_root: PoseidonHash,
    first: SnapshotAccount,
    dep_proof: Seq<PoseidonHash>,
    rows: Seq<TxWitness>,
) -> WitnessText {
    WitnessText {
        old_root: dec32(old_root.0),
        new_root: dec32(new_root.0),
        deposits_root: zero_text(),
        deposit_pubkey_x: Seq::new(N_DEPOSITS as nat, |d: int| dec32(first.l2_pubkey_x)),
        deposit_pubkey_y: Seq::new(N_DEPOSITS as nat, |d: int| dec32(first.l2_pubkey_y)),
        deposit_amount: zeros_text(N_DEPOSITS as nat),
        deposit_is_new: zeros_text(N_DEPOSITS as nat),
        deposit_old_balance: Seq::new(N_DEPOSITS as nat, |d: int| dec_string(first.pre_balance as nat)),
        deposit_old_nonce: Seq::new(N_DEPOSITS as nat, |d: int| dec_string(first.pre_nonce as nat)),
        deposit_path_elements: Seq::new(N_DEPOSITS as nat, |d: int| path_text(dep_proof)),
        deposit_path_indices: Seq::new(N_DEPOSITS as nat, |d: int| bits_text(first.leaf_index)),
        tx_sender_address: Seq::new(N_TXS as nat, |i: int| row_at(rows, i).tx_sender_address),
        tx_receiver_address: Seq::new(N_TXS as nat, |i: int| row_at(rows, i).tx_receiver_address),
        tx_amount: Seq::new(N_TXS as nat, |i: int| row_at(rows, i).tx_amount),
        tx_nonce: Seq::new(N_TXS as nat, |i: int| row_at(rows, i).tx_nonce),
        sender_balance: Seq::new(N_TXS as nat, |i: int| row_at(rows, i).sender_balance),
        sender_nonce: Seq::new(N_TXS as nat, |i: int| row_at(rows, i).sender_nonce),
        sender_path_elements: Seq::new(N_TXS as nat, |i: int| row_at(rows, i).sender_path_elements),
        sender_path_indices: Seq::new(N_TXS as nat, |i: int| row_at(rows, i).sender_path_indices),
        receiver_balance: Seq::new(N_TXS as nat, |i: int| row_at(rows, i).receiver_balance),
        receiver_nonce: Seq::new(N_TXS as nat, |i: int| row_at(rows, i).receiver_nonce),
        receiver_path_elements: Seq::new(N_TXS as nat, |i: int| row_at(rows, i).receiver_path_elements),
        receiver_path_indices: Seq::new(N_TXS as nat, |i: int| row_at(rows, i).receiver_path_indices),
        sig_r8x: Seq::new(N_TXS as nat, |i: int| row_at(rows, i).sig_r8x),
        sig_r8y: Seq::new(N_TXS as nat, |i: int| row_at(rows, i).sig_r8y),
        sig_s: Seq::new(N_TXS as nat, |i: int| row_at(rows, i).sig_s),
        sender_pub_key_x: Seq::new(N_TXS as nat, |i: int| row_at(rows, i).sender_pub_key_x),
        sender_pub_key_y: Seq::new(N_TXS as nat, |i: int| row_at(rows, i).sender_pub_key_y),
    }
}

/// The witness of a batch from its transfers and its snapshot: the snapshot
/// builds the old tree; at most `N_TXS` transfers are applied; the new root is
/// that of the tree after them.
pub open spec fn witness_of(txs: Seq<L2Transaction>, snap: Seq<SnapshotAccount>) -> Result<
    WitnessText,
    WitnessError,
> {
    if snap.len() == 0 {
        Err(WitnessError::EmptySnapshot)
    } else {
        let t0 = snapshot_tree(snap);
        let n = if txs.len() < N_TXS {
            txs.len() as int
        } else {
            N_TXS as int
        };
        match witness_run(t0, snapshot_index(snap), txs.take(n)) {
            Err(e) => Err(e),
            Ok(out) => Ok(
                witness_text(
                    t0.root,
                    out.tree.root,
                    snap[0],
                    t0.siblings_of(snap[0].leaf_index as nat),
                    out.rows,
                ),
            ),
        }
    }
}

/// The text "0".
pub fn zero_decimal() -> (res: String)
    ensures
        res@ == zero_text(),
{
    let s = "0".to_string();
    proof {
        reveal_strlit("0");
    }
    s
}

/// The decimal text of a 32-byte big-endian number.
fn bytes_to_decimal(bytes: &[u8; 32]) -> (res: String)
    ensures
        res@ == dec32(*bytes),
{
    biguint_be_to_decimal(bytes.as_slice())
}

fn zero_strings(n: usize) -> (res: Vec<String>)
    ensures
        texts(res@) == zeros_text(n as nat),
{
    let mut v: Vec<String> = Vec::new();
    let mut i: usize = 0;
    while i < n
        invariant
            0 <= i <= n,
            v@.len() == i,
            forall|k: int| 0 <= k < i ==> #[trigger] v@[k]@ == zero_text(),
        decreases n - i,
    {
        v.push(zero_decimal());
        i += 1;
    }
    assert(texts(v@) =~= zeros_text(n as nat));
    v
}

fn path_strings(p: &Vec<PoseidonHash>) -> (res: Vec<String>)
    ensures
        texts(res@) == path_text(p@),
{
    let mut v: Vec<String> = Vec::new();
    let mut i: usize = 0;
    while i < p.len()
        invariant
            0 <= i <= p@.len(),
            v@.len() == i,
            forall|k: int| 0 <= k < i ==> #[trigger] v@[k]@ == dec32(p@[k].0),
        decreases p@.len() - i,
    {
        v.push(bytes_to_decimal(&p[i].0));
        i += 1;
    }
    assert(texts(v@) =~= path_text(p@));
    v
}

fn index_bit_strings(index: u64) -> (res: Vec<String>)
    ensures
        texts(res@) == bits_text(index),
{
    let mut v: Vec<String> = Vec::new();
    let mut x: u64 = index;
    let mut j: usize = 0;
    while j < DEPTH
        invariant
            0 <= j <= DEPTH,
            v@.len() == j,
            x as nat == cur_at(index as nat, j as nat),
            forall|k: int| 0 <= k < j ==> #[trigger] v@[k]@ == dec_string(cur_at(index as nat, k as nat) % 2),
        decreases DEPTH - j,
    {
        v.push(u128_to_decimal((x % 2) as u128));
        x = x / 2;
        j += 1;
    }
    assert(texts(v@) =~= bits_text(index));
    v
}

/// The exec form of a `TxWitness`.
struct TxWitnessRow {
    tx: L2Transaction,
    sender: SnapshotAccount,
    recipient: SnapshotAccount,
    sender_l2: PoseidonHash,
    receiver_l2: PoseidonHash,
    sender_path: Vec<PoseidonHash>,
    receiver_path: Vec<PoseidonHash>,
}

impl View for TxWitnessRow {
    type V = TxWitness;

    closed spec fn view(&self) -> TxWitness {
        TxWitness {
            tx: self.tx,
            sender: self.sender,
            recipient: self.recipient,
            sender_l2: self.sender_l2,
            receiver_l2: self.receiver_l2,
            sender_path: self.sender_path@,
            receiver_path: self.receiver_path@,
        }
    }
}

spec fn row_views(rows: Seq<TxWitnessRow>) -> Seq<TxWitness> {
    rows.map_values(|r: TxWitnessRow| r@)
}

/// The text one transfer contributes to each per-transfer column of the witness.
pub struct RowText {
    pub tx_sender_address: Seq<char>,
    pub tx_receiver_address: Seq<char>,
    pub tx_amount: Seq<char>,
    pub tx_nonce: Seq<char>,
    pub sender_balance: Seq<char>,
    pub sender_nonce: Seq<char>,
    pub receiver_balance: Seq<char>,
    pub receiver_nonce: Seq<char>,
    pub sig_r8x: Seq<char>,
    pub sig_r8y: Seq<char>,
    pub sig_s: Seq<char>,
    pub sender_pub_key_x: Seq<char>,
    pub sender_pub_key_y: Seq<char>,
    pub sender_path_elements: Seq<Seq<char>>,
    pub sender_path_indices: Seq<Seq<char>>,
    pub receiver_path_elements: Seq<Seq<char>>,
    pub receiver_path_indices: Seq<Seq<char>>,
}

/// The witness text of one applied transfer.
pub open spec fn row_text(r: TxWitness) -> RowText {
    RowText {
        tx_sender_address: dec32(r.sender_l2.0),
        tx_receiver_address: dec32(r.receiver_l2.0),
        tx_amount: dec_string(r.tx.amount as nat),
        tx_nonce: dec_string(r.tx.nonce as nat),
        sender_balance: dec_string(r.sender.pre_balance as nat),
        sender_nonce: dec_string(r.sender.pre_nonce as nat),
        receiver_balance: dec_string(r.recipient.pre_balance as nat),
        receiver_nonce: dec_string(r.recipient.pre_nonce as nat),
        sig_r8x: dec32(r.tx.sig_r8_x),
        sig_r8y: dec32(r.tx.sig_r8_y),
        sig_s: dec32(r.tx.sig_s),
        sender_pub_key_x: dec32(r.sender.l2_pubkey_x),
        sender_pub_key_y: dec32(r.sender.l2_pubkey_y),
        sender_path_elements: path_text(r.sender_path),
        sender_path_indices: bits_text(r.sender.leaf_index),
        receiver_path_elements: path_text(r.receiver_path),
        receiver_path_indices: bits_text(r.recipient.leaf_index),
    }
}

/// The text of an unused transfer slot: every number zero.
pub open spec fn empty_row_text() -> RowText {
    RowText {
        tx_sender_address: zero_text(),
        tx_receiver_address: zero_text(),
        tx_amount: zero_text(),
        tx_nonce: zero_text(),
        sender_balance: zero_text(),
        sender_nonce: zero_text(),
        receiver_balance: zero_text(),
        receiver_nonce: zero_text(),
        sig_r8x: zero_text(),
        sig_r8y: zero_text(),
        sig_s: zero_text(),
        sender_pub_key_x: zero_text(),
        sender_pub_key_y: zero_text(),
        sender_path_elements: zeros_text(DEPTH as nat),
        sender_path_indices: zeros_text(DEPTH as nat),
        receiver_path_elements: zeros_text(DEPTH as nat),
        receiver_path_indices: zeros_text(DEPTH as nat),
    }
}

struct RowStrings {
    tx_sender_address: String,
    tx_receiver_address: String,
    tx_amount: String,
    tx_nonce: String,
    sender_balance: String,
    sender_nonce: String,
    receiver_balance: String,
    receiver_nonce: String,
    sig_r8x: String,
    sig_r8y: String,
    sig_s: String,
    sender_pub_key_x: String,
    sender_pub_key_y: String,
    sender_path_elements: Vec<String>,
    sender_path_indices: Vec<String>,
    receiver_path_elements: Vec<String>,
    receiver_path_indices: Vec<String>,
}

impl View for RowStrings {
    type V = RowText;

    closed spec fn view(&self) -> RowText {
        RowText {
            tx_sender_address: self.tx_sender_address@,
            tx_receiver_address: self.tx_receiver_address@,
            tx_amount: self.tx_amount@,
            tx_nonce: self.tx_nonce@,
            sender_balance: self.sender_balance@,
            sender_nonce: self.sender_nonce@,
            receiver_balance: self.receiver_balance@,
            receiver_nonce: self.receiver_nonce@,
            sig_r8x: self.sig_r8x@,
            sig_r8y: self.sig_r8y@,
            sig_s: self.sig_s@,
            sender_pub_key_x: self.sender_pub_key_x@,
            sender_pub_key_y: self.sender_pub_key_y@,
            sender_path_elements: texts(self.sender_path_elements@),
            sender_path_indices: texts(self.sender_path_indices@),
            receiver_path_elements: texts(self.receiver_path_elements@),
            receiver_path_indices: texts(self.receiver_path_indices@),
        }
    }
}

fn render_row(r: &TxWitnessRow) -> (res: RowStrings)
    ensures
        res@ == row_text(r@),
{
    RowStrings {
        tx_sender_address: bytes_to_decimal(&r.sender_l2.0),
        tx_receiver_address: bytes_to_decimal(&r.receiver_l2.0),
        tx_amount: u128_to_decimal(r.tx.amount),
        tx_nonce: u128_to_decimal(r.tx.nonce as u128),
        sender_balance: u128_to_decimal(r.sender.pre_balance),
        sender_nonce: u128_to_decimal(r.sender.pre_nonce as u128),
        receiver_balance: u128_to_decimal(r.recipient.pre_balance),
        receiver_nonce: u128_to_decimal(r.recipient.pre_nonce as u128),
        sig_r8x: bytes_to_decimal(&r.tx.sig_r8_x),
        sig_r8y: bytes_to_decimal(&r.tx.sig_r8_y),
        sig_s: bytes_to_decimal(&r.tx.sig_s),
        sender_pub_key_x: bytes_to_decimal(&r.sender.l2_pubkey_x),
        sender_pub_key_y: bytes_to_decimal(&r.sender.l2_pubkey_y),
        sender_path_elements: path_strings(&r.sender_path),
        sender_path_indices: index_bit_strings(r.sender.leaf_index),
        receiver_path_elements: path_strings(&r.receiver_path),
        receiver_path_indices: index_bit_strings(r.recipient.leaf_index),
    }
}

fn empty_row() -> (res: RowStrings)
    ensures
        res@ == empty_row_text(),
{
    RowStrings {
        tx_sender_address: zero_decimal(),
        tx_receiver_address: zero_decimal(),
        tx_amount: zero_decimal(),
        tx_nonce: zero_decimal(),
        sender_balance: zero_decimal(),
        sender_nonce: zero_decimal(),
        receiver_balance: zero_decimal(),
        receiver_nonce: zero_decimal(),
        sig_r8x: zero_decimal(),
        sig_r8y: zero_decimal(),
        sig_s: zero_decimal(),
        sender_pub_key_x: zero_decimal(),
        sender_pub_key_y: zero_decimal(),
        sender_path_elements: zero_strings(DEPTH),
        sender_path_indices: zero_strings(DEPTH),
        receiver_path_elements: zero_strings(DEPTH),
        receiver_path_indices: zero_strings(DEPTH),
    }
}

struct TxColumns {
    tx_sender_address: Vec<String>,
    tx_receiver_address: Vec<String>,
    tx_amount: Vec<String>,
    tx_nonce: Vec<String>,
    sender_balance: Vec<String>,
    sender_nonce: Vec<String>,
    receiver_balance: Vec<String>,
    receiver_nonce: Vec<String>,
    sig_r8x: Vec<String>,
    sig_r8y: Vec<String>,
    sig_s: Vec<String>,
    sender_pub_key_x: Vec<String>,
    sender_pub_key_y: Vec<String>,
    sender_path_elements: Vec<Vec<String>>,
    sender_path_indices: Vec<Vec<String>>,
    receiver_path_elements: Vec<Vec<String>>,
    receiver_path_indices: Vec<Vec<String>>,
}

fn tx_columns(rows: &Vec<TxWitnessRow>) -> (res: TxColumns)
    requires
        rows@.len() <= N_TXS,
    ensures
        texts(res.tx_sender_address@) == Seq::new(N_TXS as nat, |i: int| row_at(row_views(rows@), i).tx_sender_address),
        texts(res.tx_receiver_address@) == Seq::new(N_TXS as nat, |i: int| row_at(row_views(rows@), i).tx_receiver_address),
        texts(res.tx_amount@) == Seq::new(N_TXS as nat, |i: int| row_at(row_views(rows@), i).tx_amount),
        texts(res.tx_nonce@) == Seq::new(N_TXS as nat, |i: int| row_at(row_views(rows@), i).tx_nonce),
        texts(res.sender_balance@) == Seq::new(N_TXS as nat, |i: int| row_at(row_views(rows@), i).sender_balance),
        texts(res.sender_nonce@) == Seq::new(N_TXS as nat, |i: int| row_at(row_views(rows@), i).sender_nonce),
        texts(res.receiver_balance@) == Seq::new(N_TXS as nat, |i: int| row_at(row_views(rows@), i).receiver_balance),
        texts(res.receiver_nonce@) == Seq::new(N_TXS as nat, |i: int| row_at(row_views(rows@), i).receiver_nonce),
        texts(res.sig_r8x@) == Seq::new(N_TXS as nat, |i: int| row_at(row_views(rows@), i).sig_r8x),
        texts(res.sig_r8y@) == Seq::new(N_TXS as nat, |i: int| row_at(row_views(rows@), i).sig_r8y),
        texts(res.sig_s@) == Seq::new(N_TXS as nat, |i: int| row_at(row_views(rows@), i).sig_s),
        texts(res.sender_pub_key_x@) == Seq::new(N_TXS as nat, |i: int| row_at(row_views(rows@), i).sender_pub_key_x),
        texts(res.sender_pub_key_y@) == Seq::new(N_TXS as nat, |i: int| row_at(row_views(rows@), i).sender_pub_key_y),
        texts2(res.sender_path_elements@) == Seq::new(N_TXS as nat, |i: int| row_at(row_views(rows@), i).sender_path_elements),
        texts2(res.sender_path_indices@) == Seq::new(N_TXS as nat, |i: int| row_at(row_views(rows@), i).sender_path_indices),
        texts2(res.receiver_path_elements@) == Seq::new(N_TXS as nat, |i: int| row_at(row_views(rows@), i).receiver_path_elements),
        texts2(res.receiver_path_indices@) == Seq::new(N_TXS as nat, |i: int| row_at(row_views(rows@), i).receiver_path_indices),
{
    let ghost rv = row_views(rows@);
    let mut tx_sender_address: Vec<String> = Vec::new();
    let mut tx_receiver_address: Vec<String> = Vec::new();
    let mut tx_amount: Vec<String> = Vec::new();
    let mut tx_nonce: Vec<String> = Vec::new();
    let mut sender_balance: Vec<String> = Vec::new();
    let mut sender_nonce: Vec<String> = Vec::new();
    let mut receiver_balance: Vec<String> = Vec::new();
    let mut receiver_nonce: Vec<String> = Vec::new();
    let mut sig_r8x: Vec<String> = Vec::new();
    let mut sig_r8y: Vec<String> = Vec::new();
    let mut sig_s: Vec<String> = Vec::new();
    let mut sender_pub_key_x: Vec<String> = Vec::new();
    let mut sender_pub_key_y: Vec<String> = Vec::new();
    let mut sender_path_elements: Vec<Vec<String>> = Vec::new();
    let mut sender_path_indices: Vec<Vec<String>> = Vec::new();
    let mut receiver_path_elements: Vec<Vec<String>> = Vec::new();
    let mut receiver_path_indices: Vec<Vec<String>> = Vec::new();
    let mut i: usize = 0;
    while i < N_TXS
        invariant
            0 <= i <= N_TXS,
            rows@.len() <= N_TXS,
            rv == row_views(rows@),
            tx_sender_address@.len() == i,
            tx_receiver_address@.len() == i,
            tx_amount@.len() == i,
            tx_nonce@.len() == i,
            sender_balance@.len() == i,
            sender_nonce@.len() == i,
            receiver_balance@.len() == i,
            receiver_nonce@.len() == i,
            sig_r8x@.len() == i,
            sig_r8y@.len() == i,
            sig_s@.len() == i,
            sender_pub_key_x@.len() == i,
            sender_pub_key_y@.len() == i,
            sender_path_elements@.len() == i,
            sender_path_indices@.len() == i,
            receiver_path_elements@.len() == i,
            receiver_path_indices@.len() == i,
            forall|k: int| 0 <= k < i ==> #[trigger] tx_sender_address@[k]@ == row_at(rv, k).tx_sender_address,
            forall|k: int| 0 <= k < i ==> #[trigger] tx_receiver_address@[k]@ == row_at(rv, k).tx_receiver_address,
            forall|k: int| 0 <= k < i ==> #[trigger] tx_amount@[k]@ == row_at(rv, k).tx_amount,
            forall|k: int| 0 <= k < i ==> #[trigger] tx_nonce@[k]@ == row_at(rv, k).tx_nonce,
            forall|k: int| 0 <= k < i ==> #[trigger] sender_balance@[k]@ == row_at(rv, k).sender_balance,
            forall|k: int| 0 <= k < i ==> #[trigger] sender_nonce@[k]@ == row_at(rv, k).sender_nonce,
            forall|k: int| 0 <= k < i ==> #[trigger] receiver_balance@[k]@ == row_at(rv, k).receiver_balance,
            forall|k: int| 0 <= k < i ==> #[trigger] receiver_nonce@[k]@ == row_at(rv, k).receiver_nonce,
            forall|k: int| 0 <= k < i ==> #[trigger] sig_r8x@[k]@ == row_at(rv, k).sig_r8x,
            forall|k: int| 0 <= k < i ==> #[trigger] sig_r8y@[k]@ == row_at(rv, k).sig_r8y,
            forall|k: int| 0 <= k < i ==> #[trigger] sig_s@[k]@ == row_at(rv, k).sig_s,
            forall|k: int| 0 <= k < i ==> #[trigger] sender_pub_key_x@[k]@ == row_at(rv, k).sender_pub_key_x,
            forall|k: int| 0 <= k < i ==> #[trigger] sender_pub_key_y@[k]@ == row_at(rv, k).sender_pub_key_y,
            forall|k: int| 0 <= k < i ==> texts(#[trigger] sender_path_elements@[k]@) == row_at(rv, k).sender_path_elements,
            forall|k: int| 0 <= k < i ==> texts(#[trigger] sender_path_indices@[k]@) == row_at(rv, k).sender_path_indices,
            forall|k: int| 0 <= k < i ==> texts(#[trigger] receiver_path_elements@[k]@) == row_at(rv, k).receiver_path_elements,
            forall|k: int| 0 <= k < i ==> texts(#[trigger] receiver_path_indices@[k]@) == row_at(rv, k).receiver_path_indices,
        decreases N_TXS - i,
    {
        let r = if i < rows.len() {
            render_row(&rows[i])
        } else {
            empty_row()
        };
        proof {
            assert(r@ == row_at(rv, i as int));
        }
        tx_sender_address.push(r.tx_sender_address);
        tx_receiver_address.push(r.tx_receiver_address);
        tx_amount.push(r.tx_amount);
        tx_nonce.push(r.tx_nonce);
        sender_balance.push(r.sender_balance);
        sender_nonce.push(r.sender_nonce);
        receiver_balance.push(r.receiver_balance);
        receiver_nonce.push(r.receiver_nonce);
        sig_r8x.push(r.sig_r8x);
        sig_r8y.push(r.sig_r8y);
        sig_s.push(r.sig_s);
        sender_pub_key_x.push(r.sender_pub_key_x);
        sender_pub_key_y.push(r.sender_pub_key_y);
        sender_path_elements.push(r.sender_path_elements);
        sender_path_indices.push(r.sender_path_indices);
        receiver_path_elements.push(r.receiver_path_elements);
        receiver_path_indices.push(r.receiver_path_indices);
        i += 1;
    }
    assert(texts(tx_sender_address@) =~= Seq::new(N_TXS as nat, |i: int| row_at(rv, i).tx_sender_address));
    assert(texts(tx_receiver_address@) =~= Seq::new(N_TXS as nat, |i: int| row_at(rv, i).tx_receiver_address));
    assert(texts(tx_amount@) =~= Seq::new(N_TXS as nat, |i: int| row_at(rv, i).tx_amount));
    assert(texts(tx_nonce@) =~= Seq::new(N_TXS as nat, |i: int| row_at(rv, i).tx_nonce));
    assert(texts(sender_balance@) =~= Seq::new(N_TXS as nat, |i: int| row_at(rv, i).sender_balance));
    assert(texts(sender_nonce@) =~= Seq::new(N_TXS as nat, |i: int| row_at(rv, i).sender_nonce));
    assert(texts(receiver_balance@) =~= Seq::new(N_TXS as nat, |i: int| row_at(rv, i).receiver_balance));
    assert(texts(receiver_nonce@) =~= Seq::new(N_TXS as nat, |i: int| row_at(rv, i).receiver_nonce));
    assert(texts(sig_r8x@) =~= Seq::new(N_TXS as nat, |i: int| row_at(rv, i).sig_r8x));
    assert(texts(sig_r8y@) =~= Seq::new(N_TXS as nat, |i: int| row_at(rv, i).sig_r8y));
    assert(texts(sig_s@) =~= Seq::new(N_TXS as nat, |i: int| row_at(rv, i).sig_s));
    assert(texts(sender_pub_key_x@) =~= Seq::new(N_TXS as nat, |i: int| row_at(rv, i).sender_pub_key_x));
    assert(texts(sender_pub_key_y@) =~= Seq::new(N_TXS as nat, |i: int| row_at(rv, i).sender_pub_key_y));
    assert(texts2(sender_path_elements@) =~= Seq::new(N_TXS as nat, |i: int| row_at(rv, i).sender_path_elements));
    assert(texts2(sender_path_indices@) =~= Seq::new(N_TXS as nat, |i: int| row_at(rv, i).sender_path_indices));
    assert(texts2(receiver_path_elements@) =~= Seq::new(N_TXS as nat, |i: int| row_at(rv, i).receiver_path_elements));
    assert(texts2(receiver_path_indices@) =~= Seq::new(N_TXS as nat, |i: int| row_at(rv, i).receiver_path_indices));
    TxColumns {
        tx_sender_address,
        tx_receiver_address,
        tx_amount,
        tx_nonce,
        sender_balance,
        sender_nonce,
        receiver_balance,
        receiver_nonce,
        sig_r8x,
        sig_r8y,
        sig_s,
        sender_pub_key_x,
        sender_pub_key_y,
        sender_path_elements,
        sender_path_indices,
        receiver_path_elements,
        receiver_path_indices,
    }
}

struct DepositColumns {
    pubkey_x: Vec<String>,
    pubkey_y: Vec<String>,
    amount: Vec<String>,
    is_new: Vec<String>,
    old_balance: Vec<String>,
    old_nonce: Vec<String>,
    path_elements: Vec<Vec<String>>,
    path_indices: Vec<Vec<String>>,
}

fn deposit_columns(first: &SnapshotAccount, dep_proof: &Vec<PoseidonHash>) -> (res: DepositColumns)
    ensures
        texts(res.pubkey_x@) == Seq::new(N_DEPOSITS as nat, |d: int| dec32(first.l2_pubkey_x)),
        texts(res.pubkey_y@) == Seq::new(N_DEPOSITS as nat, |d: int| dec32(first.l2_pubkey_y)),
        texts(res.amount@) == zeros_text(N_DEPOSITS as nat),
        texts(res.is_new@) == zeros_text(N_DEPOSITS as nat),
        texts(res.old_balance@) == Seq::new(N_DEPOSITS as nat, |d: int| dec_string(first.pre_balance as nat)),
        texts(res.old_nonce@) == Seq::new(N_DEPOSITS as nat, |d: int| dec_string(first.pre_nonce as nat)),
        texts2(res.path_elements@) == Seq::new(N_DEPOSITS as nat, |d: int| path_text(dep_proof@)),
        texts2(res.path_indices@) == Seq::new(N_DEPOSITS as nat, |d: int| bits_text(first.leaf_index)),
{
    let mut pubkey_x: Vec<String> = Vec::new();
    let mut pubkey_y: Vec<String> = Vec::new();
    let mut amount: Vec<String> = Vec::new();
    let mut is_new: Vec<String> = Vec::new();
    let mut old_balance: Vec<String> = Vec::new();
    let mut old_nonce: Vec<String> = Vec::new();
    let mut path_elements: Vec<Vec<String>> = Vec::new();
    let mut path_indices: Vec<Vec<String>> = Vec::new();
    let mut d: usize = 0;
    while d < N_DEPOSITS
        invariant
            0 <= d <= N_DEPOSITS,
            pubkey_x@.len() == d,
            pubkey_y@.len() == d,
            amount@.len() == d,
            is_new@.len() == d,
            old_balance@.len() == d,
            old_nonce@.len() == d,
            path_elements@.len() == d,
            path_indices@.len() == d,
            forall|k: int| 0 <= k < d ==> #[trigger] pubkey_x@[k]@ == dec32(first.l2_pubkey_x),
            forall|k: int| 0 <= k < d ==> #[trigger] pubkey_y@[k]@ == dec32(first.l2_pubkey_y),
            forall|k: int| 0 <= k < d ==> #[trigger] amount@[k]@ == zero_text(),
            forall|k: int| 0 <= k < d ==> #[trigger] is_new@[k]@ == zero_text(),
            forall|k: int| 0 <= k < d ==> #[trigger] old_balance@[k]@ == dec_string(first.pre_balance as nat),
            forall|k: int| 0 <= k < d ==> #[trigger] old_nonce@[k]@ == dec_string(first.pre_nonce as nat),
            forall|k: int| 0 <= k < d ==> texts(#[trigger] path_elements@[k]@) == path_text(dep_proof@),
            forall|k: int| 0 <= k < d ==> texts(#[trigger] path_indices@[k]@) == bits_text(first.leaf_index),
        decreases N_DEPOSITS - d,
    {
        pubkey_x.push(bytes_to_decimal(&first.l2_pubkey_x));
        pubkey_y.push(bytes_to_decimal(&first.l2_pubkey_y));
        amount.push(zero_decimal());
        is_new.push(zero_decimal());
        old_balance.push(u128_to_decimal(first.pre_balance));
        old_nonce.push(u128_to_decimal(first.pre_nonce as u128));
        path_elements.push(path_strings(dep_proof));
        path_indices.push(index_bit_strings(first.leaf_index));
        d += 1;
    }
    assert(texts(pubkey_x@) =~= Seq::new(N_DEPOSITS as nat, |d: int| dec32(first.l2_pubkey_x)));
    assert(texts(pubkey_y@) =~= Seq::new(N_DEPOSITS as nat, |d: int| dec32(first.l2_pubkey_y)));
    assert(texts(amount@) =~= zeros_text(N_DEPOSITS as nat));
    assert(texts(is_new@) =~= zeros_text(N_DEPOSITS as nat));
    assert(texts(old_balance@) =~= Seq::new(N_DEPOSITS as nat, |d: int| dec_string(first.pre_balance as nat)));
    assert(texts(old_nonce@) =~= Seq::new(N_DEPOSITS as nat, |d: int| dec_string(first.pre_nonce as nat)));
    assert(texts2(path_elements@) =~= Seq::new(N_DEPOSITS as nat, |d: int| path_text(dep_proof@)));
    assert(texts2(path_indices@) =~= Seq::new(N_DEPOSITS as nat, |d: int| bits_text(first.leaf_index)));
    DepositColumns { pubkey_x, pubkey_y, amount, is_new, old_balance, old_nonce, path_elements, path_indices }
}

fn assemble_witness(
    old_root: PoseidonHash,
    new_root: PoseidonHash,
    first: &SnapshotAccount,
    dep_proof: &Vec<PoseidonHash>,
    rows: &Vec<TxWitnessRow>,
) -> (w: WitnessInput)
    requires
        rows@.len() <= N_TXS,
    ensures
        w@ == witness_text(old_root, new_root, *first, dep_proof@, row_views(rows@)),
{
    let dep = deposit_columns(first, dep_proof);
    let cols = tx_columns(rows);
    let w = WitnessInput {
        old_root: bytes_to_decimal(&old_root.0),
        new_root: bytes_to_decimal(&new_root.0),
        deposits_root: zero_decimal(),
        deposit_pubkey_x: dep.pubkey_x,
        deposit_pubkey_y: dep.pubkey_y,
        deposit_amount: dep.amount,
        deposit_is_new: dep.is_new,
        deposit_old_balance: dep.old_balance,
        deposit_old_nonce: dep.old_nonce,
        deposit_path_elements: dep.path_elements,
        deposit_path_indices: dep.path_indices,
        tx_sender_address: cols.tx_sender_address,
        tx_receiver_address: cols.tx_receiver_address,
        tx_amount: cols.tx_amount,
        tx_nonce: cols.tx_nonce,
        sender_balance: cols.sender_balance,
        sender_nonce: cols.sender_nonce,
        sender_path_elements: cols.sender_path_elements,
        sender_path_indices: cols.sender_path_indices,
        receiver_balance: cols.receiver_balance,
        receiver_nonce: cols.receiver_nonce,
        receiver_path_elements: cols.receiver_path_elements,
        receiver_path_indices: cols.receiver_path_indices,
        sig_r8x: cols.sig_r8x,
        sig_r8y: cols.sig_r8y,
        sig_s: cols.sig_s,
        sender_pub_key_x: cols.sender_pub_key_x,
        sender_pub_key_y: cols.sender_pub_key_y,
    };
    assert(w@ =~= witness_text(old_root, new_root, *first, dep_proof@, row_views(rows@)));
    w
}

fn snapshot_tree_and_index(snap: &Vec<SnapshotAccount>) -> (res: (
    PoseidonMerkleTree,
    AddressMap<SnapshotAccount>,
))
    ensures
        res.0.shape_ok(),
        res.0@ == snapshot_tree(snap@),
        res.1.view() == snapshot_index(snap@),
{
    let mut tree = PoseidonMerkleTree::new(DEPTH);
    let mut by_addr: AddressMap<SnapshotAccount> = AddressMap::new();
    proof {
        assert(tree@ =~= empty_tree(DEPTH as nat));
        assert(snap@.take(0) =~= Seq::<SnapshotAccount>::empty());
    }
    let mut i: usize = 0;
    while i < snap.len()
        invariant
            0 <= i <= snap@.len(),
            tree.shape_ok(),
            tree@ == snapshot_tree(snap@.take(i as int)),
            by_addr.view() == snapshot_index(snap@.take(i as int)),
        decreases snap@.len() - i,
    {
        let a = snap[i];
        let account = AccountState {
            owner_address: a.owner_address,
            l2_address: compute_l2_address(&a.l2_pubkey_x, &a.l2_pubkey_y),
            l2_pubkey_x: a.l2_pubkey_x,
            l2_pubkey_y: a.l2_pubkey_y,
            balance: a.pre_balance,
            nonce: a.pre_nonce,
            leaf_index: a.leaf_index,
        };
        tree.update_leaf_from_account(a.leaf_index, &account);
        by_addr.insert(a.owner_address, a);
        proof {
            assert(snap@.take(i + 1).drop_last() =~= snap@.take(i as int));
            assert(snap@.take(i + 1).last() == a);
            assert(account == account_of(a));
        }
        i += 1;
    }
    proof {
        assert(snap@.take(i as int) =~= snap@);
    }
    (tree, by_addr)
}

fn witness_step_exec(
    tree: &mut PoseidonMerkleTree,
    by_addr: &mut AddressMap<SnapshotAccount>,
    tx: &L2Transaction,
    i: usize,
) -> (res: Result<TxWitnessRow, WitnessError>)
    requires
        old(tree).shape_ok(),
    ensures
        final(tree).shape_ok(),
        match res {
            Ok(row) => witness_step(old(tree)@, old(by_addr).view(), *tx, i as nat) == Ok::<
                StepOut,
                WitnessError,
            >(StepOut { row: row@, tree: final(tree)@, index: final(by_addr).view() }),
            Err(e) => witness_step(old(tree)@, old(by_addr).view(), *tx, i as nat) == Err::<
                StepOut,
                WitnessError,
            >(e),
        },
{
    let ghost t0 = tree@;
    let ghost m0 = by_addr.view();
    let sender = match by_addr.get(&tx.sender) {
        Some(a) => a,
        None => {
            return Err(WitnessError::UnknownSender(tx.sender));
        },
    };
    let recipient = match by_addr.get(&tx.recipient) {
        Some(a) => a,
        None => {
            return Err(WitnessError::UnknownRecipient(tx.recipient));
        },
    };
    let sender_l2 = compute_l2_address(&sender.l2_pubkey_x, &sender.l2_pubkey_y);
    let receiver_l2 = compute_l2_address(&recipient.l2_pubkey_x, &recipient.l2_pubkey_y);
    let sender_path = tree.get_proof(sender.leaf_index);
    if sender.pre_balance < tx.amount {
        return Err(WitnessError::SenderUnderflow(i));
    }
    let new_sender_bal = sender.pre_balance - tx.amount;
    if sender.pre_nonce == u64::MAX {
        return Err(WitnessError::SenderNonceOverflow(i));
    }
    let new_sender_nonce = sender.pre_nonce + 1;
    let updated_sender = AccountState {
        owner_address: sender.owner_address,
        l2_address: sender_l2,
        l2_pubkey_x: sender.l2_pubkey_x,
        l2_pubkey_y: sender.l2_pubkey_y,
        balance: new_sender_bal,
        nonce: new_sender_nonce,
        leaf_index: sender.leaf_index,
    };
    tree.update_leaf_from_account(sender.leaf_index, &updated_sender);
    let ghost t1 = tree@;
    let recv_path = tree.get_proof(recipient.leaf_index);
    if recipient.pre_balance > u128::MAX - tx.amount {
        return Err(WitnessError::ReceiverOverflow(i));
    }
    let new_recv_bal = recipient.pre_balance + tx.amount;
    let updated_recipient = AccountState {
        owner_address: recipient.owner_address,
        l2_address: receiver_l2,
        l2_pubkey_x: recipient.l2_pubkey_x,
        l2_pubkey_y: recipient.l2_pubkey_y,
        balance: new_recv_bal,
        nonce: recipient.pre_nonce,
        leaf_index: recipient.leaf_index,
    };
    tree.update_leaf_from_account(recipient.leaf_index, &updated_recipient);
    by_addr.insert(
        sender.owner_address,
        SnapshotAccount {
            leaf_index: sender.leaf_index,
            owner_address: sender.owner_address,
            l2_pubkey_x: sender.l2_pubkey_x,
            l2_pubkey_y: sender.l2_pubkey_y,
            pre_balance: new_sender_bal,
            pre_nonce: new_sender_nonce,
        },
    );
    by_addr.insert(
        recipient.owner_address,
        SnapshotAccount {
            leaf_index: recipient.leaf_index,
            owner_address: recipient.owner_address,
            l2_pubkey_x: recipient.l2_pubkey_x,
            l2_pubkey_y: recipient.l2_pubkey_y,
            pre_balance: new_recv_bal,
            pre_nonce: recipient.pre_nonce,
        },
    );
    let row = TxWitnessRow {
        tx: *tx,
        sender,
        recipient,
        sender_l2,
        receiver_l2,
        sender_path,
        receiver_path: recv_path,
    };
    proof {
        assert(updated_sender == written(sender, l2_of(sender), new_sender_bal, new_sender_nonce));
        assert(updated_recipient == written(recipient, l2_of(recipient), new_recv_bal, recipient.pre_nonce));
        assert(t1 == t0.update(sender.leaf_index as nat, leaf_of(updated_sender)));
    }
    Ok(row)
}

proof fn lemma_run_error_persists(
    t0: SmtView,
    m0: Map<Seq<u8>, SnapshotAccount>,
    s: Seq<L2Transaction>,
    j: int,
    k: int,
    e: WitnessError,
)
    requires
        0 <= j <= k <= s.len(),
        witness_run(t0, m0, s.take(j)) == Err::<RunOut, WitnessError>(e),
    ensures
        witness_run(t0, m0, s.take(k)) == Err::<RunOut, WitnessError>(e),
    decreases k - j,
{
    if j < k {
        assert(s.take(j + 1).drop_last() =~= s.take(j));
        lemma_run_error_persists(t0, m0, s, j + 1, k, e);
    }
}

/// No transfer before position `i` moves money from or to account `k`.
pub open spec fn untouched_before(txs: Seq<L2Transaction>, i: int, k: Seq<u8>) -> bool {
    forall|j: int| 0 <= j < i ==> (#[trigger] txs[j]).sender@ != k && txs[j].recipient@ != k
}

/// Every entry of an account index is filed under its owner's address.
pub open spec fn keyed_by_owner(m: Map<Seq<u8>, SnapshotAccount>) -> bool {
    forall|k: Seq<u8>| #[trigger] m.contains_key(k) ==> m[k].owner_address@ == k
}

/// `m` has the accounts of `m0`, each with its owner, leaf and key unchanged.
pub open spec fn same_accounts(m0: Map<Seq<u8>, SnapshotAccount>, m: Map<Seq<u8>, SnapshotAccount>) -> bool {
    &&& forall|k: Seq<u8>| #[trigger] m.contains_key(k) <==> m0.contains_key(k)
    &&& forall|k: Seq<u8>|
        #[trigger] m.contains_key(k) ==> {
            &&& m[k].owner_address == m0[k].owner_address
            &&& m[k].leaf_index == m0[k].leaf_index
            &&& m[k].l2_pubkey_x == m0[k].l2_pubkey_x
            &&& m[k].l2_pubkey_y == m0[k].l2_pubkey_y
        }
}

proof fn lemma_snapshot_index_keyed(snap: Seq<SnapshotAccount>)
    ensures
        keyed_by_owner(snapshot_index(snap)),
    decreases snap.len(),
{
    if snap.len() > 0 {
        lemma_snapshot_index_keyed(snap.drop_last());
    }
}

/// Replaying transfers keeps every account's owner, leaf and key; row `i`
/// records transfer `i` with the sender and recipient entries filed under its
/// sender's and recipient's addresses.
proof fn lemma_run_rows(t0: SmtView, m0: Map<Seq<u8>, SnapshotAccount>, txs: Seq<L2Transaction>)
    requires
        keyed_by_owner(m0),
        witness_run(t0, m0, txs) is Ok,
    ensures
        ({
            let out = witness_run(t0, m0, txs)->Ok_0;
            &&& out.rows.len() == txs.len()
            &&& keyed_by_owner(out.index)
            &&& same_accounts(m0, out.index)
            &&& forall|i: int|
                #![trigger out.rows[i]]
                0 <= i < txs.len() ==> {
                    &&& m0.contains_key(txs[i].sender@)
                    &&& m0.contains_key(txs[i].recipient@)
                    &&& out.rows[i].tx == txs[i]
                    &&& out.rows[i].sender.l2_pubkey_x == m0[txs[i].sender@].l2_pubkey_x
                    &&& out.rows[i].sender.l2_pubkey_y == m0[txs[i].sender@].l2_pubkey_y
                    &&& out.rows[i].sender.leaf_index == m0[txs[i].sender@].leaf_index
                    &&& out.rows[i].recipient.l2_pubkey_x == m0[txs[i].recipient@].l2_pubkey_x
                    &&& out.rows[i].recipient.l2_pubkey_y == m0[txs[i].recipient@].l2_pubkey_y
                    &&& out.rows[i].recipient.leaf_index == m0[txs[i].recipient@].leaf_index
                    &&& out.rows[i].sender_l2 == l2_of(out.rows[i].sender)
                    &&& out.rows[i].receiver_l2 == l2_of(out.rows[i].recipient)
                    &&& untouched_before(txs, i, txs[i].sender@) ==> out.rows[i].sender
                        == m0[txs[i].sender@]
                    &&& untouched_before(txs, i, txs[i].recipient@) ==> out.rows[i].recipient
                        == m0[txs[i].recipient@]
                }
            &&& forall|k: Seq<u8>|
                #[trigger] m0.contains_key(k) && untouched_before(txs, txs.len() as int, k)
                    ==> out.index[k] == m0[k]
        }),
    decreases txs.len(),
{
    if txs.len() > 0 {
        let pre = txs.drop_last();
        let last = txs.last();
        lemma_run_rows(t0, m0, pre);
        let out = witness_run(t0, m0, pre)->Ok_0;
        let m = out.index;
        let step = witness_step(out.tree, m, last, (txs.len() - 1) as nat)->Ok_0;
        let sa = m[last.sender@];
        let ra = m[last.recipient@];
        let nb = (sa.pre_balance - last.amount) as u128;
        let nn = (sa.pre_nonce + 1) as u64;
        let rb = (ra.pre_balance + last.amount) as u128;
        let m1 = m.insert(sa.owner_address@, with_balance(sa, nb, nn));
        let m2 = m1.insert(ra.owner_address@, with_balance(ra, rb, ra.pre_nonce));
        assert(step.index == m2);
        assert(sa.owner_address@ == last.sender@);
        assert(ra.owner_address@ == last.recipient@);
        assert(m1.contains_key(last.recipient@));
        assert(m1[last.recipient@].l2_pubkey_x == m[last.recipient@].l2_pubkey_x);
        assert(ra == m1[last.recipient@] || ra.owner_address@ == sa.owner_address@);
        let rows = witness_run(t0, m0, txs)->Ok_0.rows;
        assert(rows == out.rows.push(step.row));
        assert forall|k: Seq<u8>| #[trigger] m2.contains_key(k) implies m2[k].owner_address@ == k by {
            if k != last.recipient@ && k != last.sender@ {
                assert(m2[k] == m[k]);
            }
        }
        assert forall|k: Seq<u8>| #[trigger] m2.contains_key(k) <==> m0.contains_key(k) by {
            assert(m.contains_key(k) <==> m0.contains_key(k));
        }
        assert forall|k: Seq<u8>| #[trigger] m2.contains_key(k) implies {
            &&& m2[k].owner_address == m0[k].owner_address
            &&& m2[k].leaf_index == m0[k].leaf_index
            &&& m2[k].l2_pubkey_x == m0[k].l2_pubkey_x
            &&& m2[k].l2_pubkey_y == m0[k].l2_pubkey_y
        } by {
            assert(m.contains_key(k));
        }
        assert forall|i: int| #![trigger rows[i]] 0 <= i < txs.len() implies {
            &&& m0.contains_key(txs[i].sender@)
            &&& m0.contains_key(txs[i].recipient@)
            &&& rows[i].tx == txs[i]
            &&& rows[i].sender.l2_pubkey_x == m0[txs[i].sender@].l2_pubkey_x
            &&& rows[i].sender.l2_pubkey_y == m0[txs[i].sender@].l2_pubkey_y
            &&& rows[i].sender.leaf_index == m0[txs[i].sender@].leaf_index
            &&& rows[i].recipient.l2_pubkey_x == m0[txs[i].recipient@].l2_pubkey_x
            &&& rows[i].recipient.l2_pubkey_y == m0[txs[i].recipient@].l2_pubkey_y
            &&& rows[i].recipient.leaf_index == m0[txs[i].recipient@].leaf_index
            &&& rows[i].sender_l2 == l2_of(rows[i].sender)
            &&& rows[i].receiver_l2 == l2_of(rows[i].recipient)
            &&& untouched_before(txs, i, txs[i].sender@) ==> rows[i].sender == m0[txs[i].sender@]
            &&& untouched_before(txs, i, txs[i].recipient@) ==> rows[i].recipient
                == m0[txs[i].recipient@]
        } by {
            if i < txs.len() - 1 {
                assert(rows[i] == out.rows[i]);
                assert(txs[i] == pre[i]);
                if untouched_before(txs, i, txs[i].sender@) {
                    assert(untouched_before(pre, i, pre[i].sender@));
                }
                if untouched_before(txs, i, txs[i].recipient@) {
                    assert(untouched_before(pre, i, pre[i].recipient@));
                }
            } else {
                if untouched_before(txs, i, txs[i].sender@) {
                    assert(untouched_before(pre, pre.len() as int, last.sender@));
                }
                if untouched_before(txs, i, txs[i].recipient@) {
                    assert(untouched_before(pre, pre.len() as int, last.recipient@));
                }
                assert(rows[i] == step.row);
                assert(txs[i] == last);
                assert(m.contains_key(last.sender@) && m.contains_key(last.recipient@));
            }
        }
        assert forall|k: Seq<u8>|
            #[trigger] m0.contains_key(k) && untouched_before(txs, txs.len() as int, k) implies m2[k]
            == m0[k] by {
            assert(txs[txs.len() - 1] == last);
            assert(untouched_before(pre, pre.len() as int, k));
        }
    }
}

/// The signature columns of the witness name each transfer's sender: for
/// every transfer the witness applies, the sender's key columns are the
/// decimal texts of the key of the snapshot entry filed under `tx.sender`, the
/// sender and receiver address columns are the Poseidon hashes of the
/// sender's and recipient's snapshot keys, the signature, amount and nonce
/// columns are the transfer's own, and the path bits are those of the
/// sender's and recipient's snapshot leaves; a party that no earlier
/// transfer touched shows its snapshot balance and nonce; every slot past the
/// last transfer is zero.
pub proof fn lemma_witness_sender_columns(txs: Seq<L2Transaction>, snap: Seq<SnapshotAccount>)
    requires
        witness_of(txs, snap) is Ok,
    ensures
        ({
            let w = witness_of(txs, snap)->Ok_0;
            let m0 = snapshot_index(snap);
            forall|i: int|
                #![trigger txs[i]]
                0 <= i < txs.len() && i < N_TXS ==> {
                    let sa = m0[txs[i].sender@];
                    let ra = m0[txs[i].recipient@];
                    &&& m0.contains_key(txs[i].sender@)
                    &&& m0.contains_key(txs[i].recipient@)
                    &&& w.sender_pub_key_x[i] == dec32(sa.l2_pubkey_x)
                    &&& w.sender_pub_key_y[i] == dec32(sa.l2_pubkey_y)
                    &&& w.tx_sender_address[i] == dec32(poseidon2(sa.l2_pubkey_x, sa.l2_pubkey_y).0)
                    &&& w.tx_receiver_address[i] == dec32(
                        poseidon2(ra.l2_pubkey_x, ra.l2_pubkey_y).0,
                    )
                    &&& w.sig_r8x[i] == dec32(txs[i].sig_r8_x)
                    &&& w.sig_r8y[i] == dec32(txs[i].sig_r8_y)
                    &&& w.sig_s[i] == dec32(txs[i].sig_s)
                    &&& w.tx_amount[i] == dec_string(txs[i].amount as nat)
                    &&& w.tx_nonce[i] == dec_string(txs[i].nonce as nat)
                    &&& w.sender_path_indices[i] == bits_text(sa.leaf_index)
                    &&& w.receiver_path_indices[i] == bits_text(ra.leaf_index)
                    &&& untouched_before(txs, i, txs[i].sender@) ==> w.sender_balance[i]
                        == dec_string(sa.pre_balance as nat) && w.sender_nonce[i] == dec_string(
                        sa.pre_nonce as nat,
                    )
                    &&& untouched_before(txs, i, txs[i].recipient@) ==> w.receiver_balance[i]
                        == dec_string(ra.pre_balance as nat) && w.receiver_nonce[i] == dec_string(
                        ra.pre_nonce as nat,
                    )
                }
        }),
        ({
            let w = witness_of(txs, snap)->Ok_0;
            forall|i: int|
                txs.len() <= i < N_TXS ==> {
                    &&& #[trigger] w.tx_sender_address[i] == zero_text()
                    &&& w.tx_receiver_address[i] == zero_text()
                    &&& w.tx_amount[i] == zero_text()
                    &&& w.tx_nonce[i] == zero_text()
                    &&& w.sender_pub_key_x[i] == zero_text()
                    &&& w.sender_pub_key_y[i] == zero_text()
                    &&& w.sig_r8x[i] == zero_text()
                    &&& w.sig_r8y[i] == zero_text()
                    &&& w.sig_s[i] == zero_text()
                }
        }),
{
    let n = if txs.len() < N_TXS {
        txs.len() as int
    } else {
        N_TXS as int
    };
    let sub = txs.take(n);
    let m0 = snapshot_index(snap);
    let t0 = snapshot_tree(snap);
    lemma_snapshot_index_keyed(snap);
    lemma_run_rows(t0, m0, sub);
    let out = witness_run(t0, m0, sub)->Ok_0;
    assert forall|i: int| #![trigger txs[i]] 0 <= i < txs.len() && i < N_TXS implies {
        let w = witness_of(txs, snap)->Ok_0;
        let sa = m0[txs[i].sender@];
        let ra = m0[txs[i].recipient@];
        &&& m0.contains_key(txs[i].sender@)
        &&& m0.contains_key(txs[i].recipient@)
        &&& w.sender_pub_key_x[i] == dec32(sa.l2_pubkey_x)
        &&& w.sender_pub_key_y[i] == dec32(sa.l2_pubkey_y)
        &&& w.tx_sender_address[i] == dec32(poseidon2(sa.l2_pubkey_x, sa.l2_pubkey_y).0)
        &&& w.tx_receiver_address[i] == dec32(poseidon2(ra.l2_pubkey_x, ra.l2_pubkey_y).0)
        &&& w.sig_r8x[i] == dec32(txs[i].sig_r8_x)
        &&& w.sig_r8y[i] == dec32(txs[i].sig_r8_y)
        &&& w.sig_s[i] == dec32(txs[i].sig_s)
        &&& w.tx_amount[i] == dec_string(txs[i].amount as nat)
        &&& w.tx_nonce[i] == dec_string(txs[i].nonce as nat)
        &&& w.sender_path_indices[i] == bits_text(sa.leaf_index)
        &&& w.receiver_path_indices[i] == bits_text(ra.leaf_index)
        &&& untouched_before(txs, i, txs[i].sender@) ==> w.sender_balance[i] == dec_string(
            sa.pre_balance as nat,
        ) && w.sender_nonce[i] == dec_string(sa.pre_nonce as nat)
        &&& untouched_before(txs, i, txs[i].recipient@) ==> w.receiver_balance[i] == dec_string(
            ra.pre_balance as nat,
        ) && w.receiver_nonce[i] == dec_string(ra.pre_nonce as nat)
    } by {
        assert(sub[i] == txs[i]);
        if untouched_before(txs, i, txs[i].sender@) {
            assert(untouched_before(sub, i, sub[i].sender@));
        }
        if untouched_before(txs, i, txs[i].recipient@) {
            assert(untouched_before(sub, i, sub[i].recipient@));
        }
        assert(out.rows[i].tx == sub[i]);
        assert(row_at(out.rows, i) == row_text(out.rows[i]));
    }
    let w = witness_of(txs, snap)->Ok_0;
    assert forall|i: int| txs.len() <= i < N_TXS implies {
        &&& #[trigger] w.tx_sender_address[i] == zero_text()
        &&& w.tx_receiver_address[i] == zero_text()
        &&& w.tx_amount[i] == zero_text()
        &&& w.tx_nonce[i] == zero_text()
        &&& w.sender_pub_key_x[i] == zero_text()
        &&& w.sender_pub_key_y[i] == zero_text()
        &&& w.sig_r8x[i] == zero_text()
        &&& w.sig_r8y[i] == zero_text()
        &&& w.sig_s[i] == zero_text()
    } by {
        assert(row_at(out.rows, i) == empty_row_text());
    }
}

/// The no-op deposits describe the first snapshot entry: every deposit slot
/// holds the decimal texts of its key, balance and nonce, a zero amount, its
/// path in the snapshot tree and its leaf's index bits.
pub proof fn lemma_witness_deposit_columns(txs: Seq<L2Transaction>, snap: Seq<SnapshotAccount>)
    requires
        witness_of(txs, snap) is Ok,
    ensures
        ({
            let w = witness_of(txs, snap)->Ok_0;
            let a = snap[0];
            &&& w.deposit_pubkey_x.len() == N_DEPOSITS
            &&& w.deposit_pubkey_y.len() == N_DEPOSITS
            &&& w.deposit_old_balance.len() == N_DEPOSITS
            &&& w.deposit_old_nonce.len() == N_DEPOSITS
            &&& w.deposit_path_elements.len() == N_DEPOSITS
            &&& forall|d: int|
                #![trigger w.deposit_pubkey_x[d]]
                0 <= d < N_DEPOSITS ==> {
                    &&& w.deposit_pubkey_x[d] == dec32(a.l2_pubkey_x)
                    &&& w.deposit_pubkey_y[d] == dec32(a.l2_pubkey_y)
                    &&& w.deposit_old_balance[d] == dec_string(a.pre_balance as nat)
                    &&& w.deposit_old_nonce[d] == dec_string(a.pre_nonce as nat)
                    &&& w.deposit_amount[d] == zero_text()
                    &&& w.deposit_path_elements[d] == path_text(
                        snapshot_tree(snap).siblings_of(a.leaf_index as nat),
                    )
                    &&& w.deposit_path_indices[d] == bits_text(a.leaf_index)
                }
        }),
{
}

proof fn lemma_snapshot_tree_shape(snap: Seq<SnapshotAccount>)
    requires
        forall|j: int| 0 <= j < snap.len() ==> (#[trigger] snap[j]).leaf_index < pow2(DEPTH as nat),
    ensures
        snapshot_tree(snap).wf(),
        snapshot_tree(snap).rooted(),
        snapshot_tree(snap).depth == DEPTH,
        snap.len() > 0 && (forall|j: int| 0 < j < snap.len() ==> (#[trigger] snap[j]).leaf_index
            != snap[0].leaf_index) ==> snapshot_tree(snap).node(0, snap[0].leaf_index as nat)
            == leaf_of(account_of(snap[0])),
    decreases snap.len(),
{
    if snap.len() == 0 {
        let t = empty_tree(DEPTH as nat);
        assert forall|l: int| 0 < l <= t.depth implies #[trigger] t.defaults[l] == poseidon2(
            t.defaults[l - 1].0,
            t.defaults[l - 1].0,
        ) by {
            assert(t.defaults[l] == default_node(l as nat));
            assert(t.defaults[l - 1] == default_node((l - 1) as nat));
        }
    } else {
        let pre = snap.drop_last();
        let a = snap.last();
        assert forall|j: int| 0 <= j < pre.len() implies (#[trigger] pre[j]).leaf_index < pow2(
            DEPTH as nat,
        ) by {
            assert(pre[j] == snap[j]);
        }
        lemma_snapshot_tree_shape(pre);
        let t = snapshot_tree(pre);
        assert(pow2(DEPTH as nat) <= level_span()) by {
            vstd::arithmetic::power2::lemma_pow2_strictly_increases(DEPTH as nat, 64);
            vstd::arithmetic::power2::lemma2_to64();
        }
        assert(a == snap[snap.len() - 1]);
        lemma_update_preserves_wf(t, a.leaf_index as nat, leaf_of(account_of(a)));
        lemma_update_read_back(t, a.leaf_index as nat, leaf_of(account_of(a)), snap[0].leaf_index as nat);
        if snap.len() > 1 && (forall|j: int| 0 < j < snap.len() ==> (#[trigger] snap[j]).leaf_index
            != snap[0].leaf_index) {
            assert(pre[0] == snap[0]);
            assert forall|j: int| 0 < j < pre.len() implies (#[trigger] pre[j]).leaf_index
                != pre[0].leaf_index by {
                assert(pre[j] == snap[j]);
            }
        }
    }
}

/// The no-op deposits are consistent with the old root: when every snapshot
/// entry's leaf lies inside the tree and no later entry rewrites the first
/// entry's leaf, the commitment of the first entry (the account the deposit
/// columns describe) folded with the deposit path is the witness's old root.
pub proof fn lemma_witness_deposit_path_folds(txs: Seq<L2Transaction>, snap: Seq<SnapshotAccount>)
    requires
        witness_of(txs, snap) is Ok,
        forall|j: int| 0 <= j < snap.len() ==> (#[trigger] snap[j]).leaf_index < pow2(DEPTH as nat),
        forall|j: int| 0 < j < snap.len() ==> (#[trigger] snap[j]).leaf_index != snap[0].leaf_index,
    ensures
        ({
            let w = witness_of(txs, snap)->Ok_0;
            let t0 = snapshot_tree(snap);
            let a = snap[0];
            &&& fold_path(leaf_of(account_of(a)), a.leaf_index as nat, t0.siblings_of(a.leaf_index as nat))
                == t0.root
            &&& w.old_root == dec32(t0.root.0)
            &&& forall|d: int|
                0 <= d < N_DEPOSITS ==> #[trigger] w.deposit_path_elements[d] == path_text(
                    t0.siblings_of(a.leaf_index as nat),
                )
        }),
{
    lemma_snapshot_tree_shape(snap);
    let a = snap[0];
    assert(pow2(DEPTH as nat) <= level_span()) by {
        vstd::arithmetic::power2::lemma_pow2_strictly_increases(DEPTH as nat, 64);
        vstd::arithmetic::power2::lemma2_to64();
    }
    assert(a.leaf_index < pow2(DEPTH as nat));
    lemma_every_leaf_proof_verifies(snapshot_tree(snap), a.leaf_index as nat);
}

/// Builds the circuit input of a batch from its transfers and the snapshot of
/// every account taken when it was closed: the snapshot fills a fresh tree of
/// depth `DEPTH`; the first `N_TXS` transfers are replayed against it, each
/// recording both parties' pre-state and Merkle paths; unused slots are zero.
pub fn build_witness(txs: &Vec<L2Transaction>, snap: &Vec<SnapshotAccount>) -> (res: Result<
    WitnessInput,
    WitnessError,
>)
    ensures
        match res {
            Ok(w) => witness_of(txs@, snap@) == Ok::<WitnessText, WitnessError>(w@),
            Err(e) => witness_of(txs@, snap@) == Err::<WitnessText, WitnessError>(e),
        },
{
    if snap.len() == 0 {
        return Err(WitnessError::EmptySnapshot);
    }
    let (mut tree, mut by_addr) = snapshot_tree_and_index(snap);
    let ghost t0 = tree@;
    let ghost m0 = by_addr.view();
    let old_root = tree.root;
    let first = snap[0];
    let dep_proof = tree.get_proof(first.leaf_index);
    let n: usize = if txs.len() < N_TXS {
        txs.len()
    } else {
        N_TXS
    };
    let mut rows: Vec<TxWitnessRow> = Vec::new();
    let mut i: usize = 0;
    proof {
        assert(txs@.take(0) =~= Seq::<L2Transaction>::empty());
        assert(row_views(rows@) =~= Seq::<TxWitness>::empty());
    }
    while i < n
        invariant
            0 <= i <= n,
            n <= txs@.len(),
            n <= N_TXS,
            n == (if txs@.len() < N_TXS { txs@.len() as int } else { N_TXS as int }),
            snap@.len() > 0,
            t0 == snapshot_tree(snap@),
            m0 == snapshot_index(snap@),
            rows@.len() == i,
            tree.shape_ok(),
            witness_run(t0, m0, txs@.take(i as int)) == Ok::<RunOut, WitnessError>(
                RunOut { rows: row_views(rows@), tree: tree@, index: by_addr.view() },
            ),
        decreases n - i,
    {
        let ghost before = RunOut { rows: row_views(rows@), tree: tree@, index: by_addr.view() };
        proof {
            assert(txs@.take(i + 1).drop_last() =~= txs@.take(i as int));
            assert(txs@.take(i + 1).last() == txs@[i as int]);
        }
        match witness_step_exec(&mut tree, &mut by_addr, &txs[i], i) {
            Ok(row) => {
                proof {
                    assert(row_views(rows@.push(row)) =~= before.rows.push(row@));
                }
                rows.push(row);
            },
            Err(e) => {
                proof {
                    assert(witness_run(t0, m0, txs@.take(i + 1)) == Err::<RunOut, WitnessError>(e));
                    lemma_run_error_persists(t0, m0, txs@, i + 1, n as int, e);
                }
                return Err(e);
            },
        }
        i += 1;
    }
    let new_root = tree.root;
    let w = assemble_witness(old_root, new_root, &first, &dep_proof, &rows);
    Ok(w)
}


/// The proof as snarkjs writes it: every coordinate in decimal, `pi_b` with the
/// coordinates of each pair in snarkjs order.
#[derive(Debug, Clone)]
pub struct SnarkjsProof {
    pub pi_a: Vec<String>,
    pub pi_b: Vec<Vec<String>>,
    pub pi_c: Vec<String>,
}

/// Why the prover's output was refused.
#[derive(Debug, Clone, Copy, PartialEq, Eq)]
pub enum ProofError {
    /// Fewer than the three public signals the circuit has.
    TooFewPublicSignals(usize),
}

/// The proof and public signals in the layout the verifier contract takes:
/// `a` and `c` as given, each pair of `b` swapped, the first three signals.
/// Refused when fewer than three public signals came back.
pub fn proof_data_from(proof: &SnarkjsProof, public: &Vec<String>) -> (res: Result<
    ProofData,
    ProofError,
>)
    requires
        public@.len() >= 3 ==> {
            &&& proof.pi_a@.len() >= 2
            &&& proof.pi_b@.len() >= 2
            &&& proof.pi_b@[0]@.len() >= 2
            &&& proof.pi_b@[1]@.len() >= 2
            &&& proof.pi_c@.len() >= 2
        },
    ensures
        public@.len() < 3 ==> res == Err::<ProofData, ProofError>(
            ProofError::TooFewPublicSignals(public@.len() as usize),
        ),
        public@.len() >= 3 ==> res is Ok,
        res is Ok ==> {
            let d = res->Ok_0;
            &&& d.a[0]@ == proof.pi_a@[0]@
            &&& d.a[1]@ == proof.pi_a@[1]@
            &&& d.b[0][0]@ == proof.pi_b@[0]@[1]@
            &&& d.b[0][1]@ == proof.pi_b@[0]@[0]@
            &&& d.b[1][0]@ == proof.pi_b@[1]@[1]@
            &&& d.b[1][1]@ == proof.pi_b@[1]@[0]@
            &&& d.c[0]@ == proof.pi_c@[0]@
            &&& d.c[1]@ == proof.pi_c@[1]@
            &&& d.public_signals[0]@ == public@[0]@
            &&& d.public_signals[1]@ == public@[1]@
            &&& d.public_signals[2]@ == public@[2]@
        },
{
    if public.len() < 3 {
        return Err(ProofError::TooFewPublicSignals(public.len()));
    }
    let data = ProofData {
        a: [proof.pi_a[0].clone(), proof.pi_a[1].clone()],
        b: [
            [proof.pi_b[0][1].clone(), proof.pi_b[0][0].clone()],
            [proof.pi_b[1][1].clone(), proof.pi_b[1][0].clone()],
        ],
        c: [proof.pi_c[0].clone(), proof.pi_c[1].clone()],
        public_signals: [public[0].clone(), public[1].clone(), public[2].clone()],
    };
    Ok(data)
}

/// Why a decimal field element could not be read.
#[derive(Debug, Clone, Copy, PartialEq, Eq)]
pub enum DecimalError {
    /// Not a decimal numeral.
    Invalid,
    /// More than 32 bytes.
    TooLarge,
}

/// A decimal numeral (as `BigUint::parse_bytes` reads it) as a 32-byte
/// big-endian array; refused when it is no numeral or needs more than 32 bytes.
pub fn decimal_to_bytes32(s: &str) -> (res: Result<[u8; 32], DecimalError>)
    ensures
        match biguint_from_dec(s@) {
            None => res == Err::<[u8; 32], DecimalError>(DecimalError::Invalid),
            Some(n) => if n < pow(256, 32) {
                res is Ok && res->Ok_0@ == be_bytes(n, 32)
            } else {
                res == Err::<[u8; 32], DecimalError>(DecimalError::TooLarge)
            },
        },
{
    let be = match biguint_parse_decimal_be(s) {
        Some(v) => v,
        None => {
            return Err(DecimalError::Invalid);
        },
    };
    let ghost n = biguint_from_dec(s@)->Some_0;
    proof {
        lemma_min_be_len(n);
    }
    if be.len() > 32 {
        proof {
            lemma_pow_increases(256, 32, (min_be_len(n) - 1) as nat);
        }
        return Err(DecimalError::TooLarge);
    }
    proof {
        lemma_pow_increases(256, min_be_len(n), 32);
        lemma_be_bytes_pad(n, min_be_len(n));
    }
    let mut out = [0u8; 32];
    let off: usize = 32 - be.len();
    let mut k: usize = 0;
    while k < be.len()
        invariant
            0 <= k <= be@.len(),
            be@.len() <= 32,
            off == 32 - be@.len(),
            out@.len() == 32,
            forall|p: int| 0 <= p < off ==> #[trigger] out@[p] == 0u8,
            forall|q: int| 0 <= q < k ==> #[trigger] out@[off + q] == be@[q],
        decreases be@.len() - k,
    {
        out[off + k] = be[k];
        k += 1;
    }
    proof {
        assert forall|p: int| 0 <= p < 32 implies #[trigger] out@[p] == be_bytes(n, 32)[p] by {
            if p >= off {
                assert(out@[off + (p - off)] == be@[p - off]);
            }
        }
        assert(out@ =~= be_bytes(n, 32));
    }
    Ok(out)
}

/// In every applied transfer, the sender's path (taken before the transfer)
/// with its new leaf recomputes the intermediate root, and the recipient's
/// path (taken after the sender's update) with its new leaf recomputes the
/// root after the transfer: the two root updates the circuit checks. Each path
/// has one node per level.
pub proof fn lemma_witness_step_roots(
    t: SmtView,
    m: Map<Seq<u8>, SnapshotAccount>,
    tx: L2Transaction,
    i: nat,
)
    requires
        t.depth < level_span(),
        witness_step(t, m, tx, i) is Ok,
    ensures
        ({
            let out = witness_step(t, m, tx, i)->Ok_0;
            let s = out.row.sender;
            let r = out.row.recipient;
            let s_leaf = leaf_of(
                written(s, l2_of(s), (s.pre_balance - tx.amount) as u128, (s.pre_nonce + 1) as u64),
            );
            let r_leaf = leaf_of(
                written(r, l2_of(r), (r.pre_balance + tx.amount) as u128, r.pre_nonce),
            );
            let t1 = t.update(s.leaf_index as nat, s_leaf);
            &&& fold_path(s_leaf, s.leaf_index as nat, out.row.sender_path) == t1.root
            &&& fold_path(r_leaf, r.leaf_index as nat, out.row.receiver_path) == out.tree.root
            &&& out.row.sender_path.len() == t.depth
            &&& out.row.receiver_path.len() == t.depth
        }),
{
    let out = witness_step(t, m, tx, i)->Ok_0;
    let s = out.row.sender;
    let r = out.row.recipient;
    let s_leaf = leaf_of(
        written(s, l2_of(s), (s.pre_balance - tx.amount) as u128, (s.pre_nonce + 1) as u64),
    );
    let r_leaf = leaf_of(written(r, l2_of(r), (r.pre_balance + tx.amount) as u128, r.pre_nonce));
    let t1 = t.update(s.leaf_index as nat, s_leaf);
    lemma_update_keeps_own_siblings(t, s.leaf_index as nat, s_leaf);
    lemma_updated_leaf_proof_verifies(t, s.leaf_index as nat, s_leaf);
    lemma_update_keeps_own_siblings(t1, r.leaf_index as nat, r_leaf);
    lemma_updated_leaf_proof_verifies(t1, r.leaf_index as nat, r_leaf);
}

/// Reading back the decimal text of a 32-byte number gives the same 32 bytes:
/// a root written into the witness in decimal and returned among the proof's
/// public signals is stored as the very root it was.
pub proof fn lemma_decimal_roundtrip(b: [u8; 32])
    ensures
        biguint_from_dec(dec32(b)) == Some(be_nat(b@)),
        be_nat(b@) < pow(256, 32),
        be_bytes(be_nat(b@), 32) == b@,
{
    let n = be_nat(b@);
    let d = dec32(b);
    lemma_dec_string(n);
    lemma_be_bytes_be_nat(b@);
    assert(is_dec_digit(d[0]));
    assert(strip_plus(d) == d);
    assert forall|i: int| 0 <= i < d.len() implies #[trigger] d[i] != '_' by {
        assert(is_dec_digit(d[i]));
    }
    lemma_filter_keeps_all(d);
}

/// Reading the canonical decimal text of a number below 2^256 (as
/// `decimal_to_bytes32` does) gives its 32 big-endian bytes, whose decimal
/// text is again that canonical text.
pub proof fn lemma_canonical_decimal_roundtrip(n: nat)
    requires
        n < pow(256, 32),
    ensures
        biguint_from_dec(dec_string(n)) == Some(n),
        be_bytes(n, 32).len() == 32,
        be_nat(be_bytes(n, 32)) == n,
        dec_string(be_nat(be_bytes(n, 32))) == dec_string(n),
{
    let d = dec_string(n);
    lemma_dec_string(n);
    lemma_be_nat_be_bytes(n, 32);
    vstd::arithmetic::div_mod::lemma_small_mod(n, pow(256, 32) as nat);
    assert(is_dec_digit(d[0]));
    assert(strip_plus(d) == d);
    assert forall|i: int| 0 <= i < d.len() implies #[trigger] d[i] != '_' by {
        assert(is_dec_digit(d[i]));
    }
    lemma_filter_keeps_all(d);
}

/// A snapshot entry stands for the account registered under key `k`.
pub open spec fn matches_account(a: SnapshotAccount, k: Seq<u8>, index: u64, st: AccountState) -> bool {
    &&& a.owner_address@ == k
    &&& a.leaf_index == index
    &&& st.balance == a.pre_balance
    &&& st.nonce == a.pre_nonce
    &&& st.l2_pubkey_x == a.l2_pubkey_x
    &&& st.l2_pubkey_y == a.l2_pubkey_y
}

/// The snapshot index `m` holds exactly the registered accounts of `s`, each
/// with its leaf, key, balance and nonce.
pub open spec fn agrees(s: L2StateView, m: Map<Seq<u8>, SnapshotAccount>) -> bool {
    &&& forall|k: Seq<u8>|
        #![trigger m.contains_key(k)]
        #![trigger s.indices.contains_key(k)]
        m.contains_key(k) <==> s.indices.contains_key(k)
    &&& forall|k: Seq<u8>|
        #![trigger m.contains_key(k)]
        #![trigger s.states.contains_key(k)]
        m.contains_key(k) <==> s.states.contains_key(k)
    &&& forall|k: Seq<u8>|
        #[trigger] m.contains_key(k) ==> matches_account(m[k], k, s.indices[k], s.states[k])
}

/// No transfer sends to its own sender.
pub open spec fn no_self_transfer(txs: Seq<L2Transaction>) -> bool {
    forall|j: int| 0 <= j < txs.len() ==> (#[trigger] txs[j]).sender@ != txs[j].recipient@
}

#[verifier::spinoff_prover]
proof fn lemma_run_batch_snoc(s: L2StateView, txs: Seq<L2Transaction>)
    requires
        txs.len() > 0,
    ensures
        run_batch(s, txs) == (match run_batch(s, txs.drop_last()) {
            Err(e) => Err(e),
            Ok(s2) => match apply_tx(s2, txs.last()) {
                (Err(e), _) => Err(e),
                (Ok(()), s3) => Ok::<L2StateView, ExecError>(s3),
            },
        }),
    decreases txs.len(),
{
    if txs.len() == 1 {
        assert(txs.drop_last() =~= Seq::<L2Transaction>::empty());
        assert(txs.drop_first() =~= Seq::<L2Transaction>::empty());
    } else {
        let t = txs.drop_first();
        assert(txs.drop_last().drop_first() =~= t.drop_last());
        assert(txs.drop_last()[0] == txs[0]);
        assert(t.last() == txs.last());
        lemma_run_batch_snoc(apply_tx(s, txs[0]).1, t);
    }
}

#[verifier::spinoff_prover]
proof fn lemma_batch_overflows_snoc(s: L2StateView, txs: Seq<L2Transaction>)
    requires
        txs.len() > 0,
    ensures
        batch_overflows(s, txs) == (batch_overflows(s, txs.drop_last()) || (run_batch(
            s,
            txs.drop_last(),
        ) is Ok && tx_overflows(run_batch(s, txs.drop_last())->Ok_0, txs.last()))),
    decreases txs.len(),
{
    if txs.len() == 1 {
        assert(txs.drop_last() =~= Seq::<L2Transaction>::empty());
        assert(txs.drop_first() =~= Seq::<L2Transaction>::empty());
        assert(txs.last() == txs[0]);
        assert(run_batch(s, txs.drop_last()) == Ok::<L2StateView, ExecError>(s));
        assert(!batch_overflows(s, txs.drop_last()));
        assert(!batch_overflows(apply_tx(s, txs[0]).1, txs.drop_first()));
    } else {
        let t = txs.drop_first();
        let pre = txs.drop_last();
        assert(pre.drop_first() =~= t.drop_last());
        assert(pre[0] == txs[0]);
        assert(t.last() == txs.last());
        lemma_batch_overflows_snoc(apply_tx(s, txs[0]).1, t);
        assert(batch_overflows(s, pre) == (if tx_overflows(s, txs[0]) {
            true
        } else {
            match apply_tx(s, txs[0]) {
                (Err(_), _) => false,
                (Ok(()), s2) => batch_overflows(s2, t.drop_last()),
            }
        }));
        assert(run_batch(s, pre) == (match apply_tx(s, txs[0]) {
            (Err(e), _) => Err(e),
            (Ok(()), s2) => run_batch(s2, t.drop_last()),
        }));
    }
}

/// The prover's public roots are the sequencer's: for a batch of at most
/// `N_TXS` transfers, none to its own sender, executed without overflow on a
/// state whose tree is the snapshot's tree and whose accounts the snapshot
/// lists, the witness builds and its old and new roots are the decimal texts
/// of the state's root before and after the batch.
pub proof fn lemma_witness_roots_match_batch(
    s: L2StateView,
    snap: Seq<SnapshotAccount>,
    txs: Seq<L2Transaction>,
)
    requires
        snap.len() > 0,
        s.tree == snapshot_tree(snap),
        agrees(s, snapshot_index(snap)),
        txs.len() <= N_TXS,
        no_self_transfer(txs),
        !batch_overflows(s, txs),
        run_batch(s, txs) is Ok,
    ensures
        witness_of(txs, snap) is Ok,
        witness_of(txs, snap)->Ok_0.old_root == dec32(s.tree.root.0),
        witness_of(txs, snap)->Ok_0.new_root == dec32(run_batch(s, txs)->Ok_0.tree.root.0),
{
    assert(txs.take(txs.len() as int) =~= txs);
    lemma_witness_replays_batch(s, snapshot_index(snap), txs);
}

/// The witness replays the sequencer's batch. When the snapshot agrees with
/// the state the batch was executed on and no transfer is to its own sender,
/// then wherever the batch executes without overflow the witness builds
/// without error, ends on the very tree the sequencer reached, and its
/// account index agrees with the sequencer's new state.
pub proof fn lemma_witness_replays_batch(
    s: L2StateView,
    m: Map<Seq<u8>, SnapshotAccount>,
    txs: Seq<L2Transaction>,
)
    requires
        agrees(s, m),
        no_self_transfer(txs),
        !batch_overflows(s, txs),
        run_batch(s, txs) is Ok,
    ensures
        witness_run(s.tree, m, txs) is Ok,
        witness_run(s.tree, m, txs)->Ok_0.tree == run_batch(s, txs)->Ok_0.tree,
        agrees(run_batch(s, txs)->Ok_0, witness_run(s.tree, m, txs)->Ok_0.index),
    decreases txs.len(),
{
    if txs.len() == 0 {
        assert(run_batch(s, txs) == Ok::<L2StateView, ExecError>(s));
    } else {
        let pre = txs.drop_last();
        let t = txs.last();
        lemma_run_batch_snoc(s, txs);
        lemma_batch_overflows_snoc(s, txs);
        assert forall|j: int| 0 <= j < pre.len() implies (#[trigger] pre[j]).sender@ != pre[j].recipient@ by {
            assert(pre[j] == txs[j]);
        }
        lemma_witness_replays_batch(s, m, pre);
        let s2 = run_batch(s, pre)->Ok_0;
        let out = witness_run(s.tree, m, pre)->Ok_0;
        let m2 = out.index;
        assert(txs[txs.len() - 1] == t);
        let sk = t.sender@;
        let rk = t.recipient@;
        assert(sk != rk);
        assert(apply_tx(s2, t).0 is Ok);
        assert(!tx_overflows(s2, t));
        assert(s2.indices.contains_key(sk) && s2.states.contains_key(sk));
        assert(m2.contains_key(sk));
        let sa = m2[sk];
        let st = s2.states[sk];
        assert(matches_account(sa, sk, s2.indices[sk], st));
        let sender = debited(st, t.amount);
        let s3 = L2StateView {
            tree: s2.tree.update(s2.indices[sk] as nat, leaf_of(sender)),
            indices: s2.indices,
            states: s2.states.insert(sk, sender),
        };
        assert(s3.states[rk] == s2.states[rk]);
        assert(m2.contains_key(rk));
        let ra = m2[rk];
        assert(matches_account(ra, rk, s2.indices[rk], s2.states[rk]));
        assert(sa.pre_nonce < u64::MAX);
        assert(ra.pre_balance + t.amount <= u128::MAX);
        let nb = (sa.pre_balance - t.amount) as u128;
        let nn = (sa.pre_nonce + 1) as u64;
        assert(leaf_of(sender) == leaf_of(written(sa, l2_of(sa), nb, nn)));
        let recipient = credited(s3.states[rk], t.amount);
        let rb = (ra.pre_balance + t.amount) as u128;
        assert(leaf_of(recipient) == leaf_of(written(ra, l2_of(ra), rb, ra.pre_nonce)));
        let step = witness_step(out.tree, m2, t, (txs.len() - 1) as nat);
        assert(step is Ok);
        let fin = run_batch(s, txs)->Ok_0;
        let m3 = step->Ok_0.index;
        assert(m3 == m2.insert(sk, with_balance(sa, nb, nn)).insert(rk, with_balance(ra, rb, ra.pre_nonce)));
        assert(fin.states == s2.states.insert(sk, sender).insert(rk, recipient));
        assert forall|k: Seq<u8>| #[trigger] m3.contains_key(k) implies matches_account(
            m3[k],
            k,
            fin.indices[k],
            fin.states[k],
        ) by {
            if k != sk && k != rk {
                assert(m2.contains_key(k));
            }
        }
    }
}

} // verus!
