use vstd::prelude::*;

use crate::account::AccountState;
use crate::batch::{Batch, BatchStatus};
use crate::hashes::{KeccakHash, PoseidonHash};
use crate::apply::{indices_ok, leaves_match, state_consistent};
use crate::poseidon_sparse::{
    default_node, empty_tree, leaf_of, lemma_update_preserves_wf, lemma_update_read_back,
    level_span, zero_hash, PoseidonMerkleTree,
};
use crate::crypto_utils::poseidon2;
use vstd::arithmetic::power2::pow2;
use crate::prover::SnapshotAccount;
use crate::state::{L2State, L2StateView, TREE_DEPTH};
use crate::text::{
    dec_string, is_dec_digit, lemma_dec_string, parse_u128, u128_from_str, u128_to_decimal,
};
use crate::tx::{L2Transaction, L2TransactionStatus};

verus! {

/// A stored transaction as the database returns it: raw byte columns, amounts
/// as decimal text.
#[derive(Debug, Clone)]
pub struct TransactionRow {
    pub tx_hash: Vec<u8>,
    pub sender_address: Vec<u8>,
    pub recipient_address: Vec<u8>,
    pub amount: String,
    pub nonce: i64,
    pub fee: String,
    pub signature: Vec<u8>,
}

/// A stored account.
#[derive(Debug, Clone)]
pub struct AccountRow {
    pub owner_address: Vec<u8>,
    pub l2_pubkey_x: Vec<u8>,
    pub l2_pubkey_y: Vec<u8>,
    pub balance: String,
    pub nonce: i64,
    pub leaf_index: i64,
}

/// A stored snapshot entry of a batch.
#[derive(Debug, Clone)]
pub struct SnapshotRow {
    pub leaf_index: i64,
    pub owner_address: Vec<u8>,
    pub l2_pubkey_x: Vec<u8>,
    pub l2_pubkey_y: Vec<u8>,
    pub pre_balance: String,
    pub pre_nonce: i64,
}

/// A stored batch.
#[derive(Debug, Clone)]
pub struct BatchRow {
    pub batch_id: i32,
    pub pre_state_root_poseidon: Vec<u8>,
    pub post_state_root_poseidon: Vec<u8>,
    pub zk_proof: Option<Vec<u8>>,
    pub l1_block_number: Option<i64>,
}

/// `b` when it has exactly `n` bytes, else `n` zero bytes.
pub open spec fn fixed_or_zero(b: Seq<u8>, n: nat) -> Seq<u8> {
    if b.len() == n {
        b
    } else {
        Seq::new(n, |i: int| 0u8)
    }
}

/// The `k`-th 32-byte part of a 96-byte signature, or zeros for any other length.
pub open spec fn sig_part(sig: Seq<u8>, k: int) -> Seq<u8> {
    if sig.len() == 96 {
        sig.subrange(32 * k, 32 * k + 32)
    } else {
        Seq::new(32, |i: int| 0u8)
    }
}

/// A decimal column read as a `u128`, zero when it does not parse.
pub open spec fn parse_or_zero(s: Seq<char>) -> u128 {
    match u128_from_str(s) {
        Some(v) => v,
        None => 0,
    }
}

fn copy20(b: &Vec<u8>) -> (res: [u8; 20])
    ensures
        res@ == fixed_or_zero(b@, 20),
{
    let mut out = [0u8; 20];
    if b.len() == 20 {
        let mut i: usize = 0;
        while i < 20
            invariant
                0 <= i <= 20,
                b@.len() == 20,
                out@.len() == 20,
                forall|j: int| 0 <= j < i ==> out@[j] == b@[j],
            decreases 20 - i,
        {
            out[i] = b[i];
            i += 1;
        }
        assert(out@ =~= b@);
    } else {
        assert(out@ =~= Seq::new(20, |i: int| 0u8));
    }
    out
}

fn copy32_from(b: &Vec<u8>, start: usize) -> (res: [u8; 32])
    requires
        start + 32 <= b@.len(),
    ensures
        res@ == b@.subrange(start as int, start + 32),
{
    let mut out = [0u8; 32];
    let n = b.len();
    let mut i: usize = 0;
    while i < 32
        invariant
            0 <= i <= 32,
            n == b@.len(),
            start + 32 <= b@.len(),
            out@.len() == 32,
            forall|j: int| 0 <= j < i ==> out@[j] == b@[start + j],
        decreases 32 - i,
    {
        out[i] = b[start + i];
        i += 1;
    }
    assert(out@ =~= b@.subrange(start as int, start + 32));
    out
}

fn copy32(b: &Vec<u8>) -> (res: [u8; 32])
    ensures
        res@ == fixed_or_zero(b@, 32),
{
    if b.len() == 32 {
        let out = copy32_from(b, 0);
        assert(b@.subrange(0, 32) =~= b@);
        out
    } else {
        let out = [0u8; 32];
        assert(out@ =~= Seq::new(32, |i: int| 0u8));
        out
    }
}

fn parse_or_zero_exec(s: &String) -> (res: u128)
    ensures
        res == parse_or_zero(s@),
{
    match parse_u128(s.as_str()) {
        Some(v) => v,
        None => 0,
    }
}

/// A stored transaction with the given status and batch: byte columns of the
/// wrong length read as zeros, amounts that do not parse as zero, and the
/// 96-byte signature split into R8.x, R8.y and S.
pub fn transaction_from_row(
    row: &TransactionRow,
    status: L2TransactionStatus,
    batch_id: Option<i32>,
) -> (res: L2Transaction)
    ensures
        res.tx_hash.0@ == fixed_or_zero(row.tx_hash@, 32),
        res.sender@ == fixed_or_zero(row.sender_address@, 20),
        res.recipient@ == fixed_or_zero(row.recipient_address@, 20),
        res.amount == parse_or_zero(row.amount@),
        res.fee == parse_or_zero(row.fee@),
        res.nonce == row.nonce as u64,
        res.status == status,
        res.batch_id == batch_id,
        res.sig_r8_x@ == sig_part(row.signature@, 0),
        res.sig_r8_y@ == sig_part(row.signature@, 1),
        res.sig_s@ == sig_part(row.signature@, 2),
{
    let mut r8x = [0u8; 32];
    let mut r8y = [0u8; 32];
    let mut s = [0u8; 32];
    if row.signature.len() == 96 {
        r8x = copy32_from(&row.signature, 0);
        r8y = copy32_from(&row.signature, 32);
        s = copy32_from(&row.signature, 64);
    } else {
        assert(r8x@ =~= Seq::new(32, |i: int| 0u8));
    }
    L2Transaction {
        tx_hash: PoseidonHash(copy32(&row.tx_hash)),
        sender: copy20(&row.sender_address),
        recipient: copy20(&row.recipient_address),
        amount: parse_or_zero_exec(&row.amount),
        fee: parse_or_zero_exec(&row.fee),
        nonce: row.nonce as u64,
        status,
        batch_id,
        sig_r8_x: r8x,
        sig_r8_y: r8y,
        sig_s: s,
    }
}

/// The signature column of a transaction: R8.x, R8.y and S, 96 bytes.
pub fn signature_bytes(tx: &L2Transaction) -> (res: Vec<u8>)
    ensures
        res@ == tx.sig_r8_x@ + tx.sig_r8_y@ + tx.sig_s@,
{
    let mut buf: Vec<u8> = Vec::new();
    let parts = [tx.sig_r8_x, tx.sig_r8_y, tx.sig_s];
    let mut k: usize = 0;
    while k < 3
        invariant
            0 <= k <= 3,
            parts@ == seq![tx.sig_r8_x, tx.sig_r8_y, tx.sig_s],
            buf@.len() == 32 * k,
            forall|j: int| 0 <= j < 32 * k ==> #[trigger] buf@[j] == parts@[j / 32]@[j % 32],
        decreases 3 - k,
    {
        let mut i: usize = 0;
        while i < 32
            invariant
                0 <= i <= 32,
                0 <= k < 3,
                parts@ == seq![tx.sig_r8_x, tx.sig_r8_y, tx.sig_s],
                buf@.len() == 32 * k + i,
                forall|j: int| 0 <= j < 32 * k + i ==> #[trigger] buf@[j] == parts@[j / 32]@[j % 32],
            decreases 32 - i,
        {
            buf.push(parts[k][i]);
            i += 1;
        }
        k += 1;
    }
    assert(buf@ =~= tx.sig_r8_x@ + tx.sig_r8_y@ + tx.sig_s@);
    buf
}

/// `row` is the stored form of `tx`: byte columns as they are, amounts in
/// decimal, the nonce as a signed integer and the signature as 96 bytes.
pub open spec fn is_row_of(row: TransactionRow, tx: L2Transaction) -> bool {
    &&& row.tx_hash@ == tx.tx_hash.0@
    &&& row.sender_address@ == tx.sender@
    &&& row.recipient_address@ == tx.recipient@
    &&& row.amount@ == dec_string(tx.amount as nat)
    &&& row.nonce == tx.nonce as i64
    &&& row.fee@ == dec_string(tx.fee as nat)
    &&& row.signature@ == tx.sig_r8_x@ + tx.sig_r8_y@ + tx.sig_s@
}

fn bytes_to_vec(b: &[u8]) -> (res: Vec<u8>)
    ensures
        res@ == b@,
{
    let mut out: Vec<u8> = Vec::new();
    let mut i: usize = 0;
    while i < b.len()
        invariant
            0 <= i <= b@.len(),
            out@ == b@.subrange(0, i as int),
        decreases b@.len() - i,
    {
        out.push(b[i]);
        i += 1;
        assert(b@.subrange(0, i as int) =~= b@.subrange(0, i - 1).push(b@[i - 1]));
    }
    assert(b@.subrange(0, b@.len() as int) =~= b@);
    out
}

/// The row a new transaction is stored as.
pub fn transaction_to_row(tx: &L2Transaction) -> (res: TransactionRow)
    ensures
        is_row_of(res, *tx),
{
    TransactionRow {
        tx_hash: bytes_to_vec(&tx.tx_hash.0),
        sender_address: bytes_to_vec(&tx.sender),
        recipient_address: bytes_to_vec(&tx.recipient),
        amount: u128_to_decimal(tx.amount),
        nonce: tx.nonce as i64,
        fee: u128_to_decimal(tx.fee),
        signature: signature_bytes(tx),
    }
}

proof fn lemma_parse_decimal_text(n: u128)
    ensures
        parse_or_zero(dec_string(n as nat)) == n,
{
    let d = dec_string(n as nat);
    lemma_dec_string(n as nat);
    assert(is_dec_digit(d[0]));
    assert(d[0] != '+');
}

/// A transaction stored as a row and read back is the same transaction: every
/// field that `transaction_from_row` reads from the row is the one written.
pub proof fn lemma_transaction_row_roundtrip(tx: L2Transaction, row: TransactionRow)
    requires
        is_row_of(row, tx),
    ensures
        fixed_or_zero(row.tx_hash@, 32) == tx.tx_hash.0@,
        fixed_or_zero(row.sender_address@, 20) == tx.sender@,
        fixed_or_zero(row.recipient_address@, 20) == tx.recipient@,
        parse_or_zero(row.amount@) == tx.amount,
        parse_or_zero(row.fee@) == tx.fee,
        row.nonce as u64 == tx.nonce,
        sig_part(row.signature@, 0) == tx.sig_r8_x@,
        sig_part(row.signature@, 1) == tx.sig_r8_y@,
        sig_part(row.signature@, 2) == tx.sig_s@,
{
    lemma_parse_decimal_text(tx.amount);
    lemma_parse_decimal_text(tx.fee);
    let x = tx.nonce;
    assert((x as i64) as u64 == x) by (bit_vector);
    let sig = row.signature@;
    assert(sig.subrange(0, 32) =~= tx.sig_r8_x@);
    assert(sig.subrange(32, 64) =~= tx.sig_r8_y@);
    assert(sig.subrange(64, 96) =~= tx.sig_s@);
}

/// A stored snapshot entry.
pub fn snapshot_from_row(row: &SnapshotRow) -> (res: SnapshotAccount)
    ensures
        res.leaf_index == row.leaf_index as u64,
        res.owner_address@ == fixed_or_zero(row.owner_address@, 20),
        res.l2_pubkey_x@ == fixed_or_zero(row.l2_pubkey_x@, 32),
        res.l2_pubkey_y@ == fixed_or_zero(row.l2_pubkey_y@, 32),
        res.pre_balance == parse_or_zero(row.pre_balance@),
        res.pre_nonce == row.pre_nonce as u64,
{
    SnapshotAccount {
        leaf_index: row.leaf_index as u64,
        owner_address: copy20(&row.owner_address),
        l2_pubkey_x: copy32(&row.l2_pubkey_x),
        l2_pubkey_y: copy32(&row.l2_pubkey_y),
        pre_balance: parse_or_zero_exec(&row.pre_balance),
        pre_nonce: row.pre_nonce as u64,
    }
}

/// A stored batch with the given status and no transactions loaded; a root
/// column that is not 32 bytes reads as the zero root.
pub fn batch_from_row(row: BatchRow, status: BatchStatus) -> (res: Batch)
    ensures
        res.batch_id == row.batch_id,
        res.transactions@ == Seq::<L2Transaction>::empty(),
        res.pre_state_root_poseidon.0@ == fixed_or_zero(row.pre_state_root_poseidon@, 32),
        res.post_state_root_poseidon.0@ == fixed_or_zero(row.post_state_root_poseidon@, 32),
        res.zk_proof == row.zk_proof,
        res.l1_tx_hash == None::<KeccakHash>,
        res.l1_block_number == row.l1_block_number,
        res.status == status,
{
    let pre = copy32(&row.pre_state_root_poseidon);
    let post = copy32(&row.post_state_root_poseidon);
    Batch {
        batch_id: row.batch_id,
        transactions: Vec::new(),
        pre_state_root_poseidon: PoseidonHash(pre),
        post_state_root_poseidon: PoseidonHash(post),
        zk_proof: row.zk_proof,
        l1_tx_hash: None,
        l1_block_number: row.l1_block_number,
        status,
    }
}

/// The 20-byte array with these bytes.
pub open spec fn arr20(s: Seq<u8>) -> [u8; 20] {
    choose|a: [u8; 20]| a@ == s
}

/// The 32-byte array with these bytes.
pub open spec fn arr32(s: Seq<u8>) -> [u8; 32] {
    choose|a: [u8; 32]| a@ == s
}

/// The account a stored row stands for (its L2 address left zero: the tree
/// recomputes it from the key).
pub open spec fn account_of_row(r: AccountRow) -> AccountState {
    AccountState {
        owner_address: arr20(fixed_or_zero(r.owner_address@, 20)),
        l2_address: zero_hash(),
        l2_pubkey_x: arr32(fixed_or_zero(r.l2_pubkey_x@, 32)),
        l2_pubkey_y: arr32(fixed_or_zero(r.l2_pubkey_y@, 32)),
        balance: parse_or_zero(r.balance@),
        nonce: r.nonce as u64,
        leaf_index: r.leaf_index as u64,
    }
}

/// A stored account as an `AccountState`.
pub fn account_from_row(row: &AccountRow) -> (res: AccountState)
    ensures
        res == account_of_row(*row),
{
    let owner = copy20(&row.owner_address);
    let pk_x = copy32(&row.l2_pubkey_x);
    let pk_y = copy32(&row.l2_pubkey_y);
    let res = AccountState {
        owner_address: owner,
        l2_address: PoseidonHash([0u8; 32]),
        l2_pubkey_x: pk_x,
        l2_pubkey_y: pk_y,
        balance: parse_or_zero_exec(&row.balance),
        nonce: row.nonce as u64,
        leaf_index: row.leaf_index as u64,
    };
    proof {
        assert(owner =~= arr20(fixed_or_zero(row.owner_address@, 20)));
        assert(pk_x =~= arr32(fixed_or_zero(row.l2_pubkey_x@, 32)));
        assert(pk_y =~= arr32(fixed_or_zero(row.l2_pubkey_y@, 32)));
        assert(res.l2_address.0 =~= zero_hash().0);
    }
    res
}

/// The state holding no account, over an empty tree of depth `TREE_DEPTH`.
pub open spec fn empty_state() -> L2StateView {
    L2StateView {
        tree: empty_tree(TREE_DEPTH as nat),
        indices: Map::empty(),
        states: Map::empty(),
    }
}

/// The state after registering the stored accounts in order: each owner gets
/// its row's leaf index and account, and that leaf is written.
pub open spec fn rows_state(rows: Seq<AccountRow>) -> L2StateView
    decreases rows.len(),
{
    if rows.len() == 0 {
        empty_state()
    } else {
        let s = rows_state(rows.drop_last());
        let a = account_of_row(rows.last());
        L2StateView {
            tree: s.tree.update(a.leaf_index as nat, leaf_of(a)),
            indices: s.indices.insert(a.owner_address@, a.leaf_index),
            states: s.states.insert(a.owner_address@, a),
        }
    }
}

/// The L2 state of the stored accounts (rows in leaf order).
pub fn state_from_rows(rows: &Vec<AccountRow>) -> (res: L2State)
    ensures
        res.tree.shape_ok(),
        res@ == rows_state(rows@),
{
    let mut state = L2State::new();
    proof {
        assert(state@ =~= empty_state());
    }
    let mut i: usize = 0;
    while i < rows.len()
        invariant
            0 <= i <= rows@.len(),
            state.tree.shape_ok(),
            state@ == rows_state(rows@.take(i as int)),
        decreases rows@.len() - i,
    {
        let account = account_from_row(&rows[i]);
        let addr = account.owner_address;
        let leaf_index = account.leaf_index;
        state.account_indices.insert(addr, leaf_index);
        state.tree.update_leaf_from_account(leaf_index, &account);
        state.account_states.insert(addr, account);
        proof {
            assert(rows@.take(i + 1).drop_last() =~= rows@.take(i as int));
            assert(rows@.take(i + 1).last() == rows@[i as int]);
        }
        i += 1;
    }
    proof {
        assert(rows@.take(i as int) =~= rows@);
    }
    state
}

/// The root of the tree holding the stored accounts (rows in leaf order).
pub fn genesis_root(rows: &Vec<AccountRow>) -> (res: [u8; 32])
    ensures
        res == rows_state(rows@).tree.root.0,
{
    let mut tree = PoseidonMerkleTree::new(TREE_DEPTH);
    proof {
        assert(tree@ =~= empty_tree(TREE_DEPTH as nat));
    }
    let mut i: usize = 0;
    while i < rows.len()
        invariant
            0 <= i <= rows@.len(),
            tree.shape_ok(),
            tree@ == rows_state(rows@.take(i as int)).tree,
        decreases rows@.len() - i,
    {
        let account = account_from_row(&rows[i]);
        tree.update_leaf_from_account(account.leaf_index, &account);
        proof {
            assert(rows@.take(i + 1).drop_last() =~= rows@.take(i as int));
            assert(rows@.take(i + 1).last() == rows@[i as int]);
        }
        i += 1;
    }
    proof {
        assert(rows@.take(i as int) =~= rows@);
    }
    tree.root.0
}

/// The new balance (in decimal) and nonce to store for one account.
#[derive(Debug, Clone)]
pub struct AccountUpdate {
    pub owner_address: [u8; 20],
    pub balance: String,
    pub nonce: i64,
}

/// One update per account of the state, in the state's order.
pub fn account_updates(state: &L2State) -> (res: Vec<AccountUpdate>)
    ensures
        res@.len() == state.account_states.value_seq().len(),
        forall|j: int|
            0 <= j < res@.len() ==> {
                &&& (#[trigger] res@[j]).owner_address@ == state.account_states.key_seq()[j]
                &&& res@[j].balance@ == dec_string(
                    state.account_states.value_seq()[j].balance as nat,
                )
                &&& res@[j].nonce == state.account_states.value_seq()[j].nonce as i64
            },
{
    let mut out: Vec<AccountUpdate> = Vec::new();
    let n = state.account_states.len();
    let mut j: usize = 0;
    while j < n
        invariant
            0 <= j <= n,
            n == state.account_states.value_seq().len(),
            out@.len() == j,
            forall|k: int|
                0 <= k < j ==> {
                    &&& (#[trigger] out@[k]).owner_address@ == state.account_states.key_seq()[k]
                    &&& out@[k].balance@ == dec_string(
                        state.account_states.value_seq()[k].balance as nat,
                    )
                    &&& out@[k].nonce == state.account_states.value_seq()[k].nonce as i64
                },
        decreases n - j,
    {
        let (addr, account) = state.account_states.entry_at(j);
        out.push(
            AccountUpdate {
                owner_address: addr,
                balance: u128_to_decimal(account.balance),
                nonce: account.nonce as i64,
            },
        );
        j += 1;
    }
    out
}

/// A stored public key: each coordinate column of the wrong length reads as zeros.
pub fn pubkey_from_columns(x: &Vec<u8>, y: &Vec<u8>) -> (res: ([u8; 32], [u8; 32]))
    ensures
        res.0@ == fixed_or_zero(x@, 32),
        res.1@ == fixed_or_zero(y@, 32),
{
    (copy32(x), copy32(y))
}

proof fn lemma_empty_state_consistent()
    ensures
        state_consistent(empty_state()),
        empty_state().tree.depth == TREE_DEPTH,
{
    let t = empty_tree(TREE_DEPTH as nat);
    assert forall|l: int| 0 < l <= t.depth implies #[trigger] t.defaults[l] == poseidon2(
        t.defaults[l - 1].0,
        t.defaults[l - 1].0,
    ) by {
        assert(t.defaults[l] == default_node(l as nat));
        assert(t.defaults[l - 1] == default_node((l - 1) as nat));
    }
    assert(t.wf());
    assert(t.rooted());
    assert(indices_ok(empty_state()));
    assert(leaves_match(empty_state()));
}

proof fn lemma_register_keeps_consistency(s: L2StateView, k: Seq<u8>, a: AccountState)
    requires
        state_consistent(s),
        a.leaf_index < pow2(s.tree.depth),
        forall|k2: Seq<u8>|
            #[trigger] s.indices.contains_key(k2) && k2 != k ==> s.indices[k2] != a.leaf_index,
    ensures
        state_consistent(
            L2StateView {
                tree: s.tree.update(a.leaf_index as nat, leaf_of(a)),
                indices: s.indices.insert(k, a.leaf_index),
                states: s.states.insert(k, a),
            },
        ),
{
    let idx = a.leaf_index as nat;
    let s1 = L2StateView {
        tree: s.tree.update(idx, leaf_of(a)),
        indices: s.indices.insert(k, a.leaf_index),
        states: s.states.insert(k, a),
    };
    lemma_update_preserves_wf(s.tree, idx, leaf_of(a));
    assert forall|k2: Seq<u8>|
        s1.indices.contains_key(k2) && s1.states.contains_key(k2) implies #[trigger] s1.tree.node(
        0,
        s1.indices[k2] as nat,
    ) == leaf_of(s1.states[k2]) by {
        lemma_update_read_back(s.tree, idx, leaf_of(a), s1.indices[k2] as nat);
    }
    assert(indices_ok(s1));
}

/// A state loaded from stored accounts whose leaf indices are distinct and
/// inside the tree is consistent: the tree is well formed and rooted, and
/// every registered account's commitment sits at its own leaf (so every
/// account's Merkle proof leads to the root).
pub proof fn lemma_loaded_state_consistent(rows: Seq<AccountRow>)
    requires
        forall|i: int, j: int|
            0 <= i < j < rows.len() ==> #[trigger] account_of_row(rows[i]).leaf_index
                != #[trigger] account_of_row(rows[j]).leaf_index,
        forall|i: int|
            0 <= i < rows.len() ==> #[trigger] account_of_row(rows[i]).leaf_index < pow2(
                TREE_DEPTH as nat,
            ),
    ensures
        state_consistent(rows_state(rows)),
        rows_state(rows).tree.depth == TREE_DEPTH,
        forall|k: Seq<u8>|
            #[trigger] rows_state(rows).indices.contains_key(k) ==> exists|i: int|
                0 <= i < rows.len() && rows_state(rows).indices[k] == #[trigger] account_of_row(
                    rows[i],
                ).leaf_index,
    decreases rows.len(),
{
    if rows.len() == 0 {
        lemma_empty_state_consistent();
    } else {
        let pre = rows.drop_last();
        assert forall|i: int, j: int| 0 <= i < j < pre.len() implies #[trigger] account_of_row(
            pre[i],
        ).leaf_index != #[trigger] account_of_row(pre[j]).leaf_index by {
            assert(pre[i] == rows[i] && pre[j] == rows[j]);
        }
        assert forall|i: int| 0 <= i < pre.len() implies #[trigger] account_of_row(pre[i]).leaf_index
            < pow2(TREE_DEPTH as nat) by {
            assert(pre[i] == rows[i]);
        }
        lemma_loaded_state_consistent(pre);
        let s = rows_state(pre);
        let a = account_of_row(rows.last());
        let n = rows.len() - 1;
        assert(rows[n] == rows.last());
        assert(a.leaf_index < pow2(TREE_DEPTH as nat));
        assert forall|k2: Seq<u8>| #[trigger] s.indices.contains_key(k2) && k2 != a.owner_address@ implies s.indices[k2]
            != a.leaf_index by {
            let i = choose|i: int|
                0 <= i < pre.len() && s.indices[k2] == #[trigger] account_of_row(pre[i]).leaf_index;
            assert(pre[i] == rows[i]);
            assert(account_of_row(rows[i]).leaf_index != account_of_row(rows[n]).leaf_index);
        }
        lemma_register_keeps_consistency(s, a.owner_address@, a);
        let fin = rows_state(rows);
        assert forall|k: Seq<u8>| #[trigger] fin.indices.contains_key(k) implies exists|i: int|
            0 <= i < rows.len() && fin.indices[k] == #[trigger] account_of_row(rows[i]).leaf_index by {
            if k == a.owner_address@ {
                assert(fin.indices[k] == account_of_row(rows[n]).leaf_index);
            } else {
                let i = choose|i: int|
                    0 <= i < pre.len() && s.indices[k] == #[trigger] account_of_row(pre[i]).leaf_index;
                assert(pre[i] == rows[i]);
                assert(fin.indices[k] == account_of_row(rows[i]).leaf_index);
            }
        }
    }
}

} // verus!
