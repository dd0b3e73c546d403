use eduroll::accounts::{compute_l2_address, deterministic_account, sign_tx, build_signed_tx};
use eduroll::apply::ExecError;
use eduroll::batch::BatchStatus;
use eduroll::prover::ProofData;
use eduroll::rows::{
    account_from_row, account_updates, batch_from_row, genesis_root, pubkey_from_columns,
    signature_bytes, snapshot_from_row, state_from_rows, transaction_from_row, transaction_to_row,
    AccountRow,
    BatchRow, SnapshotRow, TransactionRow,
};
use eduroll::sequencer::{
    batch_ready, check_signature, close_batch, light_validate, try_close_batch, SignatureRejection,
    TxRejection, BATCH_SIZE,
};
use eduroll::submitter::{encode_batch_data, prepare_submission, proof_call_args, SubmitError};
use eduroll::{execute_batch, L2Transaction, L2TransactionStatus, PoseidonHash, PoseidonMerkleTree};

fn row(owner: u8, bal: &str, nonce: i64, leaf: i64) -> AccountRow {
    AccountRow {
        owner_address: vec![owner; 20],
        l2_pubkey_x: vec![owner; 32],
        l2_pubkey_y: vec![owner + 1; 32],
        balance: bal.to_string(),
        nonce,
        leaf_index: leaf,
    }
}

fn transfer(from: u8, to: u8, amount: u128, nonce: u64) -> L2Transaction {
    L2Transaction {
        tx_hash: PoseidonHash([from; 32]),
        sender: [from; 20],
        recipient: [to; 20],
        amount,
        fee: 0,
        nonce,
        status: L2TransactionStatus::Pending,
        batch_id: None,
        sig_r8_x: [4u8; 32],
        sig_r8_y: [5u8; 32],
        sig_s: [6u8; 32],
    }
}

#[test]
fn light_validation_checks_amount_then_hash() {
    let mut t = transfer(1, 2, 0, 0);
    t.tx_hash = PoseidonHash([0u8; 32]);
    assert_eq!(light_validate(&t), Err(TxRejection::ZeroAmount));
    t.amount = 5;
    assert_eq!(light_validate(&t), Err(TxRejection::ZeroHash));
    t.tx_hash = PoseidonHash([1u8; 32]);
    assert_eq!(light_validate(&t), Ok(()));
}

#[test]
fn batch_closes_only_when_full() {
    assert!(!batch_ready(BATCH_SIZE - 1));
    assert!(batch_ready(BATCH_SIZE));
}

#[test]
fn state_from_rows_registers_every_account() {
    let rows = vec![row(1, "1000", 0, 0), row(2, "not a number", 3, 1), row(3, "5", 1, 2)];
    let state = state_from_rows(&rows);
    assert_eq!(state.get_account_index(&[2u8; 20]), Some(1));
    assert_eq!(state.get_account_index(&[9u8; 20]), None);
    assert_eq!(state.next_leaf_index(), 3);
    let acct = account_from_row(&rows[1]);
    assert_eq!(acct.balance, 0);
    assert_eq!(acct.nonce, 3);
    assert_eq!(acct.l2_address, PoseidonHash([0u8; 32]));
    let mut tree = PoseidonMerkleTree::new(20);
    for r in &rows {
        let a = account_from_row(r);
        tree.update_leaf_from_account(a.leaf_index, &a);
    }
    assert_eq!(state.tree.root, tree.root);
    assert_eq!(genesis_root(&rows), tree.root.0);
    let updates = account_updates(&state);
    assert_eq!(updates.len(), 3);
    assert_eq!(updates[0].owner_address, [1u8; 20]);
    assert_eq!(updates[0].balance, "1000");
    assert_eq!(updates[2].nonce, 1);
}

#[test]
fn batch_execution_conserves_and_orders() {
    let rows = vec![row(1, "1000", 0, 0), row(2, "10", 0, 1)];
    let state = state_from_rows(&rows);
    let pre_root = state.tree.root;
    let txs = vec![transfer(1, 2, 300, 0), transfer(2, 1, 5, 0), transfer(1, 2, 1, 1)];
    let closed = close_batch(txs.clone(), state).expect("batch applies");
    assert_eq!(closed.pre_state_root, pre_root);
    assert_eq!(closed.post_state_root, closed.state.tree.root);
    assert_eq!(closed.tx_hashes, vec![[1u8; 32], [2u8; 32], [1u8; 32]]);
    let updates = account_updates(&closed.state);
    assert_eq!(updates[0].balance, "704");
    assert_eq!(updates[0].nonce, 2);
    assert_eq!(updates[1].balance, "306");
    assert_eq!(updates[1].nonce, 1);
}

#[test]
fn batch_execution_reports_first_failure() {
    let rows = vec![row(1, "10", 0, 0), row(2, "10", 0, 1)];
    let st = || state_from_rows(&rows);
    assert_eq!(
        close_batch(vec![transfer(1, 2, 1, 1)], st()).err(),
        Some(ExecError::NonceMismatch { expected: 0, got: 1 })
    );
    assert_eq!(
        close_batch(vec![transfer(1, 2, 11, 0)], st()).err(),
        Some(ExecError::InsufficientBalance { has: 10, needs: 11 })
    );
    assert_eq!(close_batch(vec![transfer(7, 2, 1, 0)], st()).err(), Some(ExecError::UnknownSender([7u8; 20])));
    assert_eq!(
        close_batch(vec![transfer(1, 8, 1, 0)], st()).err(),
        Some(ExecError::UnknownRecipient([8u8; 20]))
    );
    let (root, after) = execute_batch(st(), vec![]).expect("empty batch");
    assert_eq!(root, after.tree.root);
}

#[test]
fn overflowing_batches_are_detected() {
    // An unrelated rich account and an idle account at the nonce limit do not
    // stop a batch.
    let rows = vec![
        row(1, "100", 0, 0),
        row(2, "1", 0, 1),
        row(3, &u128::MAX.to_string(), -1, 2),
    ];
    let ok = try_close_batch(vec![transfer(1, 2, 5, 0)], state_from_rows(&rows));
    assert!(matches!(ok, Some(Ok(_))));
    // Crediting past u128::MAX is an overflow.
    let over = try_close_batch(vec![transfer(1, 3, 5, 0)], state_from_rows(&rows));
    assert!(over.is_none());
    assert!(eduroll::apply::tx_would_overflow(&state_from_rows(&rows), &transfer(1, 3, 5, 0)));
    // A sender whose nonce is u64::MAX overflows when it sends.
    let rows = vec![row(1, "10", -1, 0), row(2, "1", 0, 1)];
    assert!(try_close_batch(vec![transfer(1, 2, 1, u64::MAX)], state_from_rows(&rows)).is_none());
    // A failing transfer stops the batch before a later overflow is reached.
    let rows = vec![row(1, "10", 0, 0), row(2, &u128::MAX.to_string(), 0, 1)];
    let failed = try_close_batch(
        vec![transfer(1, 2, 1, 7), transfer(1, 2, 1, 0)],
        state_from_rows(&rows),
    );
    assert_eq!(failed.map(|r| r.err()), Some(Some(ExecError::NonceMismatch { expected: 0, got: 7 })));
    // A self-transfer never overflows the credit.
    let rows = vec![row(1, &u128::MAX.to_string(), 0, 0)];
    assert!(!eduroll::apply::tx_would_overflow(&state_from_rows(&rows), &transfer(1, 1, 5, 0)));
}

#[test]
fn rows_convert_with_zero_defaults() {
    let mut sig = vec![1u8; 32];
    sig.extend_from_slice(&[2u8; 32]);
    sig.extend_from_slice(&[3u8; 32]);
    let r = TransactionRow {
        tx_hash: vec![9u8; 32],
        sender_address: vec![1u8; 20],
        recipient_address: vec![2u8; 19],
        amount: "+42".to_string(),
        nonce: 7,
        fee: "x".to_string(),
        signature: sig,
    };
    let t = transaction_from_row(&r, L2TransactionStatus::AcceptedOnL2, Some(3));
    assert_eq!(t.tx_hash, PoseidonHash([9u8; 32]));
    assert_eq!(t.sender, [1u8; 20]);
    assert_eq!(t.recipient, [0u8; 20]);
    assert_eq!(t.amount, 42);
    assert_eq!(t.fee, 0);
    assert_eq!(t.nonce, 7);
    assert_eq!(t.batch_id, Some(3));
    assert_eq!((t.sig_r8_x, t.sig_r8_y, t.sig_s), ([1u8; 32], [2u8; 32], [3u8; 32]));
    let mut bad = r.clone();
    bad.signature = vec![1u8; 95];
    let t2 = transaction_from_row(&bad, L2TransactionStatus::Pending, None);
    assert_eq!(t2.sig_s, [0u8; 32]);
    assert_eq!(signature_bytes(&t), r.signature);

    let s = snapshot_from_row(&SnapshotRow {
        leaf_index: 4,
        owner_address: vec![5u8; 20],
        l2_pubkey_x: vec![6u8; 32],
        l2_pubkey_y: vec![7u8; 31],
        pre_balance: "99".to_string(),
        pre_nonce: 2,
    });
    assert_eq!((s.leaf_index, s.owner_address, s.pre_balance, s.pre_nonce), (4, [5u8; 20], 99, 2));
    assert_eq!(s.l2_pubkey_y, [0u8; 32]);

    let b = batch_from_row(
        BatchRow {
            batch_id: 12,
            pre_state_root_poseidon: vec![1u8; 32],
            post_state_root_poseidon: vec![2u8; 3],
            zk_proof: Some(vec![1, 2, 3]),
            l1_block_number: None,
        },
        BatchStatus::Proven,
    );
    assert_eq!(b.batch_id, 12);
    assert_eq!(b.pre_state_root_poseidon, PoseidonHash([1u8; 32]));
    assert_eq!(b.post_state_root_poseidon, PoseidonHash([0u8; 32]));
    assert_eq!(b.zk_proof, Some(vec![1, 2, 3]));
    assert_eq!(b.status, BatchStatus::Proven);
    assert!(b.transactions.is_empty());
    assert_eq!(pubkey_from_columns(&vec![1u8; 32], &vec![]), ([1u8; 32], [0u8; 32]));
}

#[test]
fn signature_check_needs_both_keys_and_a_valid_signature() {
    let alice = deterministic_account(21);
    let bob = deterministic_account(22);
    let mut t = build_signed_tx(&alice, &bob, 10, 0);
    assert_eq!(t.sender, alice.owner_address);
    assert_eq!(t.fee, 0);
    let ak = Some((alice.pubkey_x, alice.pubkey_y));
    let bk = Some((bob.pubkey_x, bob.pubkey_y));
    assert_eq!(check_signature(&t, ak, bk), Ok(()));
    assert_eq!(check_signature(&t, None, bk), Err(SignatureRejection::SenderNotRegistered(alice.owner_address)));
    assert_eq!(check_signature(&t, ak, None), Err(SignatureRejection::RecipientNotRegistered(bob.owner_address)));
    t.amount = 11;
    assert_eq!(check_signature(&t, ak, bk), Err(SignatureRejection::BadSignature));
    let (x, y, s) = sign_tx(&alice, &alice.l2_address, &bob.l2_address, 10, 0);
    assert_eq!((t.sig_r8_x, t.sig_r8_y, t.sig_s), (x, y, s));
    assert_eq!(alice.l2_address, compute_l2_address(&alice.pubkey_x, &alice.pubkey_y));
}

#[test]
fn batch_data_layout() {
    let txs = vec![transfer(1, 2, 258, 3), transfer(3, 4, 1, 0)];
    let data = encode_batch_data(&txs);
    assert_eq!(data.len(), 4 + 160 * 2);
    assert_eq!(&data[0..4], &[0, 0, 0, 2]);
    assert_eq!(&data[4..24], &[1u8; 20]);
    assert_eq!(&data[24..44], &[2u8; 20]);
    let mut amount = [0u8; 16];
    amount[14] = 1;
    amount[15] = 2;
    assert_eq!(&data[44..60], &amount);
    assert_eq!(&data[60..68], &[0, 0, 0, 0, 0, 0, 0, 3]);
    assert_eq!(&data[68..100], &[4u8; 32]);
    assert_eq!(&data[132..164], &[6u8; 32]);
    assert_eq!(encode_batch_data(&vec![]), vec![0, 0, 0, 0]);
}

#[test]
fn submission_inputs() {
    let proof = ProofData {
        a: ["1".to_string(), "2".to_string()],
        b: [["3".to_string(), "4".to_string()], ["5".to_string(), "6".to_string()]],
        c: ["7".to_string(), "".to_string()],
        public_signals: ["8".to_string(), "9".to_string(), "258".to_string()],
    };
    let args = proof_call_args(&proof).expect("decimals");
    let mut two = [0u8; 32];
    two[31] = 2;
    assert_eq!(args.a[1], two);
    assert_eq!(args.c[1], [0u8; 32]);
    let mut dr = [0u8; 32];
    dr[30] = 1;
    dr[31] = 2;
    assert_eq!(args.deposits_root, dr);
    let mut bad = proof.clone();
    bad.b[1][0] = "+5".to_string();
    assert_eq!(proof_call_args(&bad).unwrap_err(), SubmitError::InvalidDecimal);
    bad.b[1][0] = "1".repeat(90);
    assert_eq!(proof_call_args(&bad).unwrap_err(), SubmitError::InvalidDecimal);

    let batch = batch_from_row(
        BatchRow {
            batch_id: 1,
            pre_state_root_poseidon: vec![1u8; 32],
            post_state_root_poseidon: vec![2u8; 32],
            zk_proof: None,
            l1_block_number: None,
        },
        BatchStatus::Proven,
    );
    let txs = vec![transfer(1, 2, 3, 4)];
    let sub = prepare_submission(&batch, dr, 41, &txs);
    assert_eq!(sub.public_inputs.batch_number, 42);
    assert_eq!(sub.public_inputs.old_root, [1u8; 32]);
    assert_eq!(sub.public_inputs.new_root, [2u8; 32]);
    assert_eq!(sub.public_inputs.withdrawals_root, [0u8; 32]);
    assert_eq!(sub.public_inputs.deposits_root, dr);
    assert_eq!(sub.public_inputs.circuit_version, 1);
    assert_eq!(sub.public_inputs.l1_block_number, 0);
    assert_eq!(sub.batch_data, encode_batch_data(&txs));
    assert_eq!(sub.public_inputs.batch_data_hash, eduroll::crypto_utils::calculate_keccak_hash(&sub.batch_data).0);
}

#[test]
fn witness_replays_the_sequencers_batch() {
    let rows = vec![row(1, "1000", 0, 0), row(2, "10", 0, 1), row(3, "0", 5, 2)];
    let snapshot: Vec<eduroll::prover::SnapshotAccount> = rows
        .iter()
        .map(|r| {
            snapshot_from_row(&SnapshotRow {
                leaf_index: r.leaf_index,
                owner_address: r.owner_address.clone(),
                l2_pubkey_x: r.l2_pubkey_x.clone(),
                l2_pubkey_y: r.l2_pubkey_y.clone(),
                pre_balance: r.balance.clone(),
                pre_nonce: r.nonce,
            })
        })
        .collect();
    let txs = vec![transfer(1, 2, 300, 0), transfer(2, 3, 5, 0), transfer(1, 3, 1, 1)];
    let closed = close_batch(txs.clone(), state_from_rows(&rows)).expect("batch applies");
    let w = eduroll::prover::build_witness(&txs, &snapshot).expect("witness");
    let root = eduroll::prover::decimal_to_bytes32(&w.new_root).expect("decimal root");
    assert_eq!(root, closed.post_state_root.0);
    let old = eduroll::prover::decimal_to_bytes32(&w.old_root).expect("decimal root");
    assert_eq!(old, closed.pre_state_root.0);
}

#[test]
fn stored_transaction_reads_back_unchanged() {
    let mut tx = transfer(3, 4, u128::MAX, u64::MAX);
    tx.fee = 17;
    let row = transaction_to_row(&tx);
    assert_eq!(row.amount, "340282366920938463463374607431768211455");
    assert_eq!(row.fee, "17");
    assert_eq!(row.nonce, -1);
    assert_eq!(row.signature.len(), 96);
    let back = transaction_from_row(&row, L2TransactionStatus::Pending, None);
    assert_eq!(back.tx_hash, tx.tx_hash);
    assert_eq!((back.sender, back.recipient), (tx.sender, tx.recipient));
    assert_eq!((back.amount, back.fee, back.nonce), (tx.amount, tx.fee, tx.nonce));
    assert_eq!((back.sig_r8_x, back.sig_r8_y, back.sig_s), (tx.sig_r8_x, tx.sig_r8_y, tx.sig_s));
    assert_eq!(back.status, L2TransactionStatus::Pending);
    assert_eq!(back.batch_id, None);
}

#[test]
fn client_uses_and_advances_the_senders_nonce() {
    let local = eduroll::accounts::deterministic_accounts(3);
    let mut nonces = eduroll::address_map::AddressMap::new();
    nonces.insert(local[1].owner_address, 5u64);
    let first = eduroll::client::next_transfer(&local, &nonces, 0, 2, 9);
    assert_eq!(first.nonce, 0);
    assert_eq!((first.sender, first.recipient, first.amount), (local[0].owner_address, local[2].owner_address, 9));
    let second = eduroll::client::next_transfer(&local, &nonces, 1, 0, 4);
    assert_eq!(second.nonce, 5);
    let expected = build_signed_tx(&local[1], &local[0], 4, 5);
    assert_eq!(second.tx_hash, expected.tx_hash);
    assert_eq!((second.sig_r8_x, second.sig_r8_y, second.sig_s), (expected.sig_r8_x, expected.sig_r8_y, expected.sig_s));
    eduroll::client::record_accepted(&mut nonces, &second);
    assert_eq!(nonces.get(&local[1].owner_address), Some(6));
    eduroll::client::record_accepted(&mut nonces, &first);
    assert_eq!(nonces.get(&local[0].owner_address), Some(1));
}

#[test]
fn one_transfer_moves_the_amount_and_bumps_the_senders_nonce() {
    let rows = vec![row(1, "1000", 4, 0), row(2, "10", 7, 1), row(3, "55", 9, 2)];
    let mut state = state_from_rows(&rows);
    eduroll::apply::apply_transaction(&mut state, &transfer(1, 2, 300, 4)).expect("applies");
    let s = state.account_states.get(&[1u8; 20]).unwrap();
    let r = state.account_states.get(&[2u8; 20]).unwrap();
    let o = state.account_states.get(&[3u8; 20]).unwrap();
    assert_eq!((s.balance, s.nonce), (700, 5));
    assert_eq!((r.balance, r.nonce), (310, 7));
    assert_eq!((o.balance, o.nonce), (55, 9));
    let mut again = state_from_rows(&rows);
    let e = eduroll::apply::apply_transaction(&mut again, &transfer(1, 2, 300, 3)).unwrap_err();
    assert_eq!(e, ExecError::NonceMismatch { expected: 4, got: 3 });
}

#[test]
fn proven_batch_proof_needs_a_batch_and_its_bytes() {
    assert!(matches!(eduroll::submitter::proven_batch_proof(&None), eduroll::submitter::ProvenBatchProof::NoBatch));
    let mut b = eduroll::Batch {
        batch_id: 8,
        transactions: vec![],
        pre_state_root_poseidon: PoseidonHash([0u8; 32]),
        post_state_root_poseidon: PoseidonHash([1u8; 32]),
        zk_proof: None,
        l1_tx_hash: None,
        l1_block_number: None,
        status: BatchStatus::Proven,
    };
    assert!(matches!(eduroll::submitter::proven_batch_proof(&Some(b.clone())), eduroll::submitter::ProvenBatchProof::MissingProof(8)));
    b.zk_proof = Some(vec![1, 2, 3]);
    match eduroll::submitter::proven_batch_proof(&Some(b)) {
        eduroll::submitter::ProvenBatchProof::Proof(bytes) => assert_eq!(bytes, vec![1, 2, 3]),
        other => panic!("unexpected {:?}", other),
    }
}

#[test]
fn decimal_columns_read_as_u128_parse_does() {
    let mut r = TransactionRow {
        tx_hash: vec![1u8; 32],
        sender_address: vec![1u8; 20],
        recipient_address: vec![2u8; 20],
        amount: "007".to_string(),
        nonce: 0,
        fee: "340282366920938463463374607431768211455".to_string(),
        signature: vec![],
    };
    let t = transaction_from_row(&r, L2TransactionStatus::Pending, None);
    assert_eq!((t.amount, t.fee), (7, u128::MAX));
    for bad in ["", "+", "-1", "1 ", "340282366920938463463374607431768211456", "++1"] {
        r.amount = bad.to_string();
        assert_eq!(transaction_from_row(&r, L2TransactionStatus::Pending, None).amount, 0);
    }
    r.amount = "+0".to_string();
    assert_eq!(transaction_from_row(&r, L2TransactionStatus::Pending, None).amount, 0);
    let mut tx = transfer(1, 2, 0, 0);
    tx.fee = 1_000_000;
    let row = transaction_to_row(&tx);
    assert_eq!((row.amount.as_str(), row.fee.as_str()), ("0", "1000000"));
}
