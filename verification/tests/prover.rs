use eduroll::crypto_utils::compute_l2_address;
use eduroll::prover::{
    build_witness, decimal_to_bytes32, proof_data_from, zero_decimal, DecimalError, ProofError,
    ProveTimings, SnapshotAccount, SnarkjsProof, WitnessError, DEPTH, N_DEPOSITS, N_TXS,
};
use eduroll::{AccountState, L2Transaction, L2TransactionStatus, PoseidonHash, PoseidonMerkleTree};
use num_bigint::BigUint;

fn snap(leaf: u64, owner: u8, bal: u128, nonce: u64) -> SnapshotAccount {
    SnapshotAccount {
        leaf_index: leaf,
        owner_address: [owner; 20],
        l2_pubkey_x: [owner; 32],
        l2_pubkey_y: [owner.wrapping_add(1); 32],
        pre_balance: bal,
        pre_nonce: nonce,
    }
}

fn tx(from: u8, to: u8, amount: u128, nonce: u64) -> L2Transaction {
    L2Transaction {
        tx_hash: PoseidonHash([7u8; 32]),
        sender: [from; 20],
        recipient: [to; 20],
        amount,
        fee: 0,
        nonce,
        status: L2TransactionStatus::AcceptedOnL2,
        batch_id: Some(1),
        sig_r8_x: [1u8; 32],
        sig_r8_y: [2u8; 32],
        sig_s: [3u8; 32],
    }
}

fn dec(b: &[u8; 32]) -> String {
    BigUint::from_bytes_be(b).to_string()
}

fn account(a: &SnapshotAccount, bal: u128, nonce: u64) -> AccountState {
    AccountState {
        owner_address: a.owner_address,
        l2_address: compute_l2_address(&a.l2_pubkey_x, &a.l2_pubkey_y),
        l2_pubkey_x: a.l2_pubkey_x,
        l2_pubkey_y: a.l2_pubkey_y,
        balance: bal,
        nonce,
        leaf_index: a.leaf_index,
    }
}

#[test]
fn zero_decimal_is_zero() {
    assert_eq!(zero_decimal(), "0");
}

#[test]
fn witness_replays_one_transfer() {
    let a = snap(0, 10, 1000, 4);
    let b = snap(1, 20, 50, 0);
    let w = build_witness(&vec![tx(10, 20, 300, 4)], &vec![a, b]).expect("witness");

    let mut tree = PoseidonMerkleTree::new(DEPTH);
    tree.update_leaf_from_account(0, &account(&a, 1000, 4));
    tree.update_leaf_from_account(1, &account(&b, 50, 0));
    assert_eq!(w.old_root, dec(&tree.root.0));
    let dep_path = tree.get_proof(0);
    let sender_path = tree.get_proof(0);
    tree.update_leaf_from_account(0, &account(&a, 700, 5));
    let recv_path = tree.get_proof(1);
    tree.update_leaf_from_account(1, &account(&b, 350, 0));
    assert_eq!(w.new_root, dec(&tree.root.0));

    assert_eq!(w.deposits_root, "0");
    assert_eq!(w.deposit_pubkey_x.len(), N_DEPOSITS);
    assert_eq!(w.deposit_pubkey_x[3], dec(&a.l2_pubkey_x));
    assert_eq!(w.deposit_old_balance[2], "1000");
    assert_eq!(w.deposit_old_nonce[1], "4");
    assert_eq!(w.deposit_amount[0], "0");
    assert_eq!(w.deposit_path_elements[0][5], dec(&dep_path[5].0));
    assert_eq!(w.deposit_path_indices[0], vec!["0".to_string(); DEPTH]);

    assert_eq!(w.tx_amount.len(), N_TXS);
    assert_eq!(w.tx_amount[0], "300");
    assert_eq!(w.tx_nonce[0], "4");
    assert_eq!(w.tx_amount[1], "0");
    assert_eq!(w.sender_balance[0], "1000");
    assert_eq!(w.sender_nonce[0], "4");
    assert_eq!(w.receiver_balance[0], "50");
    assert_eq!(w.receiver_nonce[0], "0");
    assert_eq!(w.tx_sender_address[0], dec(&compute_l2_address(&a.l2_pubkey_x, &a.l2_pubkey_y).0));
    assert_eq!(w.tx_receiver_address[0], dec(&compute_l2_address(&b.l2_pubkey_x, &b.l2_pubkey_y).0));
    assert_eq!(w.sig_r8x[0], dec(&[1u8; 32]));
    assert_eq!(w.sig_s[0], dec(&[3u8; 32]));
    assert_eq!(w.sender_pub_key_y[0], dec(&a.l2_pubkey_y));
    assert_eq!(w.sender_path_elements[0][0], dec(&sender_path[0].0));
    assert_eq!(w.receiver_path_elements[0][0], dec(&recv_path[0].0));
    let mut bits = vec!["0".to_string(); DEPTH];
    bits[0] = "1".to_string();
    assert_eq!(w.receiver_path_indices[0], bits);
    assert_eq!(w.sender_path_elements[19], vec!["0".to_string(); DEPTH]);
    assert_eq!(w.sig_r8y[19], "0");
}

#[test]
fn witness_refuses_bad_batches() {
    let a = snap(0, 10, 100, 0);
    let b = snap(1, 20, u128::MAX, 0);
    assert_eq!(build_witness(&vec![], &vec![]).unwrap_err(), WitnessError::EmptySnapshot);
    assert_eq!(
        build_witness(&vec![tx(30, 20, 1, 0)], &vec![a, b]).unwrap_err(),
        WitnessError::UnknownSender([30u8; 20])
    );
    assert_eq!(
        build_witness(&vec![tx(10, 40, 1, 0)], &vec![a, b]).unwrap_err(),
        WitnessError::UnknownRecipient([40u8; 20])
    );
    assert_eq!(
        build_witness(&vec![tx(10, 20, 50, 0), tx(10, 20, 51, 1)], &vec![a, snap(1, 20, 0, 0)])
            .unwrap_err(),
        WitnessError::SenderUnderflow(1)
    );
    assert_eq!(
        build_witness(&vec![tx(10, 20, 1, 0)], &vec![snap(0, 10, 5, u64::MAX), b]).unwrap_err(),
        WitnessError::SenderNonceOverflow(0)
    );
    assert_eq!(
        build_witness(&vec![tx(10, 20, 1, 0)], &vec![a, b]).unwrap_err(),
        WitnessError::ReceiverOverflow(0)
    );
}

#[test]
fn witness_uses_at_most_twenty_transfers() {
    let a = snap(0, 10, 1000, 0);
    let b = snap(1, 20, 0, 0);
    let txs: Vec<L2Transaction> = (0..25).map(|i| tx(10, 20, 1, i)).collect();
    let w = build_witness(&txs, &vec![a, b]).expect("witness");
    assert_eq!(w.tx_amount.len(), N_TXS);
    assert_eq!(w.sender_balance[19], "981");
    assert_eq!(w.receiver_balance[19], "19");
}

#[test]
fn proof_data_swaps_b_pairs() {
    let p = SnarkjsProof {
        pi_a: vec!["1".into(), "2".into(), "1".into()],
        pi_b: vec![vec!["3".into(), "4".into()], vec!["5".into(), "6".into()], vec!["1".into(), "0".into()]],
        pi_c: vec!["7".into(), "8".into(), "1".into()],
    };
    let public = vec!["9".to_string(), "10".to_string(), "11".to_string()];
    let d = proof_data_from(&p, &public).expect("proof");
    assert_eq!(d.a, ["1".to_string(), "2".to_string()]);
    assert_eq!(d.b, [["4".to_string(), "3".to_string()], ["6".to_string(), "5".to_string()]]);
    assert_eq!(d.c, ["7".to_string(), "8".to_string()]);
    assert_eq!(d.public_signals, ["9".to_string(), "10".to_string(), "11".to_string()]);
    let short = vec!["9".to_string(), "10".to_string()];
    assert_eq!(proof_data_from(&p, &short).unwrap_err(), ProofError::TooFewPublicSignals(2));
}

#[test]
fn decimal_field_elements_read_back() {
    assert_eq!(decimal_to_bytes32("0").unwrap(), [0u8; 32]);
    let mut one_two = [0u8; 32];
    one_two[30] = 1;
    one_two[31] = 0;
    assert_eq!(decimal_to_bytes32("256").unwrap(), one_two);
    assert_eq!(decimal_to_bytes32("+256").unwrap(), one_two);
    assert_eq!(decimal_to_bytes32("2_5_6").unwrap(), one_two);
    assert_eq!(decimal_to_bytes32("_256").unwrap_err(), DecimalError::Invalid);
    assert_eq!(decimal_to_bytes32("").unwrap_err(), DecimalError::Invalid);
    assert_eq!(decimal_to_bytes32("12a").unwrap_err(), DecimalError::Invalid);
    let max = BigUint::from(2u32).pow(256) - BigUint::from(1u32);
    assert_eq!(decimal_to_bytes32(&max.to_string()).unwrap(), [0xffu8; 32]);
    let over = BigUint::from(2u32).pow(256);
    assert_eq!(decimal_to_bytes32(&over.to_string()).unwrap_err(), DecimalError::TooLarge);
    let root = [0x2au8; 32];
    assert_eq!(decimal_to_bytes32(&dec(&root)).unwrap(), root);
}

#[test]
fn timings_hold_both_phases() {
    let t = ProveTimings { witness_ms: 1800, prove_ms: 80000 };
    let u = t;
    assert_eq!(u.witness_ms + u.prove_ms, 81800);
}

#[test]
fn canonical_decimal_text_survives_the_bytes() {
    for text in ["0", "7", "256", "12345678901234567890123456789", "21888242871839275222246405745257275088548364400416034343698204186575808495616"] {
        let bytes = decimal_to_bytes32(text).unwrap();
        assert_eq!(BigUint::from_bytes_be(&bytes).to_string(), text);
    }
}
