use eduroll::crypto_utils::{
    calculate_keccak_hash, compute_l2_address, poseidon_hash_three, poseidon_hash_two,
    verify_eddsa_poseidon,
};
use eduroll::keccak_tree::BATCH_SIZE;
use eduroll::{AccountState, KeccakMerkleTree, MerkleProof, PoseidonHash, PoseidonMerkleTree};

#[test]
fn test_fixed_batch_root() {
    let txs = vec![vec![0u8; 32]; BATCH_SIZE];
    let tree = KeccakMerkleTree::new(txs);
    let root = tree.get_root();

    assert_ne!(&root.0, &[0u8; 32]);

    // Same input must always produce the same root.
    let tree2 = KeccakMerkleTree::new(vec![vec![0u8; 32]; BATCH_SIZE]);
    assert_eq!(root, tree2.get_root());
}

#[test]
fn test_smt_initialization() {
    let tree = PoseidonMerkleTree::new(20);
    assert_eq!(tree.root, tree.default_nodes[20]);
}

#[test]
fn test_leaf_update_changes_root() {
    let mut tree = PoseidonMerkleTree::new(20);
    let initial_root = tree.root.clone();

    let account = AccountState::default();
    tree.update_leaf_from_account(0, &account);

    assert_ne!(initial_root, tree.root);
}

#[test]
fn test_two_updates_are_deterministic() {
    let account_a = AccountState { balance: 1000, nonce: 1, ..Default::default() };
    let account_b = AccountState { balance: 500, nonce: 2, ..Default::default() };

    let mut tree1 = PoseidonMerkleTree::new(20);
    tree1.update_leaf_from_account(0, &account_a);
    tree1.update_leaf_from_account(1, &account_b);

    let mut tree2 = PoseidonMerkleTree::new(20);
    tree2.update_leaf_from_account(0, &account_a);
    tree2.update_leaf_from_account(1, &account_b);

    assert_eq!(tree1.root, tree2.root);
}

#[test]
fn test_proof_length_equals_depth() {
    let mut tree = PoseidonMerkleTree::new(20);
    let account = AccountState { balance: 42, ..Default::default() };
    tree.update_leaf_from_account(5, &account);

    let proof = tree.get_proof(5);
    assert_eq!(proof.len(), 20);
}

#[test]
fn poseidon_pair_matches_published_vector() {
    let h = compute_l2_address(&[1u8; 32], &[2u8; 32]);
    assert_eq!(
        h.0,
        [
            13, 84, 225, 147, 143, 138, 140, 28, 125, 235, 94, 3, 85, 242, 99, 25, 32, 123, 132,
            254, 156, 162, 206, 27, 38, 231, 53, 200, 41, 130, 25, 144
        ]
    );
    let mut one = [0u8; 32];
    one[31] = 1;
    let h1 = poseidon_hash_two(&PoseidonHash(one), &PoseidonHash(one));
    assert_eq!(
        h1.0,
        [
            0, 122, 243, 70, 226, 211, 4, 39, 158, 121, 224, 169, 243, 2, 63, 119, 18, 148, 167,
            138, 203, 112, 231, 63, 144, 175, 226, 124, 173, 64, 30, 129
        ]
    );
}

#[test]
fn keccak_of_empty_input() {
    let h = calculate_keccak_hash(&[]);
    assert_eq!(
        h.0,
        [
            0xc5, 0xd2, 0x46, 0x01, 0x86, 0xf7, 0x23, 0x3c, 0x92, 0x7e, 0x7d, 0xb2, 0xdc, 0xc7,
            0x03, 0xc0, 0xe5, 0x00, 0xb6, 0x53, 0xca, 0x82, 0x27, 0x3b, 0x7b, 0xfa, 0xd8, 0x04,
            0x5d, 0x85, 0xa4, 0x70
        ]
    );
}

#[test]
fn empty_tree_root_is_hash_of_empty_children() {
    let tree = PoseidonMerkleTree::new(2);
    let l1 = poseidon_hash_two(&PoseidonHash([0u8; 32]), &PoseidonHash([0u8; 32]));
    let l2 = poseidon_hash_two(&l1, &l1);
    assert_eq!(tree.default_nodes[1], l1);
    assert_eq!(tree.root, l2);
}

#[test]
fn updated_leaf_proof_verifies_against_root() {
    let mut tree = PoseidonMerkleTree::new(20);
    let a = AccountState { balance: 7, nonce: 3, leaf_index: 9, ..Default::default() };
    let b = AccountState { balance: 11, nonce: 0, leaf_index: 4, ..Default::default() };
    tree.update_leaf_from_account(9, &a);
    tree.update_leaf_from_account(4, &b);
    for (idx, acct) in [(9u64, a), (4u64, b)] {
        let proof = MerkleProof {
            leaf_index: idx,
            leaf_hash: PoseidonMerkleTree::hash_leaf(&acct),
            siblings: tree.get_proof(idx),
            root: tree.root,
        };
        assert!(proof.verify());
    }
    // An untouched leaf's proof verifies with the zero leaf.
    let empty = MerkleProof {
        leaf_index: 100,
        leaf_hash: PoseidonHash([0u8; 32]),
        siblings: tree.get_proof(100),
        root: tree.root,
    };
    assert!(empty.verify());
    // A wrong leaf does not.
    let wrong = MerkleProof {
        leaf_index: 9,
        leaf_hash: PoseidonHash([1u8; 32]),
        siblings: tree.get_proof(9),
        root: tree.root,
    };
    assert!(!wrong.verify());
}

#[test]
fn keccak_proof_has_one_sibling_per_level() {
    let txs: Vec<Vec<u8>> = (0..BATCH_SIZE as u8).map(|i| vec![i; 3]).collect();
    let tree = KeccakMerkleTree::new(txs.clone());
    assert_eq!(tree.leaves[3], calculate_keccak_hash(&txs[3]));
    // 20 leaves: layers of 20, 10, 5, 3, 2, 1.
    assert_eq!(tree.get_proof(0).len(), 5);
    assert_eq!(tree.layers.len(), 6);
    assert_eq!(tree.get_root(), tree.layers[5][0]);
}

#[test]
fn placeholder_signature_check_accepts_only_zero_signatures() {
    let m = PoseidonHash([5u8; 32]);
    assert!(verify_eddsa_poseidon(&m, &[0u8; 32], &[0u8; 32], &[0u8; 32], &[1u8; 32], &[2u8; 32]));
    let mut s = [0u8; 32];
    s[31] = 1;
    assert!(!verify_eddsa_poseidon(&m, &[0u8; 32], &[0u8; 32], &s, &[1u8; 32], &[2u8; 32]));
}

#[test]
fn leaf_commits_to_address_balance_and_nonce() {
    let a = AccountState {
        l2_pubkey_x: [1u8; 32],
        l2_pubkey_y: [2u8; 32],
        balance: 258,
        nonce: 3,
        ..Default::default()
    };
    let addr = compute_l2_address(&a.l2_pubkey_x, &a.l2_pubkey_y);
    let mut bal = [0u8; 32];
    bal[30] = 1;
    bal[31] = 2;
    let mut nonce = [0u8; 32];
    nonce[31] = 3;
    assert_eq!(PoseidonMerkleTree::hash_leaf(&a), poseidon_hash_three(&addr.0, &bal, &nonce));
}

fn keccak_pair(l: &[u8; 32], r: &[u8; 32]) -> [u8; 32] {
    let mut buf = l.to_vec();
    buf.extend_from_slice(r);
    calculate_keccak_hash(&buf).0
}

#[test]
fn keccak_proof_folds_back_to_root() {
    let txs: Vec<Vec<u8>> = (0..BATCH_SIZE as u8).map(|i| vec![i, 7, i]).collect();
    let tree = KeccakMerkleTree::new(txs);
    let lens = [20usize, 10, 5, 3, 2];
    for index in 0..BATCH_SIZE {
        let proof = tree.get_proof(index);
        let mut h = tree.leaves[index].0;
        let mut cur = index;
        let mut used = 0;
        for len in lens {
            let sib = if cur % 2 == 1 { cur - 1 } else { cur + 1 };
            if sib < len {
                let s = proof[used].0;
                used += 1;
                h = if cur % 2 == 1 { keccak_pair(&s, &h) } else { keccak_pair(&h, &s) };
            } else {
                h = keccak_pair(&h, &h);
            }
            cur /= 2;
        }
        assert_eq!(used, proof.len());
        assert_eq!(h, tree.get_root().0);
    }
}

#[test]
fn leaf_updates_commute_and_last_write_wins() {
    let a = AccountState { balance: 10, nonce: 1, ..Default::default() };
    let b = AccountState { balance: 20, nonce: 2, ..Default::default() };
    let mut t1 = PoseidonMerkleTree::new(20);
    t1.update_leaf_from_account(3, &a);
    t1.update_leaf_from_account(1000, &b);
    let mut t2 = PoseidonMerkleTree::new(20);
    t2.update_leaf_from_account(1000, &b);
    t2.update_leaf_from_account(3, &a);
    assert_eq!(t1.root, t2.root);

    let mut t3 = PoseidonMerkleTree::new(20);
    t3.update_leaf_from_account(3, &b);
    t3.update_leaf_from_account(3, &a);
    t3.update_leaf_from_account(1000, &b);
    assert_eq!(t3.root, t1.root);
}

#[test]
fn commuted_and_rewritten_trees_give_the_same_proofs() {
    let a = AccountState { balance: 10, nonce: 1, ..Default::default() };
    let b = AccountState { balance: 20, nonce: 2, ..Default::default() };
    let mut t1 = PoseidonMerkleTree::new(8);
    t1.update_leaf_from_account(3, &a);
    t1.update_leaf_from_account(200, &b);
    let mut t2 = PoseidonMerkleTree::new(8);
    t2.update_leaf_from_account(200, &b);
    t2.update_leaf_from_account(3, &a);
    let mut t3 = PoseidonMerkleTree::new(8);
    t3.update_leaf_from_account(3, &b);
    t3.update_leaf_from_account(3, &a);
    t3.update_leaf_from_account(200, &b);
    t3.update_leaf_from_account(200, &b);
    for k in [0u64, 2, 3, 4, 199, 200, 201, 255] {
        assert_eq!(t1.get_proof(k), t2.get_proof(k));
        assert_eq!(t1.get_proof(k), t3.get_proof(k));
    }
    assert_eq!(t1.root, t3.root);
    // Every leaf's proof leads to the root: written leaves and empty ones.
    let written = MerkleProof {
        leaf_index: 3,
        leaf_hash: PoseidonMerkleTree::hash_leaf(&a),
        siblings: t1.get_proof(3),
        root: t1.root,
    };
    assert!(written.verify());
    let empty = MerkleProof {
        leaf_index: 17,
        leaf_hash: PoseidonHash([0u8; 32]),
        siblings: t1.get_proof(17),
        root: t1.root,
    };
    assert!(empty.verify());
}
