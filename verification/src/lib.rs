//! Off-chain core of a zk-rollup: account state and its Poseidon sparse Merkle
//! tree, batch execution, the Keccak batch tree, the circuit witness of a
//! batch, what is posted to L1, and the EdDSA-Poseidon key scheme.
pub mod account;
pub mod accounts;
pub mod address_map;
pub mod apply;
pub mod batch;
pub mod bytes;
pub mod client;
pub mod crypto_utils;
pub mod hashes;
pub mod keccak_tree;
pub mod keys;
pub mod merkle_proof;
pub mod messages;
pub mod poseidon_sparse;
pub mod prover;
pub mod rows;
pub mod sequencer;
pub mod state;
pub mod submitter;
pub mod text;
pub mod tx;

pub use account::AccountState;
pub use apply::execute_batch;
pub use batch::{Batch, BatchStatus};
pub use hashes::{KeccakHash, PoseidonHash};
pub use keccak_tree::KeccakMerkleTree;
pub use keys::L2Keypair;
pub use merkle_proof::{AccountProofResponse, MerkleProof};
pub use messages::{BatchStatusResponse, SubmitTxResponse};
pub use poseidon_sparse::PoseidonMerkleTree;
pub use state::L2State;
pub use tx::{L2Transaction, L2TransactionStatus};
