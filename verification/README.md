# eduroll

The off-chain core of a small zk-rollup, verified with Verus: account state
and its Poseidon sparse Merkle tree, batch execution, the Keccak batch tree,
the circuit witness of a batch, the calldata and public inputs posted to L1,
and the EdDSA-Poseidon key scheme of its accounts.

- `src/` — the library, every function with a contract proved by Verus.
  The calls into arkworks, light-poseidon, tiny-keccak, sha2, rand_chacha,
  num-bigint and ethers sit behind small trusted wrappers whose contracts say
  what those crates compute.
- `tests/` — the library's tests.
- `app/` — the services around it (sequencer API and batcher, prover,
  submitter, archiver, account seeding, test client): database, HTTP, L1 and
  process I/O, with serde copies of the library's types.
