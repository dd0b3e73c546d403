use vstd::prelude::*;

use crate::hashes::{KeccakHash, PoseidonHash};
use ark_bn254::Fr;
use ark_ff::{BigInteger, PrimeField};
use light_poseidon::{Poseidon, PoseidonHasher};
use tiny_keccak::{Hasher, Keccak};

verus! {

/// The Keccak-256 digest (the variant Ethereum uses) of a byte string.
pub uninterp spec fn keccak256(data: Seq<u8>) -> [u8; 32];

/// Circom-compatible Poseidon over the BN254 scalar field: each input is read
/// as a big-endian integer reduced modulo the field order, and the output field
/// element is written back as 32 big-endian bytes.
pub uninterp spec fn poseidon_bn254(inputs: Seq<[u8; 32]>) -> [u8; 32];

/// Calls `tiny_keccak::Keccak::v256` (new, `update`, `finalize`) on `data`.
/// Trusted: the 32 output bytes are `keccak256(data)`; nothing more is claimed
/// of the digest.
#[verifier::external_body]
fn keccak256_digest(data: &[u8]) -> (res: [u8; 32])
    ensures
        res == keccak256(data@),
{
    let mut hasher = Keccak::v256();
    let mut output = [0u8; 32];
    hasher.update(data);
    hasher.finalize(&mut output);
    output
}

/// Calls `light_poseidon::Poseidon::<ark_bn254::Fr>::new_circom(n)` and
/// `PoseidonHasher::hash` on the inputs, each converted with
/// `Fr::from_be_bytes_mod_order`, and writes the result with
/// `into_bigint().to_bytes_be()` (always 32 bytes for BN254).
/// Trusted: the result is `poseidon_bn254(inputs)`. `new_circom` fails only for
/// more than 12 inputs and `hash` only when the count differs from the width,
/// neither of which the `requires` admits.
#[verifier::external_body]
pub(crate) fn poseidon_circom_be(inputs: &[[u8; 32]]) -> (res: [u8; 32])
    requires
        1 <= inputs@.len() <= 12,
    ensures
        res == poseidon_bn254(inputs@),
{
    let elems: Vec<Fr> = inputs.iter().map(|b| Fr::from_be_bytes_mod_order(b)).collect();
    let mut hasher = Poseidon::<Fr>::new_circom(elems.len()).unwrap();
    let out = hasher.hash(&elems).unwrap();
    out.into_bigint().to_bytes_be().try_into().unwrap()
}

/// Poseidon of two 32-byte field encodings.
pub open spec fn poseidon2(a: [u8; 32], b: [u8; 32]) -> PoseidonHash {
    PoseidonHash(poseidon_bn254(seq![a, b]))
}

/// Poseidon of three 32-byte field encodings.
pub open spec fn poseidon3(a: [u8; 32], b: [u8; 32], c: [u8; 32]) -> PoseidonHash {
    PoseidonHash(poseidon_bn254(seq![a, b, c]))
}

/// Poseidon of four 32-byte field encodings.
pub open spec fn poseidon4(a: [u8; 32], b: [u8; 32], c: [u8; 32], d: [u8; 32]) -> PoseidonHash {
    PoseidonHash(poseidon_bn254(seq![a, b, c, d]))
}

/// Keccak-256 of `data`.
pub fn calculate_keccak_hash(data: &[u8]) -> (res: KeccakHash)
    ensures
        res == KeccakHash(keccak256(data@)),
{
    KeccakHash(keccak256_digest(data))
}

/// Poseidon hash of a (left, right) pair of nodes.
pub fn poseidon_hash_two(left: &PoseidonHash, right: &PoseidonHash) -> (res: PoseidonHash)
    ensures
        res == poseidon2(left.0, right.0),
{
    let inputs = [left.0, right.0];
    assert(inputs@ =~= seq![left.0, right.0]);
    PoseidonHash(poseidon_circom_be(inputs.as_slice()))
}

/// Poseidon hash of three field encodings.
pub fn poseidon_hash_three(a: &[u8; 32], b: &[u8; 32], c: &[u8; 32]) -> (res: PoseidonHash)
    ensures
        res == poseidon3(*a, *b, *c),
{
    let inputs = [*a, *b, *c];
    assert(inputs@ =~= seq![*a, *b, *c]);
    PoseidonHash(poseidon_circom_be(inputs.as_slice()))
}

/// Poseidon hash of four field encodings.
pub fn poseidon_hash_four(a: &[u8; 32], b: &[u8; 32], c: &[u8; 32], d: &[u8; 32]) -> (res:
    PoseidonHash)
    ensures
        res == poseidon4(*a, *b, *c, *d),
{
    let inputs = [*a, *b, *c, *d];
    assert(inputs@ =~= seq![*a, *b, *c, *d]);
    PoseidonHash(poseidon_circom_be(inputs.as_slice()))
}

/// The L2 address of a public key: Poseidon(pubkey_x, pubkey_y).
pub fn compute_l2_address(pubkey_x: &[u8; 32], pubkey_y: &[u8; 32]) -> (res: PoseidonHash)
    ensures
        res == poseidon2(*pubkey_x, *pubkey_y),
{
    poseidon_hash_two(&PoseidonHash(*pubkey_x), &PoseidonHash(*pubkey_y))
}

/// True when every byte of `b` is zero.
pub open spec fn all_zero(b: [u8; 32]) -> bool {
    forall|i: int| 0 <= i < 32 ==> b[i] == 0
}

pub(crate) fn is_all_zero(b: &[u8; 32]) -> (res: bool)
    ensures
        res == all_zero(*b),
{
    let mut i: usize = 0;
    while i < 32
        invariant
            0 <= i <= 32,
            forall|j: int| 0 <= j < i ==> b[j] == 0,
        decreases 32 - i,
    {
        if b[i] != 0 {
            return false;
        }
        i += 1;
    }
    true
}

/// Placeholder signature check of the sequencer: it accepts exactly the
/// all-zero signature (R8.x, R8.y and S all zero), whatever the message and key.
pub fn verify_eddsa_poseidon(
    _msg: &PoseidonHash,
    sig_r8x: &[u8; 32],
    sig_r8y: &[u8; 32],
    sig_s: &[u8; 32],
    _pub_x: &[u8; 32],
    _pub_y: &[u8; 32],
) -> (res: bool)
    ensures
        res == (all_zero(*sig_r8x) && all_zero(*sig_r8y) && all_zero(*sig_s)),
{
    let is_zero = is_all_zero(sig_r8x) && is_all_zero(sig_r8y) && is_all_zero(sig_s);
    if is_zero {
        return true;
    }
    false
}

} // verus!
