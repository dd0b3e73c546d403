use vstd::prelude::*;

verus! {

/// A 32-byte Keccak-256 digest.
#[derive(Debug, Clone, Copy, PartialEq, Eq, Hash, Default)]
pub struct KeccakHash(pub [u8; 32]);

/// A 32-byte big-endian encoding of a BN254 field element produced by Poseidon.
#[derive(Debug, Clone, Copy, PartialEq, Eq, Hash, Default)]
pub struct PoseidonHash(pub [u8; 32]);

/// Byte-wise equality of two 32-byte arrays.
pub fn bytes32_eq(a: &[u8; 32], b: &[u8; 32]) -> (res: bool)
    ensures
        res == (a@ == b@),
{
    let mut i: usize = 0;
    while i < 32
        invariant
            0 <= i <= 32,
            a@.len() == 32,
            b@.len() == 32,
            forall|j: int| 0 <= j < i ==> a@[j] == b@[j],
        decreases 32 - i,
    {
        if a[i] != b[i] {
            return false;
        }
        i += 1;
    }
    assert(a@ =~= b@);
    true
}

} // verus!
