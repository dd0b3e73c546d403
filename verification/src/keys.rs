use vstd::prelude::*;

use crate::accounts::{
    chacha_fr, chacha_scalar, ed_generator, ed_mul, ed_mul_be, generator_x,
    generator_y, lemma_generator_on_curve,
};

verus! {

/// A BabyJubjub key pair: secret scalar (32 bytes big-endian) and public point
/// (arkworks affine coordinates).
#[derive(Debug, Clone, Copy)]
pub struct L2Keypair {
    pub secret_key: [u8; 32],
    pub public_key: ([u8; 32], [u8; 32]),
}

impl L2Keypair {
    /// The key pair drawn from a ChaCha20 generator seeded with `seed`: the
    /// first scalar it yields, and that multiple of the generator.
    pub fn from_eth_seed(seed: [u8; 32]) -> (res: Self)
        ensures
            res.secret_key == chacha_scalar(seed@),
            res.public_key == ed_mul(generator_x(), generator_y(), res.secret_key@),
    {
        let sk = chacha_fr(seed);
        let g = ed_generator();
        proof {
            lemma_generator_on_curve();
        }
        let pk = ed_mul_be(&g.0, &g.1, &sk);
        L2Keypair { secret_key: sk, public_key: pk }
    }
}

} // verus!
