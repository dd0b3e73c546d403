use vstd::prelude::*;

use crate::bytes::{
    be_bytes, be_bytes_vec, be_nat, lemma_be_nat_be_bytes, lemma_be_nat_concat, u128_be32,
};
use crate::crypto_utils::{poseidon_bn254, poseidon_circom_be};
use crate::poseidon_sparse::be32;
use crate::rows::arr32;
use ark_bn254::Fr as Fq;
use ark_ec::{CurveGroup, Group};
use ark_ed_on_bn254::{EdwardsAffine, EdwardsProjective, Fr};
use ark_ff::{BigInteger, Field, PrimeField};
use ark_std::UniformRand;
use rand::SeedableRng;
use rand_chacha::ChaCha20Rng;
use sha2::{Digest, Sha256};
use vstd::arithmetic::div_mod::lemma_small_mod;
use vstd::arithmetic::power::pow;

verus! {

/// Order of the BN254 scalar field, the base field of BabyJubjub.
pub open spec fn q_order() -> nat {
    21888242871839275222246405745257275088548364400416034343698204186575808495617nat
}

/// Order of BabyJubjub's prime subgroup, the field of secret scalars.
pub open spec fn l_order() -> nat {
    2736030358979909402780800718157159386076813972158567259200215660948447373041nat
}

/// The twisted Edwards `d` of arkworks' BabyJubjub model (`a = 1`):
/// 168696/168700 modulo `q`.
pub open spec fn ark_coeff_d() -> nat {
    9706598848417545097372247223557719406784115219466060233080913168975159366771nat
}

/// The number that a little-endian byte string denotes.
pub open spec fn le_nat(s: Seq<u8>) -> nat
    decreases s.len(),
{
    if s.len() == 0 {
        0
    } else {
        s[0] as nat + 256 * le_nat(s.drop_first())
    }
}

/// The 32-byte big-endian encoding of `n` reduced modulo `q`.
pub open spec fn fq_elem(n: nat) -> Seq<u8> {
    be_bytes(n % q_order(), 32)
}

/// The product of two base-field elements (as big-endian bytes).
pub open spec fn fq_mul(a: Seq<u8>, b: Seq<u8>) -> Seq<u8> {
    fq_elem(be_nat(a) * be_nat(b))
}

/// The 32-byte big-endian encoding of `n` reduced modulo `l`.
pub open spec fn fr_elem(n: nat) -> Seq<u8> {
    be_bytes(n % l_order(), 32)
}

/// The product of two scalars (as big-endian bytes).
pub open spec fn fr_mul(a: Seq<u8>, b: Seq<u8>) -> Seq<u8> {
    fr_elem(be_nat(a) * be_nat(b))
}

/// The sum of two scalars (as big-endian bytes).
pub open spec fn fr_add(a: Seq<u8>, b: Seq<u8>) -> Seq<u8> {
    fr_elem(be_nat(a) + be_nat(b))
}

/// Whether the point (x, y), coordinates read as big-endian integers modulo
/// `q`, satisfies arkworks' curve equation `y^2 + x^2 = 1 + d x^2 y^2`.
pub open spec fn on_curve(x: Seq<u8>, y: Seq<u8>) -> bool {
    let xv = be_nat(x) % q_order();
    let yv = be_nat(y) % q_order();
    (yv * yv + xv * xv) % q_order() == (1 + ark_coeff_d() * ((xv * xv) * (yv * yv))) % q_order()
}

/// Whether the point (x, y), coordinates read as big-endian integers modulo
/// `q`, satisfies circomlib's curve equation `168700 x^2 + y^2 = 1 + 168696 x^2 y^2`.
pub open spec fn on_circom_curve(x: Seq<u8>, y: Seq<u8>) -> bool {
    let xv = be_nat(x) % q_order();
    let yv = be_nat(y) % q_order();
    (168700 * (xv * xv) + yv * yv) % q_order() == (1 + 168696 * ((xv * xv) * (yv * yv)))
        % q_order()
}

/// SHA-256 of a byte string.
pub uninterp spec fn sha256(data: Seq<u8>) -> [u8; 32];

/// The square root in the base field that arkworks' `Field::sqrt` returns for
/// the element with these big-endian bytes, if there is one.
pub uninterp spec fn fq_sqrt(a: Seq<u8>) -> Option<[u8; 32]>;

/// The inverse in the base field that arkworks' `Field::inverse` returns.
pub uninterp spec fn fq_inverse(a: Seq<u8>) -> Option<[u8; 32]>;

/// The inverse in the scalar field that arkworks' `Field::inverse` returns.
pub uninterp spec fn fr_inverse(a: Seq<u8>) -> Option<[u8; 32]>;

/// The affine coordinates of `k` times the point (x, y) on arkworks'
/// BabyJubjub.
pub uninterp spec fn ed_mul(x: Seq<u8>, y: Seq<u8>, k: Seq<u8>) -> ([u8; 32], [u8; 32]);

/// The affine coordinates of the sum of two points on arkworks' BabyJubjub.
pub uninterp spec fn ed_add(x1: Seq<u8>, y1: Seq<u8>, x2: Seq<u8>, y2: Seq<u8>) -> (
    [u8; 32],
    [u8; 32],
);

/// The scalar `Fr::rand` draws first from a ChaCha20 generator seeded with
/// these 32 bytes.
pub uninterp spec fn chacha_scalar(seed: Seq<u8>) -> [u8; 32];

/// Whether some base-field element squares to the element with these bytes.
pub open spec fn is_fq_square(a: Seq<u8>) -> bool {
    exists|r: nat| r < q_order() && #[trigger] fq_square(r) == be_nat(a) % q_order()
}

/// The square of `r` in the base field.
pub open spec fn fq_square(r: nat) -> nat {
    (r * r) % q_order()
}

/// Calls `sha2::Sha256` (`new`, `update`, `finalize`) on `data`. Trusted: the
/// digest is `sha256(data)`.
#[verifier::external_body]
pub(crate) fn sha256_digest(data: &[u8]) -> (res: [u8; 32])
    ensures
        res == sha256(data@),
{
    let mut h = Sha256::new();
    h.update(data);
    h.finalize().into()
}

/// Calls `Fq::from_be_bytes_mod_order` and writes the element back as 32
/// big-endian bytes. Trusted: arkworks documents that the integer is reduced
/// modulo the field order.
#[verifier::external_body]
pub(crate) fn fq_reduce(bytes: &[u8; 32]) -> (res: [u8; 32])
    ensures
        res@ == fq_elem(be_nat(bytes@)),
{
    Fq::from_be_bytes_mod_order(bytes).into_bigint().to_bytes_be().try_into().unwrap()
}

/// Calls `Mul` on two `Fq` elements read with `from_be_bytes_mod_order`.
/// Trusted: field multiplication is multiplication modulo the field order.
#[verifier::external_body]
pub(crate) fn fq_mul_be(a: &[u8; 32], b: &[u8; 32]) -> (res: [u8; 32])
    ensures
        res@ == fq_mul(a@, b@),
{
    (Fq::from_be_bytes_mod_order(a) * Fq::from_be_bytes_mod_order(b)).into_bigint().to_bytes_be().try_into().unwrap()
}

/// Calls `Field::sqrt` on an `Fq` element. Trusted: arkworks documents that it
/// returns a square root when one exists and `None` otherwise; which of the
/// two roots comes back is left to the name `fq_sqrt`.
#[verifier::external_body]
fn fq_sqrt_be(a: &[u8; 32]) -> (res: Option<[u8; 32]>)
    ensures
        res == fq_sqrt(a@),
        res is Some <==> is_fq_square(a@),
        res is Some ==> be_nat(res->Some_0@) < q_order() && (be_nat(res->Some_0@) * be_nat(
            res->Some_0@,
        )) % q_order() == be_nat(a@) % q_order(),
{
    match Fq::from_be_bytes_mod_order(a).sqrt() {
        Some(r) => Some(r.into_bigint().to_bytes_be().try_into().unwrap()),
        None => None,
    }
}

/// Calls `Field::inverse` on an `Fq` element. Trusted: `None` exactly for zero,
/// otherwise the element whose product with the input is one.
#[verifier::external_body]
fn fq_inverse_be(a: &[u8; 32]) -> (res: Option<[u8; 32]>)
    ensures
        res == fq_inverse(a@),
        res is None <==> be_nat(a@) % q_order() == 0,
        res is Some ==> be_nat(res->Some_0@) < q_order() && (be_nat(res->Some_0@) * be_nat(a@))
            % q_order() == 1,
{
    match Fq::from_be_bytes_mod_order(a).inverse() {
        Some(r) => Some(r.into_bigint().to_bytes_be().try_into().unwrap()),
        None => None,
    }
}

/// Calls `Fr::from_le_bytes_mod_order` and writes the scalar as 32 big-endian
/// bytes. Trusted: the little-endian integer is reduced modulo the order.
#[verifier::external_body]
pub(crate) fn fr_from_le(bytes: &[u8]) -> (res: [u8; 32])
    ensures
        res@ == fr_elem(le_nat(bytes@)),
{
    Fr::from_le_bytes_mod_order(bytes).into_bigint().to_bytes_be().try_into().unwrap()
}

/// Calls `Fr::from_be_bytes_mod_order` and writes the scalar back. Trusted:
/// the big-endian integer is reduced modulo the order.
#[verifier::external_body]
pub(crate) fn fr_reduce(bytes: &[u8; 32]) -> (res: [u8; 32])
    ensures
        res@ == fr_elem(be_nat(bytes@)),
{
    Fr::from_be_bytes_mod_order(bytes).into_bigint().to_bytes_be().try_into().unwrap()
}

/// Calls `Mul` on two `Fr` scalars. Trusted: multiplication modulo the order.
#[verifier::external_body]
pub(crate) fn fr_mul_be(a: &[u8; 32], b: &[u8; 32]) -> (res: [u8; 32])
    ensures
        res@ == fr_mul(a@, b@),
{
    (Fr::from_be_bytes_mod_order(a) * Fr::from_be_bytes_mod_order(b)).into_bigint().to_bytes_be().try_into().unwrap()
}

/// Calls `Add` on two `Fr` scalars. Trusted: addition modulo the order.
#[verifier::external_body]
pub(crate) fn fr_add_be(a: &[u8; 32], b: &[u8; 32]) -> (res: [u8; 32])
    ensures
        res@ == fr_add(a@, b@),
{
    (Fr::from_be_bytes_mod_order(a) + Fr::from_be_bytes_mod_order(b)).into_bigint().to_bytes_be().try_into().unwrap()
}

/// Calls `Field::inverse` on an `Fr` scalar. Trusted: `None` exactly for zero,
/// otherwise the scalar whose product with the input is one.
#[verifier::external_body]
fn fr_inverse_be(a: &[u8; 32]) -> (res: Option<[u8; 32]>)
    ensures
        res == fr_inverse(a@),
        res is None <==> be_nat(a@) % l_order() == 0,
        res is Some ==> be_nat(res->Some_0@) < l_order() && (be_nat(res->Some_0@) * be_nat(a@))
            % l_order() == 1,
{
    match Fr::from_be_bytes_mod_order(a).inverse() {
        Some(r) => Some(r.into_bigint().to_bytes_be().try_into().unwrap()),
        None => None,
    }
}

/// Calls `EdwardsAffine::is_on_curve` on the point with these coordinates
/// (read with `from_be_bytes_mod_order`, built with `new_unchecked`).
/// Trusted: it checks `y^2 + a x^2 == 1 + d x^2 y^2` with arkworks' `a = 1`
/// and `d`, which is `on_curve`.
#[verifier::external_body]
pub(crate) fn ed_is_on_curve(x: &[u8; 32], y: &[u8; 32]) -> (res: bool)
    ensures
        res == on_curve(x@, y@),
{
    EdwardsAffine::new_unchecked(Fq::from_be_bytes_mod_order(x), Fq::from_be_bytes_mod_order(y)).is_on_curve()
}

/// Calls `Mul<Fr>` on the point (x, y) (built with `new_unchecked`) and
/// `into_affine`. Trusted: the result is named `ed_mul`; for a point on the
/// curve the group law keeps it on the curve (BabyJubjub's addition is
/// complete, so the affine conversion never divides by zero).
#[verifier::external_body]
pub(crate) fn ed_mul_be(x: &[u8; 32], y: &[u8; 32], k: &[u8; 32]) -> (res: ([u8; 32], [u8; 32]))
    requires
        on_curve(x@, y@),
    ensures
        res == ed_mul(x@, y@, k@),
        on_curve(res.0@, res.1@),
{
    let p = EdwardsAffine::new_unchecked(Fq::from_be_bytes_mod_order(x), Fq::from_be_bytes_mod_order(y));
    let r = (p * Fr::from_be_bytes_mod_order(k)).into_affine();
    (r.x.into_bigint().to_bytes_be().try_into().unwrap(), r.y.into_bigint().to_bytes_be().try_into().unwrap())
}

/// Calls `Add` on two points (built with `new_unchecked`, added in projective
/// form) and `into_affine`. Trusted: the result is named `ed_add`; the sum of
/// two points on the curve is on the curve.
#[verifier::external_body]
pub(crate) fn ed_add_be(x1: &[u8; 32], y1: &[u8; 32], x2: &[u8; 32], y2: &[u8; 32]) -> (res: (
    [u8; 32],
    [u8; 32],
))
    requires
        on_curve(x1@, y1@),
        on_curve(x2@, y2@),
    ensures
        res == ed_add(x1@, y1@, x2@, y2@),
        on_curve(res.0@, res.1@),
{
    let p = EdwardsAffine::new_unchecked(Fq::from_be_bytes_mod_order(x1), Fq::from_be_bytes_mod_order(y1));
    let q = EdwardsAffine::new_unchecked(Fq::from_be_bytes_mod_order(x2), Fq::from_be_bytes_mod_order(y2));
    let r = (EdwardsProjective::from(p) + EdwardsProjective::from(q)).into_affine();
    (r.x.into_bigint().to_bytes_be().try_into().unwrap(), r.y.into_bigint().to_bytes_be().try_into().unwrap())
}

/// The 32 big-endian bytes of the number `hi * 2^128 + lo`.
pub open spec fn bytes_of_halves(hi: u128, lo: u128) -> Seq<u8> {
    be_bytes(hi as nat, 16) + be_bytes(lo as nat, 16)
}

/// The big-endian bytes of arkworks' BabyJubjub generator x-coordinate
/// (19698561148652590122159747500897617769866003486955115824547446575314762165298).
pub open spec fn generator_x() -> Seq<u8> {
    bytes_of_halves(0x2b8cfd91b905cae31d41e7dedf4a927e, 0xe3bc429aad7e344d59d2810d82876c32)
}

/// The big-endian bytes of arkworks' BabyJubjub generator y-coordinate
/// (19298250018296453272277890825869354524455968081175474282777126169995084727839).
pub open spec fn generator_y() -> Seq<u8> {
    bytes_of_halves(0x2aaa6c24a758209e90aced1f10277b76, 0x2a7c1115dbc0e16ac276fc2c671a861f)
}

/// Calls `EdwardsProjective::generator()` and `into_affine`. Trusted: the
/// crate's source fixes the generator to `GENERATOR_X`, `GENERATOR_Y`.
#[verifier::external_body]
pub(crate) fn ed_generator() -> (res: ([u8; 32], [u8; 32]))
    ensures
        res.0@ == generator_x(),
        res.1@ == generator_y(),
{
    let g = EdwardsProjective::generator().into_affine();
    (g.x.into_bigint().to_bytes_be().try_into().unwrap(), g.y.into_bigint().to_bytes_be().try_into().unwrap())
}

/// Calls `ChaCha20Rng::from_seed` and `Fr::rand` on the generator. Trusted:
/// a seeded ChaCha20 stream is fixed by its seed, so the scalar is named
/// `chacha_scalar(seed)`; it is below the order.
#[verifier::external_body]
pub(crate) fn chacha_fr(seed: [u8; 32]) -> (res: [u8; 32])
    ensures
        res == chacha_scalar(seed@),
        be_nat(res@) < l_order(),
{
    let mut rng = ChaCha20Rng::from_seed(seed);
    Fr::rand(&mut rng).into_bigint().to_bytes_be().try_into().unwrap()
}

/// 2^256, as `pow(256, 32)`.
proof fn lemma_pow256_32()
    ensures
        pow(256, 16) == 0x1_0000_0000_0000_0000_0000_0000_0000_0000nat,
        pow(256, 32) == 0x1_0000_0000_0000_0000_0000_0000_0000_0000_0000_0000_0000_0000_0000_0000_0000_0000nat,
        q_order() < pow(256, 32),
{
    vstd::arithmetic::power::lemma_pow1(256);
    vstd::arithmetic::power::lemma_pow_adds(256, 1, 1);
    assert(pow(256, 2) == 0x1_0000nat);
    vstd::arithmetic::power::lemma_pow_adds(256, 2, 2);
    assert(pow(256, 4) == 0x1_0000_0000nat);
    vstd::arithmetic::power::lemma_pow_adds(256, 4, 4);
    assert(pow(256, 8) == 0x1_0000_0000_0000_0000nat);
    vstd::arithmetic::power::lemma_pow_adds(256, 8, 8);
    assert(pow(256, 16) == 0x1_0000_0000_0000_0000_0000_0000_0000_0000nat);
    vstd::arithmetic::power::lemma_pow_adds(256, 16, 16);
}

/// A base-field element read back from its 32-byte writing.
proof fn lemma_be32_value(n: nat)
    requires
        n < q_order(),
    ensures
        be_nat(be_bytes(n, 32)) == n,
{
    lemma_pow256_32();
    lemma_be_nat_be_bytes(n, 32);
    lemma_small_mod(n, pow(256, 32) as nat);
}

/// The x-coordinate of circomlib's BASE8, big-endian
/// (5299619240641551281634865583518297030282874472190772894086521144482721001553).
pub open spec fn circom_base8_x() -> Seq<u8> {
    bytes_of_halves(0x0bb77a6ad63e739b4eacb2e09d6277c1, 0x2ab8d8010534e0b62893f3f6bb957051)
}

/// The y-coordinate of circomlib's BASE8, big-endian
/// (16950150798460657717958625567821834550301663161624707787222815936182638968203).
pub open spec fn circom_base8_y() -> Seq<u8> {
    bytes_of_halves(0x25797203f7a0b24925572e1cd16bf9ed, 0xfce0051fb9e133774b3c257a872d7d8b)
}

proof fn lemma_halves_value(hi: u128, lo: u128)
    ensures
        be_nat(bytes_of_halves(hi, lo)) == hi as nat * 0x1_0000_0000_0000_0000_0000_0000_0000_0000nat + lo as nat,
{
    lemma_pow256_32();
    lemma_be_nat_concat(be_bytes(hi as nat, 16), be_bytes(lo as nat, 16));
    lemma_be_nat_be_bytes(hi as nat, 16);
    lemma_be_nat_be_bytes(lo as nat, 16);
    lemma_small_mod(hi as nat, pow(256, 16) as nat);
    lemma_small_mod(lo as nat, pow(256, 16) as nat);
}

fn halves_to_bytes(hi: u128, lo: u128) -> (res: [u8; 32])
    ensures
        res@ == bytes_of_halves(hi, lo),
{
    let a = be_bytes_vec(hi, 16);
    let b = be_bytes_vec(lo, 16);
    let mut out = [0u8; 32];
    let mut i: usize = 0;
    while i < 16
        invariant
            0 <= i <= 16,
            a@.len() == 16,
            b@.len() == 16,
            out@.len() == 32,
            forall|j: int| 0 <= j < i ==> out@[j] == a@[j],
            forall|j: int| 0 <= j < i ==> out@[16 + j] == b@[j],
        decreases 16 - i,
    {
        out[i] = a[i];
        out[16 + i] = b[i];
        i += 1;
    }
    assert(out@ =~= a@ + b@);
    out
}

/// circomlib's curve coefficient `a = 168700`, as a field element.
pub open spec fn curve_a() -> Seq<u8> {
    be_bytes(168700, 32)
}

/// Whether circomlib's `a` has a square root in the base field.
pub open spec fn curve_a_is_square() -> bool {
    is_fq_square(curve_a())
}

/// The square root of `a` that arkworks returns: it maps circomlib's
/// coordinates (`a = 168700`) to arkworks' (`a = 1`) by `x -> x * sqrt(a)`.
pub open spec fn sqrt_a_value() -> [u8; 32] {
    fq_sqrt(curve_a())->Some_0
}

/// The inverse of `sqrt_a`, mapping arkworks' coordinates back to circomlib's.
pub open spec fn sqrt_a_inv_value() -> [u8; 32] {
    fq_inverse(sqrt_a_value()@)->Some_0
}

/// BASE8 in arkworks' coordinates.
pub open spec fn base8_x() -> Seq<u8> {
    fq_mul(circom_base8_x(), sqrt_a_value()@)
}

/// BASE8's y-coordinate, the same in both models.
pub open spec fn base8_y() -> Seq<u8> {
    circom_base8_y()
}

/// The inverse of the cofactor 8 among scalars.
pub open spec fn inv8() -> [u8; 32] {
    fr_inverse(be_bytes(8, 32))->Some_0
}

/// The base point of secret keys: BASE8 divided by the cofactor.
pub open spec fn base_point() -> ([u8; 32], [u8; 32]) {
    ed_mul(base8_x(), base8_y(), inv8()@)
}

proof fn lemma_base8_on_curve(sa: Seq<u8>)
    requires
        be_nat(sa) < q_order(),
        (be_nat(sa) * be_nat(sa)) % q_order() == 168700,
    ensures
        on_curve(fq_mul(circom_base8_x(), sa), circom_base8_y()),
{
    let q = q_order() as int;
    let d = ark_coeff_d() as int;
    lemma_halves_value(0x0bb77a6ad63e739b4eacb2e09d6277c1, 0x2ab8d8010534e0b62893f3f6bb957051);
    lemma_halves_value(0x25797203f7a0b24925572e1cd16bf9ed, 0xfce0051fb9e133774b3c257a872d7d8b);
    let xc = be_nat(circom_base8_x()) as int;
    let yc = be_nat(circom_base8_y()) as int;
    assert(xc == 5299619240641551281634865583518297030282874472190772894086521144482721001553int);
    assert(yc == 16950150798460657717958625567821834550301663161624707787222815936182638968203int);
    let r = be_nat(sa) as int;
    let xx = xc * xc;
    let yy = yc * yc;
    let c = xx * 168700;
    assert((yy + c) % q == (1 + 168696 * (xx * yy)) % q) by (nonlinear_arith)
        requires
            xc == 5299619240641551281634865583518297030282874472190772894086521144482721001553int,
            yc == 16950150798460657717958625567821834550301663161624707787222815936182638968203int,
            q == 21888242871839275222246405745257275088548364400416034343698204186575808495617int,
            xx == xc * xc,
            yy == yc * yc,
            c == xx * 168700,
    ;
    assert((d * 168700) % q == 168696) by (nonlinear_arith)
        requires
            q == 21888242871839275222246405745257275088548364400416034343698204186575808495617int,
            d == 9706598848417545097372247223557719406784115219466060233080913168975159366771int,
    ;
    let t = (xc * r) % q;
    lemma_be32_value(t as nat);
    assert(be_nat(fq_mul(circom_base8_x(), sa)) == t);
    lemma_small_mod(t as nat, q as nat);
    lemma_small_mod(yc as nat, q as nat);
    vstd::arithmetic::div_mod::lemma_mul_mod_noop(xc * r, xc * r, q);
    assert((xc * r) * (xc * r) == xx * (r * r)) by (nonlinear_arith)
        requires
            xx == xc * xc,
    ;
    vstd::arithmetic::div_mod::lemma_mul_mod_noop_right(xx, r * r, q);
    assert((t * t) % q == c % q);
    vstd::arithmetic::div_mod::lemma_add_mod_noop_right(yy, t * t, q);
    vstd::arithmetic::div_mod::lemma_add_mod_noop_right(yy, c, q);
    let u = (t * t) * yy;
    vstd::arithmetic::div_mod::lemma_mul_mod_noop_left(t * t, yy, q);
    vstd::arithmetic::div_mod::lemma_mul_mod_noop_left(c, yy, q);
    assert(u % q == (c * yy) % q);
    vstd::arithmetic::div_mod::lemma_mul_mod_noop_right(d, u, q);
    vstd::arithmetic::div_mod::lemma_mul_mod_noop_right(d, c * yy, q);
    assert(d * (c * yy) == (d * 168700) * (xx * yy)) by (nonlinear_arith)
        requires
            c == xx * 168700,
    ;
    vstd::arithmetic::div_mod::lemma_mul_mod_noop_left(d * 168700, xx * yy, q);
    assert((d * (c * yy)) % q == (168696 * (xx * yy)) % q);
    vstd::arithmetic::div_mod::lemma_add_mod_noop_right(1, d * u, q);
    vstd::arithmetic::div_mod::lemma_add_mod_noop_right(1, 168696 * (xx * yy), q);
}

pub(crate) proof fn lemma_generator_on_curve()
    ensures
        on_curve(generator_x(), generator_y()),
{
    let q = q_order() as int;
    let d = ark_coeff_d() as int;
    lemma_halves_value(0x2b8cfd91b905cae31d41e7dedf4a927e, 0xe3bc429aad7e344d59d2810d82876c32);
    lemma_halves_value(0x2aaa6c24a758209e90aced1f10277b76, 0x2a7c1115dbc0e16ac276fc2c671a861f);
    let gx = be_nat(generator_x()) as int;
    let gy = be_nat(generator_y()) as int;
    assert(gx == 19698561148652590122159747500897617769866003486955115824547446575314762165298int);
    assert(gy == 19298250018296453272277890825869354524455968081175474282777126169995084727839int);
    lemma_small_mod(gx as nat, q as nat);
    lemma_small_mod(gy as nat, q as nat);
    assert((gy * gy + gx * gx) % q == (1 + d * ((gx * gx) * (gy * gy))) % q) by (nonlinear_arith)
        requires
            gx == 19698561148652590122159747500897617769866003486955115824547446575314762165298int,
            gy == 19298250018296453272277890825869354524455968081175474282777126169995084727839int,
            q == 21888242871839275222246405745257275088548364400416034343698204186575808495617int,
            d == 9706598848417545097372247223557719406784115219466060233080913168975159366771int,
    ;
}

proof fn lemma_cong_mul(a: int, b: int, c: int, q: int)
    requires
        q > 0,
        a % q == b % q,
    ensures
        (a * c) % q == (b * c) % q,
{
    vstd::arithmetic::div_mod::lemma_mul_mod_noop_left(a, c, q);
    vstd::arithmetic::div_mod::lemma_mul_mod_noop_left(b, c, q);
}

proof fn lemma_cong_add(a: int, b: int, c: int, q: int)
    requires
        q > 0,
        a % q == b % q,
    ensures
        (a + c) % q == (b + c) % q,
{
    vstd::arithmetic::div_mod::lemma_add_mod_noop(a, c, q);
    vstd::arithmetic::div_mod::lemma_add_mod_noop(b, c, q);
}

/// A point on arkworks' curve, its x-coordinate divided by a square root of
/// 168700, lies on circomlib's curve.
proof fn lemma_circom_from_ark(big_x: int, big_y: int, s: int, v: int)
    requires
        0 <= big_x < q_order(),
        0 <= big_y < q_order(),
        (s * s) % (q_order() as int) == 168700,
        (v * s) % (q_order() as int) == 1,
        (big_y * big_y + big_x * big_x) % (q_order() as int) == (1 + ark_coeff_d() * ((big_x
            * big_x) * (big_y * big_y))) % (q_order() as int),
    ensures
        ({
            let q = q_order() as int;
            let xc = (big_x * v) % q;
            (168700 * (xc * xc) + big_y * big_y) % q == (1 + 168696 * ((xc * xc) * (big_y
                * big_y))) % q
        }),
{
    let q = q_order() as int;
    let d = ark_coeff_d() as int;
    let xc = (big_x * v) % q;
    let xx = big_x * big_x;
    let yy = big_y * big_y;
    // 168700 v^2 = (s v)^2 = 1
    vstd::arithmetic::div_mod::lemma_mul_mod_noop(v * s, v * s, q);
    assert((v * s) * (v * s) == (s * s) * (v * v)) by (nonlinear_arith);
    lemma_small_mod(168700, q as nat);
    lemma_cong_mul(s * s, 168700, v * v, q);
    assert((168700 * (v * v)) % q == 1);
    // xc^2 = x^2 v^2
    vstd::arithmetic::div_mod::lemma_mul_mod_noop(big_x * v, big_x * v, q);
    assert((big_x * v) * (big_x * v) == xx * (v * v)) by (nonlinear_arith)
        requires
            xx == big_x * big_x,
    ;
    assert((xc * xc) % q == (xx * (v * v)) % q);
    // 168700 xc^2 = x^2
    vstd::arithmetic::div_mod::lemma_mul_mod_noop_right(168700, xc * xc, q);
    vstd::arithmetic::div_mod::lemma_mul_mod_noop_right(168700, xx * (v * v), q);
    assert(168700 * (xx * (v * v)) == xx * (168700 * (v * v))) by (nonlinear_arith);
    vstd::arithmetic::div_mod::lemma_mul_mod_noop_right(xx, 168700 * (v * v), q);
    let cx = 168700 * (xc * xc);
    assert(cx % q == xx % q);
    // 168696 = d 168700
    assert((d * 168700) % q == 168696) by (nonlinear_arith)
        requires
            q == 21888242871839275222246405745257275088548364400416034343698204186575808495617int,
            d == 9706598848417545097372247223557719406784115219466060233080913168975159366771int,
    ;
    lemma_cong_mul(d * 168700, 168696, (xc * xc) * yy, q);
    assert((d * 168700) * ((xc * xc) * yy) == d * (cx * yy)) by (nonlinear_arith)
        requires
            cx == 168700 * (xc * xc),
    ;
    lemma_cong_mul(cx, xx, yy, q);
    vstd::arithmetic::div_mod::lemma_mul_mod_noop_right(d, cx * yy, q);
    vstd::arithmetic::div_mod::lemma_mul_mod_noop_right(d, xx * yy, q);
    assert((168696 * ((xc * xc) * yy)) % q == (d * (xx * yy)) % q);
    // combine
    lemma_cong_add(cx, xx, yy, q);
    lemma_cong_add(168696 * ((xc * xc) * yy), d * (xx * yy), 1, q);
    assert(yy + xx == xx + yy);
}

fn curve_a_exec() -> (res: [u8; 32])
    ensures
        res@ == curve_a(),
{
    u128_be32(168700)
}

/// circomlib's `a = 168700` is a square in the base field: 7214280148105020021932206872019688659210616427216992810330019057549499971851
/// squares to it.
pub proof fn lemma_curve_a_is_square()
    ensures
        curve_a_is_square(),
{
    lemma_be32_value(168700);
    let r: nat = 7214280148105020021932206872019688659210616427216992810330019057549499971851nat;
    assert((r * r) % q_order() == 168700) by (nonlinear_arith)
        requires
            r == 7214280148105020021932206872019688659210616427216992810330019057549499971851nat,
            q_order() == 21888242871839275222246405745257275088548364400416034343698204186575808495617nat,
    ;
    lemma_small_mod(168700, q_order());
    assert(fq_square(r) == be_nat(curve_a()) % q_order());
}

/// The square root of circomlib's `a` that arkworks returns, as 32 big-endian
/// bytes.
pub fn sqrt_a() -> (res: [u8; 32])
    ensures
        res == sqrt_a_value(),
        be_nat(res@) < q_order(),
        (be_nat(res@) * be_nat(res@)) % q_order() == 168700,
{
    let a = curve_a_exec();
    proof {
        lemma_be32_value(168700);
        lemma_curve_a_is_square();
    }
    match fq_sqrt_be(&a) {
        Some(r) => r,
        None => {
            proof {
                assert(false);
            }
            [0u8; 32]
        },
    }
}

/// The inverse of `sqrt_a`, as 32 big-endian bytes.
pub fn sqrt_a_inv() -> (res: [u8; 32])
    ensures
        res == sqrt_a_inv_value(),
        be_nat(res@) < q_order(),
        (be_nat(res@) * be_nat(sqrt_a_value()@)) % q_order() == 1,
        (be_nat(sqrt_a_value()@) * be_nat(sqrt_a_value()@)) % q_order() == 168700,
{
    let sa = sqrt_a();
    proof {
        lemma_small_mod(be_nat(sa@), q_order());
        if be_nat(sa@) == 0 {
            assert(be_nat(sa@) * be_nat(sa@) == 0);
        }
    }
    match fq_inverse_be(&sa) {
        Some(r) => r,
        None => {
            proof {
                assert(false);
            }
            [0u8; 32]
        },
    }
}

/// circomlib's BASE8 in arkworks' coordinates (x times `sqrt(a)`).
pub fn b8_circomlib() -> (res: ([u8; 32], [u8; 32]))
    ensures
        res.0@ == base8_x(),
        res.1@ == base8_y(),
        on_curve(res.0@, res.1@),
{
    let x_c = halves_to_bytes(0x0bb77a6ad63e739b4eacb2e09d6277c1, 0x2ab8d8010534e0b62893f3f6bb957051);
    let y_c = halves_to_bytes(0x25797203f7a0b24925572e1cd16bf9ed, 0xfce0051fb9e133774b3c257a872d7d8b);
    let sa = sqrt_a();
    let x = fq_mul_be(&x_c, &sa);
    proof {
        lemma_base8_on_curve(sa@);
    }
    (x, y_c)
}

/// The base point of secret keys: BASE8 times the inverse of the cofactor.
pub fn b_circomlib() -> (res: ([u8; 32], [u8; 32]))
    ensures
        res == base_point(),
        on_curve(res.0@, res.1@),
{
    let b8 = b8_circomlib();
    let eight = u128_be32(8);
    proof {
        lemma_be32_value(8);
    }
    let eight_inv = match fr_inverse_be(&eight) {
        Some(v) => v,
        None => {
            proof {
                assert(false);
            }
            [0u8; 32]
        },
    };
    ed_mul_be(&b8.0, &b8.1, &eight_inv)
}

/// A test account of the key scheme: index, owner, secret seed and scalar,
/// public key (in arkworks' and in circomlib's coordinates) and L2 address.
#[derive(Debug, Clone, Copy)]
pub struct Account {
    pub index: u32,
    pub owner_address: [u8; 20],
    pub priv_seed: [u8; 32],
    pub priv_scalar: [u8; 32],
    pub pubkey: ([u8; 32], [u8; 32]),
    pub pubkey_x: [u8; 32],
    pub pubkey_y: [u8; 32],
    pub l2_address: [u8; 32],
}

/// The ASCII bytes of "eduroll-account-v1".
pub open spec fn account_tag() -> Seq<u8> {
    seq![0x65u8, 0x64, 0x75, 0x72, 0x6f, 0x6c, 0x6c, 0x2d, 0x61, 0x63, 0x63, 0x6f, 0x75, 0x6e, 0x74, 0x2d, 0x76, 0x31]
}

/// The ASCII bytes of "eduroll-scalar-v1".
pub open spec fn scalar_tag() -> Seq<u8> {
    seq![0x65u8, 0x64, 0x75, 0x72, 0x6f, 0x6c, 0x6c, 0x2d, 0x73, 0x63, 0x61, 0x6c, 0x61, 0x72, 0x2d, 0x76, 0x31]
}

/// The ASCII bytes of "eduroll-eddsa-nonce-v1".
pub open spec fn nonce_tag() -> Seq<u8> {
    seq![0x65u8, 0x64, 0x75, 0x72, 0x6f, 0x6c, 0x6c, 0x2d, 0x65, 0x64, 0x64, 0x73, 0x61, 0x2d, 0x6e, 0x6f, 0x6e, 0x63, 0x65, 0x2d, 0x76, 0x31]
}

/// The Poseidon hash of a public key: the L2 address.
pub open spec fn l2_address_of(pubkey_x: [u8; 32], pubkey_y: [u8; 32]) -> [u8; 32] {
    poseidon_bn254(seq![pubkey_x, pubkey_y])
}

/// What account `index` is: its seed is SHA-256 of the account tag and the
/// big-endian index; its scalar is SHA-256 of the scalar tag and the seed,
/// read little-endian modulo `l`; its key is that multiple of the base point,
/// its circomlib x-coordinate the arkworks one times `1/sqrt(a)`; its L2
/// address the Poseidon hash of the key; its owner the last 20 address bytes.
/// The key lies on the curve, in either model.
pub open spec fn is_account(a: Account, index: u32) -> bool {
    &&& a.index == index
    &&& a.priv_seed == sha256(account_tag() + be_bytes(index as nat, 4))
    &&& a.priv_scalar@ == fr_elem(le_nat(sha256(scalar_tag() + a.priv_seed@)@))
    &&& a.pubkey == ed_mul(base_point().0@, base_point().1@, a.priv_scalar@)
    &&& on_curve(a.pubkey.0@, a.pubkey.1@)
    &&& a.pubkey_x@ == fq_mul(a.pubkey.0@, sqrt_a_inv_value()@)
    &&& a.pubkey_y == a.pubkey.1
    &&& on_circom_curve(a.pubkey_x@, a.pubkey_y@)
    &&& a.l2_address == l2_address_of(a.pubkey_x, a.pubkey_y)
    &&& a.owner_address@ == a.l2_address@.subrange(12, 32)
}

pub(crate) fn concat(a: &[u8], b: &[u8]) -> (res: Vec<u8>)
    ensures
        res@ == a@ + b@,
{
    let mut out: Vec<u8> = Vec::new();
    let mut i: usize = 0;
    while i < a.len()
        invariant
            0 <= i <= a@.len(),
            out@ == a@.subrange(0, i as int),
        decreases a@.len() - i,
    {
        out.push(a[i]);
        i += 1;
        assert(a@.subrange(0, i as int) =~= a@.subrange(0, i - 1).push(a@[i - 1]));
    }
    let mut j: usize = 0;
    while j < b.len()
        invariant
            0 <= j <= b@.len(),
            out@ == a@ + b@.subrange(0, j as int),
        decreases b@.len() - j,
    {
        out.push(b[j]);
        j += 1;
        assert(b@.subrange(0, j as int) =~= b@.subrange(0, j - 1).push(b@[j - 1]));
    }
    assert(a@.subrange(0, a@.len() as int) =~= a@);
    assert(b@.subrange(0, b@.len() as int) =~= b@);
    out
}

/// The deterministic test account number `index` (the key scheme's accounts
/// are reproducible from their index alone).
pub fn deterministic_account(index: u32) -> (res: Account)
    ensures
        is_account(res, index),
{
    let tag: [u8; 18] = [0x65, 0x64, 0x75, 0x72, 0x6f, 0x6c, 0x6c, 0x2d, 0x61, 0x63, 0x63, 0x6f, 0x75, 0x6e, 0x74, 0x2d, 0x76, 0x31];
    assert(tag@ =~= account_tag());
    let idx = be_bytes_vec(index as u128, 4);
    let seed_input = concat(tag.as_slice(), idx.as_slice());
    let priv_seed = sha256_digest(seed_input.as_slice());
    let stag: [u8; 17] = [0x65, 0x64, 0x75, 0x72, 0x6f, 0x6c, 0x6c, 0x2d, 0x73, 0x63, 0x61, 0x6c, 0x61, 0x72, 0x2d, 0x76, 0x31];
    assert(stag@ =~= scalar_tag());
    let scalar_input = concat(stag.as_slice(), priv_seed.as_slice());
    let scalar_bytes = sha256_digest(scalar_input.as_slice());
    let priv_scalar = fr_from_le(scalar_bytes.as_slice());
    let b = b_circomlib();
    let pubkey = ed_mul_be(&b.0, &b.1, &priv_scalar);
    let inv = sqrt_a_inv();
    let pubkey_x = fq_mul_be(&pubkey.0, &inv);
    let pubkey_y = pubkey.1;
    proof {
        let q = q_order() as int;
        let big_x = be_nat(pubkey.0@) as int;
        let big_y = be_nat(pubkey.1@) as int;
        let v = be_nat(inv@) as int;
        let xc = (be_nat(pubkey.0@) * be_nat(inv@)) % q_order();
        lemma_be32_value(xc);
        assert(be_nat(pubkey_x@) == xc);
        lemma_small_mod(xc, q_order());
        lemma_circom_from_ark(big_x % q, big_y % q, be_nat(sqrt_a_value()@) as int, v);
        vstd::arithmetic::div_mod::lemma_mul_mod_noop_left(big_x, v, q);
    }
    let l2_address = compute_l2_address(&pubkey_x, &pubkey_y);
    let mut owner_address = [0u8; 20];
    let mut i: usize = 0;
    while i < 20
        invariant
            0 <= i <= 20,
            owner_address@.len() == 20,
            forall|j: int| 0 <= j < i ==> owner_address@[j] == l2_address@[12 + j],
        decreases 20 - i,
    {
        owner_address[i] = l2_address[12 + i];
        i += 1;
    }
    assert(owner_address@ =~= l2_address@.subrange(12, 32));
    Account {
        index,
        owner_address,
        priv_seed,
        priv_scalar,
        pubkey,
        pubkey_x,
        pubkey_y,
        l2_address,
    }
}

/// The test accounts `0 .. n` (the count taken as a `u32`).
pub fn deterministic_accounts(n: usize) -> (res: Vec<Account>)
    ensures
        res@.len() == (n as u32) as nat,
        forall|i: int| 0 <= i < res@.len() ==> is_account(#[trigger] res@[i], i as u32),
{
    let count = n as u32;
    let mut out: Vec<Account> = Vec::new();
    let mut i: u32 = 0;
    while i < count
        invariant
            0 <= i <= count,
            out@.len() == i,
            forall|k: int| 0 <= k < i ==> is_account(#[trigger] out@[k], k as u32),
        decreases count - i,
    {
        out.push(deterministic_account(i));
        i += 1;
    }
    out
}

/// The L2 address of a public key: Poseidon(pubkey_x, pubkey_y).
pub fn compute_l2_address(pubkey_x: &[u8; 32], pubkey_y: &[u8; 32]) -> (res: [u8; 32])
    ensures
        res == l2_address_of(*pubkey_x, *pubkey_y),
{
    let inputs = [*pubkey_x, *pubkey_y];
    assert(inputs@ =~= seq![*pubkey_x, *pubkey_y]);
    poseidon_circom_be(inputs.as_slice())
}

/// The message a transfer signs: Poseidon of both L2 addresses, the amount and
/// the nonce.
pub open spec fn msg_hash(sender_l2: [u8; 32], recv_l2: [u8; 32], amount: u128, nonce: u64) -> [u8; 32] {
    poseidon_bn254(seq![sender_l2, recv_l2, be32(amount as nat), be32(nonce as nat)])
}

/// The message hash of a transfer.
pub fn compute_msg_hash(sender_l2: &[u8; 32], recv_l2: &[u8; 32], amount: u128, nonce: u64) -> (res: [u8; 32])
    ensures
        res == msg_hash(*sender_l2, *recv_l2, amount, nonce),
{
    let a = u128_be32(amount);
    let n = u128_be32(nonce as u128);
    assert(a =~= be32(amount as nat));
    assert(n =~= be32(nonce as nat));
    let inputs = [*sender_l2, *recv_l2, a, n];
    assert(inputs@ =~= seq![*sender_l2, *recv_l2, a, n]);
    poseidon_circom_be(inputs.as_slice())
}

/// The signature of a transfer by `a`: the nonce scalar `r` is SHA-256 of
/// the nonce tag, the account's seed and the message, read little-endian
/// modulo `l`; R8 is `r` times BASE8, its x-coordinate taken back to
/// circomlib's model; `S = r + h * sk` where `h` is the Poseidon hash of R8,
/// the public key and the message, modulo `l`.
pub open spec fn signature_of(
    a: Account,
    sender_l2: [u8; 32],
    recv_l2: [u8; 32],
    amount: u128,
    nonce: u64,
) -> (Seq<u8>, Seq<u8>, Seq<u8>) {
    let msg = msg_hash(sender_l2, recv_l2, amount, nonce);
    let r = fr_elem(le_nat(sha256(nonce_tag() + a.priv_seed@ + msg@)@));
    let r8 = ed_mul(base8_x(), base8_y(), r);
    let r8x = fq_mul(r8.0@, sqrt_a_inv_value()@);
    let hm = poseidon_bn254(
        seq![
            arr32(r8x),
            r8.1,
            arr32(fq_elem(be_nat(a.pubkey_x@))),
            arr32(fq_elem(be_nat(a.pubkey_y@))),
            arr32(fq_elem(be_nat(msg@))),
        ],
    );
    (r8x, r8.1@, fr_add(r, fr_mul(fr_elem(be_nat(hm@)), a.priv_scalar@)))
}

/// Signs a transfer of `amount` at `nonce` from `sender_l2` to `recv_l2` with
/// the account's key; returns (R8.x, R8.y, S), each 32 bytes big-endian.
pub fn sign_tx(
    account: &Account,
    sender_l2: &[u8; 32],
    recv_l2: &[u8; 32],
    amount: u128,
    nonce: u64,
) -> (res: ([u8; 32], [u8; 32], [u8; 32]))
    ensures
        res.0@ == signature_of(*account, *sender_l2, *recv_l2, amount, nonce).0,
        res.1@ == signature_of(*account, *sender_l2, *recv_l2, amount, nonce).1,
        res.2@ == signature_of(*account, *sender_l2, *recv_l2, amount, nonce).2,
{
    let msg_be = compute_msg_hash(sender_l2, recv_l2, amount, nonce);
    let msg_fq = fq_reduce(&msg_be);
    let tag: [u8; 22] = [0x65, 0x64, 0x75, 0x72, 0x6f, 0x6c, 0x6c, 0x2d, 0x65, 0x64, 0x64, 0x73, 0x61, 0x2d, 0x6e, 0x6f, 0x6e, 0x63, 0x65, 0x2d, 0x76, 0x31];
    assert(tag@ =~= nonce_tag());
    let head = concat(tag.as_slice(), account.priv_seed.as_slice());
    let input = concat(head.as_slice(), msg_be.as_slice());
    let r_bytes = sha256_digest(input.as_slice());
    let r = fr_from_le(r_bytes.as_slice());
    let b8 = b8_circomlib();
    let r8 = ed_mul_be(&b8.0, &b8.1, &r);
    let inv = sqrt_a_inv();
    let r8x_c = fq_mul_be(&r8.0, &inv);
    let r8y_c = r8.1;
    let pkx_c = fq_reduce(&account.pubkey_x);
    let pky_c = fq_reduce(&account.pubkey_y);
    let inputs = [r8x_c, r8y_c, pkx_c, pky_c, msg_fq];
    proof {
        assert(r8x_c =~= arr32(r8x_c@));
        assert(pkx_c =~= arr32(pkx_c@));
        assert(pky_c =~= arr32(pky_c@));
        assert(msg_fq =~= arr32(msg_fq@));
        assert(inputs@ =~= seq![r8x_c, r8y_c, pkx_c, pky_c, msg_fq]);
    }
    let hm = poseidon_circom_be(inputs.as_slice());
    let hm_fr = fr_reduce(&hm);
    let prod = fr_mul_be(&hm_fr, &account.priv_scalar);
    let s = fr_add_be(&r, &prod);
    (r8x_c, r8y_c, s)
}

/// Whether (R8, S) is a valid signature of the transfer under the public key
/// (pkx, pky), all in circomlib's coordinates: both points, mapped to arkworks'
/// model, must lie on the curve, and `S * BASE8 == R8 + (8 h) * A` with `h`
/// the Poseidon hash of R8, the key and the message.
pub open spec fn signature_valid(
    pkx: [u8; 32],
    pky: [u8; 32],
    sender_l2: [u8; 32],
    recv_l2: [u8; 32],
    amount: u128,
    nonce: u64,
    r8x: [u8; 32],
    r8y: [u8; 32],
    s: [u8; 32],
) -> bool {
    let msg = msg_hash(sender_l2, recv_l2, amount, nonce);
    let pkx_c = fq_elem(be_nat(pkx@));
    let pky_c = fq_elem(be_nat(pky@));
    let r8x_c = fq_elem(be_nat(r8x@));
    let r8y_c = fq_elem(be_nat(r8y@));
    let ax = fq_mul(pkx_c, sqrt_a_value()@);
    let rx = fq_mul(r8x_c, sqrt_a_value()@);
    if !on_curve(ax, pky_c) || !on_curve(rx, r8y_c) {
        false
    } else {
        let hm = poseidon_bn254(
            seq![
                arr32(r8x_c),
                arr32(r8y_c),
                arr32(pkx_c),
                arr32(pky_c),
                arr32(fq_elem(be_nat(msg@))),
            ],
        );
        let k = fr_mul(fr_elem(be_nat(hm@)), be_bytes(8, 32));
        let t = ed_mul(ax, pky_c, k);
        ed_mul(base8_x(), base8_y(), fr_elem(be_nat(s@))) == ed_add(rx, r8y_c, t.0@, t.1@)
    }
}

/// Checks an EdDSA-Poseidon signature of a transfer.
pub fn verify_tx(
    pkx: &[u8; 32],
    pky: &[u8; 32],
    sender_l2: &[u8; 32],
    recv_l2: &[u8; 32],
    amount: u128,
    nonce: u64,
    sig_r8x: &[u8; 32],
    sig_r8y: &[u8; 32],
    sig_s: &[u8; 32],
) -> (res: bool)
    ensures
        res == signature_valid(*pkx, *pky, *sender_l2, *recv_l2, amount, nonce, *sig_r8x, *sig_r8y, *sig_s),
{
    let msg_be = compute_msg_hash(sender_l2, recv_l2, amount, nonce);
    let msg_fq = fq_reduce(&msg_be);
    let pkx_c = fq_reduce(pkx);
    let pky_c = fq_reduce(pky);
    let r8x_c = fq_reduce(sig_r8x);
    let r8y_c = fq_reduce(sig_r8y);
    let sa = sqrt_a();
    let ax = fq_mul_be(&pkx_c, &sa);
    let rx = fq_mul_be(&r8x_c, &sa);
    if !ed_is_on_curve(&ax, &pky_c) || !ed_is_on_curve(&rx, &r8y_c) {
        return false;
    }
    let s_fr = fr_reduce(sig_s);
    let inputs = [r8x_c, r8y_c, pkx_c, pky_c, msg_fq];
    proof {
        assert(r8x_c =~= arr32(r8x_c@));
        assert(r8y_c =~= arr32(r8y_c@));
        assert(pkx_c =~= arr32(pkx_c@));
        assert(pky_c =~= arr32(pky_c@));
        assert(msg_fq =~= arr32(msg_fq@));
        assert(inputs@ =~= seq![r8x_c, r8y_c, pkx_c, pky_c, msg_fq]);
    }
    let hm = poseidon_circom_be(inputs.as_slice());
    let hm_fr = fr_reduce(&hm);
    let eight = u128_be32(8);
    let k = fr_mul_be(&hm_fr, &eight);
    let b8 = b8_circomlib();
    let lhs = ed_mul_be(&b8.0, &b8.1, &s_fr);
    let t = ed_mul_be(&ax, &pky_c, &k);
    let rhs = ed_add_be(&rx, &r8y_c, &t.0, &t.1);
    let same = crate::hashes::bytes32_eq(&lhs.0, &rhs.0) && crate::hashes::bytes32_eq(&lhs.1, &rhs.1);
    proof {
        if lhs.0@ == rhs.0@ && lhs.1@ == rhs.1@ {
            assert(lhs.0 =~= rhs.0);
            assert(lhs.1 =~= rhs.1);
        }
    }
    same
}

/// A signed transfer from `sender` to `recipient`: its hash is the message
/// hash, its fee zero, its status pending.
pub fn build_signed_tx(sender: &Account, recipient: &Account, amount: u128, nonce: u64) -> (res:
    crate::tx::L2Transaction)
    ensures
        res.tx_hash.0 == msg_hash(sender.l2_address, recipient.l2_address, amount, nonce),
        res.sender == sender.owner_address,
        res.recipient == recipient.owner_address,
        res.amount == amount,
        res.fee == 0,
        res.nonce == nonce,
        res.status == crate::tx::L2TransactionStatus::Pending,
        res.batch_id == None::<i32>,
        res.sig_r8_x@ == signature_of(*sender, sender.l2_address, recipient.l2_address, amount, nonce).0,
        res.sig_r8_y@ == signature_of(*sender, sender.l2_address, recipient.l2_address, amount, nonce).1,
        res.sig_s@ == signature_of(*sender, sender.l2_address, recipient.l2_address, amount, nonce).2,
{
    let (r8x, r8y, s) = sign_tx(sender, &sender.l2_address, &recipient.l2_address, amount, nonce);
    let tx_hash = compute_msg_hash(&sender.l2_address, &recipient.l2_address, amount, nonce);
    crate::tx::L2Transaction {
            tx_hash: crate::hashes::PoseidonHash(tx_hash),
            sender: sender.owner_address,
            recipient: recipient.owner_address,
            amount,
            fee: 0,
            nonce,
            status: crate::tx::L2TransactionStatus::Pending,
            batch_id: None,
            sig_r8_x: r8x,
            sig_r8_y: r8y,
            sig_s: s,
        }
}

/// An account is fixed by its index: any two values that both are account
/// `index` are equal.
pub proof fn lemma_account_deterministic(a: Account, b: Account, index: u32)
    requires
        is_account(a, index),
        is_account(b, index),
    ensures
        a == b,
{
    assert(a.priv_scalar =~= b.priv_scalar);
    assert(a.pubkey_x =~= b.pubkey_x);
    assert(a.owner_address =~= b.owner_address);
}

} // verus!
