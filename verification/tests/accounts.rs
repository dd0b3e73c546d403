use ark_bn254::Fr as Fq;
use ark_ec::{CurveGroup, Group};
use ark_ed_on_bn254::{EdwardsAffine, EdwardsProjective, Fr};
use ark_std::UniformRand;
use rand::SeedableRng;
use rand_chacha::ChaCha20Rng;
use ark_ff::{BigInteger, Field, PrimeField};
use eduroll::accounts::{
    compute_l2_address, compute_msg_hash, deterministic_account, deterministic_accounts, sign_tx,
    verify_tx,
};
use eduroll::keys::L2Keypair;
use light_poseidon::{Poseidon, PoseidonHasher};
use sha2::{Digest, Sha256};
use std::str::FromStr;

fn fq(b: &[u8; 32]) -> Fq {
    Fq::from_be_bytes_mod_order(b)
}

fn sqrt_a() -> Fq {
    fq(&eduroll::accounts::sqrt_a())
}

fn sqrt_a_inv() -> Fq {
    fq(&eduroll::accounts::sqrt_a_inv())
}

fn b8_circomlib() -> EdwardsAffine {
    let (x, y) = eduroll::accounts::b8_circomlib();
    EdwardsAffine::new_unchecked(fq(&x), fq(&y))
}

#[test]
fn account_is_deterministic() {
    let a = deterministic_account(0);
    let b = deterministic_account(0);
    assert_eq!(a.pubkey_x, b.pubkey_x);
    assert_eq!(a.pubkey_y, b.pubkey_y);
    assert_eq!(a.l2_address, b.l2_address);
    assert_eq!(a.owner_address, b.owner_address);
}

#[test]
fn distinct_accounts_distinct_keys() {
    let a = deterministic_account(0);
    let b = deterministic_account(1);
    assert_ne!(a.pubkey_x, b.pubkey_x);
    assert_ne!(a.l2_address, b.l2_address);
}

#[test]
fn sign_then_verify_roundtrip() {
    let sender = deterministic_account(7);
    let receiver = deterministic_account(42);
    let (r8x, r8y, s) = sign_tx(&sender, &sender.l2_address, &receiver.l2_address, 100, 5);
    assert!(
        verify_tx(
            &sender.pubkey_x,
            &sender.pubkey_y,
            &sender.l2_address,
            &receiver.l2_address,
            100,
            5,
            &r8x,
            &r8y,
            &s,
        ),
        "valid signature failed to verify"
    );
}

#[test]
fn tampered_amount_rejected() {
    let sender = deterministic_account(1);
    let receiver = deterministic_account(2);
    let (r8x, r8y, s) = sign_tx(&sender, &sender.l2_address, &receiver.l2_address, 100, 0);
    assert!(!verify_tx(
        &sender.pubkey_x,
        &sender.pubkey_y,
        &sender.l2_address,
        &receiver.l2_address,
        999,
        0,
        &r8x,
        &r8y,
        &s,
    ));
}

#[test]
fn wrong_pubkey_rejected() {
    let sender = deterministic_account(1);
    let imposter = deterministic_account(99);
    let receiver = deterministic_account(2);
    let (r8x, r8y, s) = sign_tx(&sender, &sender.l2_address, &receiver.l2_address, 100, 0);
    assert!(!verify_tx(
        &imposter.pubkey_x,
        &imposter.pubkey_y,
        &sender.l2_address,
        &receiver.l2_address,
        100,
        0,
        &r8x,
        &r8y,
        &s,
    ));
}

#[test]
fn tampered_nonce_rejected() {
    let sender = deterministic_account(3);
    let receiver = deterministic_account(8);
    let (r8x, r8y, s) = sign_tx(&sender, &sender.l2_address, &receiver.l2_address, 50, 7);
    assert!(!verify_tx(
        &sender.pubkey_x,
        &sender.pubkey_y,
        &sender.l2_address,
        &receiver.l2_address,
        50,
        8,
        &r8x,
        &r8y,
        &s,
    ));
}

#[test]
fn circomlib_circuit_equation_holds() {
    let sender = deterministic_account(0);
    let receiver = deterministic_account(1);
    let (r8x, r8y, s) = sign_tx(&sender, &sender.l2_address, &receiver.l2_address, 100, 0);

    let pkx_c = Fq::from_be_bytes_mod_order(&sender.pubkey_x);
    let pky_c = Fq::from_be_bytes_mod_order(&sender.pubkey_y);
    let r8x_c = Fq::from_be_bytes_mod_order(&r8x);
    let r8y_c = Fq::from_be_bytes_mod_order(&r8y);

    let sa = sqrt_a();
    let pubkey = EdwardsAffine::new_unchecked(pkx_c * sa, pky_c);
    let r8 = EdwardsAffine::new_unchecked(r8x_c * sa, r8y_c);
    assert!(pubkey.is_on_curve(), "lifted pubkey must be on arkworks curve");
    assert!(r8.is_on_curve(), "lifted R8 must be on arkworks curve");

    let s_fr = Fr::from_be_bytes_mod_order(&s);

    let msg_be = compute_msg_hash(&sender.l2_address, &receiver.l2_address, 100, 0);
    let msg_fq = Fq::from_be_bytes_mod_order(&msg_be);

    let mut hash5 = Poseidon::<Fq>::new_circom(5).unwrap();
    let hm_fq = hash5.hash(&[r8x_c, r8y_c, pkx_c, pky_c, msg_fq]).unwrap();
    let hm_fr = Fr::from_le_bytes_mod_order(&hm_fq.into_bigint().to_bytes_le());

    let lhs: EdwardsProjective = b8_circomlib() * s_fr;
    let rhs: EdwardsProjective =
        EdwardsProjective::from(r8) + (EdwardsProjective::from(pubkey) * (hm_fr * Fr::from(8u32)));
    assert_eq!(lhs, rhs, "circuit equation S·B8 == R8 + 8·hm·A must hold");
}

#[test]
fn iso_produces_circomlib_curve_points() {
    let p_ark = b8_circomlib();
    assert!(p_ark.is_on_curve(), "lifted Base8 must be on arkworks's curve");

    let x_c = p_ark.x * sqrt_a_inv();
    let y_c = p_ark.y;

    let a = Fq::from(168700u64);
    let d = Fq::from(168696u64);
    let lhs = a * x_c.square() + y_c.square();
    let rhs = Fq::ONE + d * x_c.square() * y_c.square();
    assert_eq!(lhs, rhs, "iso must map arkworks points onto circomlib's curve");
}

#[test]
fn circomlib_base8_is_prime_subgroup_generator() {
    let b8 = b8_circomlib();
    let p: EdwardsProjective = b8 * Fr::ZERO;
    assert!(b8.is_on_curve());
    assert_ne!(EdwardsProjective::from(b8), p);
}

#[test]
fn account_fields_follow_the_key_scheme() {
    let a = deterministic_account(5);
    let mut h = Sha256::new();
    h.update(b"eduroll-account-v1");
    h.update(&5u32.to_be_bytes());
    let seed: [u8; 32] = h.finalize().into();
    assert_eq!(a.priv_seed, seed);
    let mut sh = Sha256::new();
    sh.update(b"eduroll-scalar-v1");
    sh.update(&seed);
    let scalar = Fr::from_le_bytes_mod_order(&sh.finalize());
    let scalar_be: Vec<u8> = scalar.into_bigint().to_bytes_be();
    assert_eq!(a.priv_scalar.to_vec(), scalar_be);
    assert_eq!(a.l2_address, compute_l2_address(&a.pubkey_x, &a.pubkey_y));
    assert_eq!(&a.owner_address[..], &a.l2_address[12..32]);
    // The circomlib x-coordinate times sqrt(a) is arkworks' x-coordinate.
    let x_ark = Fq::from_be_bytes_mod_order(&a.pubkey_x) * sqrt_a();
    assert_eq!(x_ark.into_bigint().to_bytes_be(), a.pubkey.0.to_vec());
    assert_eq!(a.pubkey_y, a.pubkey.1);
    let p = EdwardsAffine::new_unchecked(
        Fq::from_be_bytes_mod_order(&a.pubkey.0),
        Fq::from_be_bytes_mod_order(&a.pubkey.1),
    );
    assert!(p.is_on_curve());
}

#[test]
fn accounts_list_is_indexed() {
    let v = deterministic_accounts(3);
    assert_eq!(v.len(), 3);
    for (i, a) in v.iter().enumerate() {
        assert_eq!(a.index, i as u32);
        assert_eq!(a.l2_address, deterministic_account(i as u32).l2_address);
    }
    assert!(deterministic_accounts(0).is_empty());
}

#[test]
fn message_hash_is_poseidon_of_four() {
    let s = [3u8; 32];
    let r = [4u8; 32];
    let mut h = Poseidon::<Fq>::new_circom(4).unwrap();
    let want = h
        .hash(&[
            Fq::from_be_bytes_mod_order(&s),
            Fq::from_be_bytes_mod_order(&r),
            Fq::from(1234u128),
            Fq::from(9u64),
        ])
        .unwrap();
    assert_eq!(compute_msg_hash(&s, &r, 1234, 9).to_vec(), want.into_bigint().to_bytes_be());
}

#[test]
fn signature_by_another_key_is_rejected_and_garbage_is_not_on_curve() {
    let sender = deterministic_account(11);
    let receiver = deterministic_account(12);
    let (r8x, r8y, s) = sign_tx(&sender, &sender.l2_address, &receiver.l2_address, 1, 0);
    // Same message, same key: deterministic signature.
    assert_eq!(sign_tx(&sender, &sender.l2_address, &receiver.l2_address, 1, 0), (r8x, r8y, s));
    // A point off the curve is refused before any group arithmetic.
    assert!(!verify_tx(
        &[1u8; 32],
        &[2u8; 32],
        &sender.l2_address,
        &receiver.l2_address,
        1,
        0,
        &r8x,
        &r8y,
        &s,
    ));
}

#[test]
fn keypair_from_seed_is_reproducible() {
    let a = L2Keypair::from_eth_seed([9u8; 32]);
    let b = L2Keypair::from_eth_seed([9u8; 32]);
    let c = L2Keypair::from_eth_seed([10u8; 32]);
    assert_eq!(a.secret_key, b.secret_key);
    assert_eq!(a.public_key, b.public_key);
    assert_ne!(a.secret_key, c.secret_key);
    let p = EdwardsAffine::new_unchecked(
        Fq::from_be_bytes_mod_order(&a.public_key.0),
        Fq::from_be_bytes_mod_order(&a.public_key.1),
    );
    assert!(p.is_on_curve());
}

#[test]
fn public_keys_match_arkworks_arithmetic() {
    let a = deterministic_account(4);
    let scalar = Fr::from_be_bytes_mod_order(&a.priv_scalar);
    let b = (b8_circomlib() * Fr::from(8u32).inverse().unwrap()).into_affine();
    let (bx, by) = eduroll::accounts::b_circomlib();
    assert_eq!((fq(&bx), fq(&by)), (b.x, b.y));
    let pk = (b * scalar).into_affine();
    assert_eq!(pk.x.into_bigint().to_bytes_be(), a.pubkey.0.to_vec());
    assert_eq!(pk.y.into_bigint().to_bytes_be(), a.pubkey.1.to_vec());

    let kp = L2Keypair::from_eth_seed([3u8; 32]);
    let mut rng = ChaCha20Rng::from_seed([3u8; 32]);
    let sk = Fr::rand(&mut rng);
    assert_eq!(sk.into_bigint().to_bytes_be(), kp.secret_key.to_vec());
    let pub_key = (EdwardsProjective::generator() * sk).into_affine();
    assert_eq!(pub_key.x.into_bigint().to_bytes_be(), kp.public_key.0.to_vec());
    assert_eq!(pub_key.y.into_bigint().to_bytes_be(), kp.public_key.1.to_vec());
}

#[test]
fn curve_constants_match_their_definitions() {
    let r = sqrt_a();
    assert_eq!(r * r, Fq::from(168700u64));
    assert_eq!(r * sqrt_a_inv(), Fq::ONE);
    let x_c = Fq::from_str(
        "5299619240641551281634865583518297030282874472190772894086521144482721001553",
    )
    .unwrap();
    assert_eq!(b8_circomlib().x, x_c * r);
}
