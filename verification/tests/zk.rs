use homomorphic_encryption_project::encryption::{
    encrypt_with_rand, generate_key_pair, secure_params, Ciphertext, Parameters, PublicKey,
    SecretKey,
};
use homomorphic_encryption_project::mpc::zk::{create_m_e_from_e, hash, make_zkpopk, verify_zkpopk};
use homomorphic_encryption_project::mpc::{SEC, V};
use homomorphic_encryption_project::poly::Polynomial;
use num::bigint::RandBigInt;
use num::BigInt;

#[allow(clippy::type_complexity)]
fn setup(
    params: &Parameters,
) -> (
    PublicKey,
    SecretKey,
    Vec<Polynomial>,
    Vec<(Polynomial, Polynomial, Polynomial)>,
    Vec<Ciphertext>,
) {
    let (pk, sk) = generate_key_pair(params);

    let mut x = Vec::with_capacity(SEC);
    let mut r = Vec::with_capacity(SEC);
    let mut c = Vec::with_capacity(SEC);
    for _ in 0..SEC {
        let x_i = Polynomial::new(vec![random_integer()]).modulo(&params.p);
        let (c_i, r_i) = encrypt_with_rand(params, x_i.cloned(), &pk);
        x.push(x_i);
        r.push(r_i);
        c.push(c_i);
    }

    (pk, sk, x, r, c)
}

fn random_integer() -> BigInt {
    let mut rng = rand::thread_rng();
    BigInt::from(rng.gen_biguint(256))
}

#[test]
fn verify_accepts_valid_zkpopk() {
    let params = Parameters::default();
    let (pk, _sk, x, r, c) = setup(&params);

    let (a, z, t) = make_zkpopk(&params, x, r, c.clone(), false, &pk);

    assert!(verify_zkpopk(&params, a, z, t, c, &pk), "proof was not valid");
}

#[test]
fn verify_accepts_valid_zkpopk_with_secure_params() {
    let params = secure_params();
    let (pk, _sk, x, r, c) = setup(&params);

    let (a, z, t) = make_zkpopk(&params, x, r, c.clone(), false, &pk);

    assert!(verify_zkpopk(&params, a, z, t, c, &pk), "proof was not valid");
}

#[test]
fn verify_accepts_valid_zkpopk_diagonal() {
    let params = Parameters::default();
    let (pk, _sk, x, r, c) = setup(&params);

    let (a, z, t) = make_zkpopk(&params, x, r, c.clone(), true, &pk);

    assert!(verify_zkpopk(&params, a, z, t, c, &pk), "proof was not valid");
}

#[test]
fn verify_rejects_tampered_response() {
    let params = Parameters::default();
    let (pk, _sk, x, r, c) = setup(&params);

    let (a, mut z, t) = make_zkpopk(&params, x, r, c.clone(), false, &pk);
    z[0][0] += BigInt::from(1);

    assert!(!verify_zkpopk(&params, a, z, t, c, &pk));
}

#[test]
fn verify_rejects_tampered_randomness() {
    let params = Parameters::default();
    let (pk, _sk, x, r, c) = setup(&params);

    let (a, z, mut t) = make_zkpopk(&params, x, r, c.clone(), false, &pk);
    t[2][1] += BigInt::from(1);

    assert!(!verify_zkpopk(&params, a, z, t, c, &pk));
}

#[test]
fn verify_rejects_tampered_commitment() {
    let params = Parameters::default();
    let (pk, _sk, x, r, c) = setup(&params);

    let (mut a, z, t) = make_zkpopk(&params, x, r, c.clone(), false, &pk);
    let bumped = a[0][0].add(&Polynomial::new(vec![BigInt::from(1)]));
    a[0][0] = bumped;

    assert!(!verify_zkpopk(&params, a, z, t, c, &pk));
}

#[test]
fn challenge_expands_shake_output_bits() {
    // The transcript of two empty ciphertext lists is the empty byte
    // string; the first SHAKE-256 bytes of the empty string are
    // 46 b9 dd 2b 0b, and the challenge must expand exactly those bits.
    let e = hash(&Vec::new(), &Vec::new());
    assert_eq!(e.len(), SEC);
    let expected_bytes: [u8; 5] = [0x46, 0xb9, 0xdd, 0x2b, 0x0b];
    for (i, bit) in e.iter().enumerate() {
        let byte = expected_bytes[i / 8];
        let expected = (byte >> (7 - (i % 8))) & 1;
        assert_eq!(*bit, expected);
    }
}

#[test]
fn challenge_matrix_is_banded() {
    let mut e = Vec::new();
    for i in 0..SEC {
        e.push((i % 2) as u8);
    }
    let m_e = create_m_e_from_e(e.clone());
    assert_eq!(m_e.len(), SEC);
    for (i, row) in m_e.iter().enumerate() {
        assert_eq!(row.len(), V);
        for (k, entry) in row.iter().enumerate() {
            if k <= i && i - k < SEC {
                assert_eq!(*entry, e[i - k]);
            } else {
                assert_eq!(*entry, 0);
            }
        }
    }
}
