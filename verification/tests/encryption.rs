use homomorphic_encryption_project::encryption;
use homomorphic_encryption_project::encryption::{
    decrypt, encrypt, generate_key_pair, mul, secure_params, DecryptionError, Parameters,
};
use homomorphic_encryption_project::poly::Polynomial;
use homomorphic_encryption_project::prob;
use homomorphic_encryption_project::quotient_ring::Rq;
use num::BigInt;

fn poly(coeffs: &[i64]) -> Polynomial {
    Polynomial::new(coeffs.iter().map(|&c| BigInt::from(c)).collect())
}

#[test]
fn lib_decrypt_and_encrypt_many_times() {
    let params = Parameters::default();

    for _ in 0..1000 {
        let (pk, sk) = encryption::generate_key_pair(&params);

        let msg = poly(&[1]);
        let encrypted_msg = encryption::encrypt(&params, msg, &pk);
        let decrypted_msg = encryption::decrypt(&params, encrypted_msg, &sk).unwrap();

        assert_eq!(decrypted_msg, poly(&[1]));
    }
}

#[test]
fn lib_decrypt_and_encrypt_random_messages() {
    let params = Parameters::default();

    for _ in 0..1000 {
        let (pk, sk) = encryption::generate_key_pair(&params);

        let bound = &params.p - BigInt::from(1);
        let msg = prob::sample_from_uniform(&bound, params.n).trim_res();
        let expected = msg.cloned();

        let encrypted_msg = encryption::encrypt(&params, msg, &pk);
        let decrypted_msg = encryption::decrypt(&params, encrypted_msg, &sk).unwrap();

        assert_eq!(decrypted_msg, expected);
    }
}

#[test]
fn lib_add_ciphertexts() {
    let params = Parameters::default();

    for _ in 0..1000 {
        let (pk, sk) = encryption::generate_key_pair(&params);

        let msg1 = poly(&[1, 4]);
        let msg2 = poly(&[2, 1]);
        let encrypted_msg1 = encryption::encrypt(&params, msg1, &pk);
        let encrypted_msg2 = encryption::encrypt(&params, msg2, &pk);
        let added_encrypted_msg = encryption::add(&params, &encrypted_msg1, &encrypted_msg2);
        let decrypted_msg = encryption::decrypt(&params, added_encrypted_msg, &sk).unwrap();

        assert_eq!(decrypted_msg, poly(&[3 % 7, 5 % 7]));
    }
}

#[test]
fn lib_mul_ciphertexts() {
    let params = Parameters::default();

    for _ in 0..1000 {
        let (pk, sk) = encryption::generate_key_pair(&params);

        let msg1 = poly(&[2]);
        let msg2 = poly(&[2]);
        let encrypted_msg1 = encryption::encrypt(&params, msg1, &pk);
        let encrypted_msg2 = encryption::encrypt(&params, msg2, &pk);
        let mul_encrypted_msg = encryption::mul(&params, &encrypted_msg1, &encrypted_msg2);
        let decrypted_msg = encryption::decrypt(&params, mul_encrypted_msg, &sk).unwrap();

        assert_eq!(decrypted_msg, poly(&[4 % 7]));
    }
}

#[test]
fn mul_with_overflow() {
    let params = secure_params();
    let mut fx_coeffs = vec![BigInt::from(0); params.n + 1];
    fx_coeffs[0] = BigInt::from(1);
    fx_coeffs[params.n] = BigInt::from(1);
    let fx = Polynomial::new(fx_coeffs);
    let rt = Rq::new(params.p.clone(), fx);

    let (pk, sk) = generate_key_pair(&params);

    let a = prob::sample_from_uniform(&params.p, params.n);
    let b = prob::sample_from_uniform(&params.p, params.n);
    let ab = rt.mul(&a, &b);

    let e_a = encrypt(&params, a, &pk);
    let e_b = encrypt(&params, b, &pk);

    let e_c = mul(&params, &e_a, &e_b);

    let c = decrypt(&params, e_c, &sk).unwrap();
    assert_eq!(c, ab);
}

#[test]
fn main_decrypt_and_encrypt_many_times() {
    let params = Parameters::default();

    for _ in 0..1000 {
        let (pk, sk) = encryption::generate_key_pair(&params);

        let msg = poly(&[1]);
        let encrypted_msg = encryption::encrypt(&params, msg, &pk);
        let decrypted_msg = encryption::decrypt(&params, encrypted_msg, &sk).unwrap();

        assert_eq!(decrypted_msg, poly(&[1]));
    }
}

#[test]
fn main_decrypt_and_encrypt_random_messages() {
    let params = Parameters::default();

    for _ in 0..1000 {
        let (pk, sk) = encryption::generate_key_pair(&params);

        let bound = &params.p - BigInt::from(1);
        let msg = prob::sample_from_uniform(&bound, params.n).trim_res();
        let expected = msg.cloned();

        let encrypted_msg = encryption::encrypt(&params, msg, &pk);
        let decrypted_msg = encryption::decrypt(&params, encrypted_msg, &sk).unwrap();

        assert_eq!(decrypted_msg, expected);
    }
}

#[test]
fn main_add_ciphertexts() {
    let params = Parameters::default();

    for _ in 0..1000 {
        let (pk, sk) = encryption::generate_key_pair(&params);

        let msg1 = poly(&[1, 4]);
        let msg2 = poly(&[2, 1]);
        let encrypted_msg1 = encryption::encrypt(&params, msg1, &pk);
        let encrypted_msg2 = encryption::encrypt(&params, msg2, &pk);
        let added_encrypted_msg = encryption::add(&params, &encrypted_msg1, &encrypted_msg2);
        let decrypted_msg = encryption::decrypt(&params, added_encrypted_msg, &sk).unwrap();

        assert_eq!(decrypted_msg, poly(&[3 % 7, 5 % 7]));
    }
}

#[test]
fn main_mul_ciphertexts() {
    let params = Parameters::default();

    for _ in 0..1000 {
        let (pk, sk) = encryption::generate_key_pair(&params);

        let msg1 = poly(&[2]);
        let msg2 = poly(&[2]);
        let encrypted_msg1 = encryption::encrypt(&params, msg1, &pk);
        let encrypted_msg2 = encryption::encrypt(&params, msg2, &pk);
        let mul_encrypted_msg = encryption::mul(&params, &encrypted_msg1, &encrypted_msg2);
        let decrypted_msg = encryption::decrypt(&params, mul_encrypted_msg, &sk).unwrap();

        assert_eq!(decrypted_msg, poly(&[4 % 7]));
    }
}

#[test]
fn decryption_error_on_noisy_ciphertext() {
    // A ciphertext whose constant term already sits at q/2 decrypts to
    // a centered representative of norm q/2, which is rejected.
    let params = Parameters::default();
    let (_pk, sk) = generate_key_pair(&params);
    let c = vec![poly(&[32768]), poly(&[0])];
    match decrypt(&params, c, &sk) {
        Err(DecryptionError::LInfNormTooBig(norm)) => {
            assert_eq!(norm, BigInt::from(32768));
        }
        Ok(_) => panic!("expected a decryption failure"),
    }
}

#[test]
fn drown_noise_keeps_plaintext() {
    let params = Parameters::default();
    let noisy_params = Parameters::new(BigInt::from(65537), 40, 40, 4, BigInt::from(7));
    let (pk, sk) = generate_key_pair(&params);

    let msg = poly(&[3]);
    let c = encrypt(&params, msg, &pk);
    let refreshed = encryption::drown_noise(&params, &noisy_params, c, pk);
    let decrypted = decrypt(&params, refreshed, &sk).unwrap();
    assert_eq!(decrypted, poly(&[3]));
}
