use homomorphic_encryption_project::mpc::commitment::{commitment_of, open};

fn hex_to_bytes(hex: &str) -> Vec<u8> {
    let chars: Vec<u32> = hex.chars().map(|c| c.to_digit(16).unwrap()).collect();
    chars.chunks(2).map(|p| (p[0] * 16 + p[1]) as u8).collect()
}

#[test]
fn commitment_of_empty_is_sha256_of_empty() {
    // The SHA-256 digest of the empty string is a published constant;
    // the commitment to an empty value under empty randomness must be
    // exactly that digest.
    let c = commitment_of(&Vec::new(), &Vec::new());
    let expected = hex_to_bytes("e3b0c44298fc1c149afbf4c8996fb92427ae41e4649b934ca495991b7852b855");
    assert_eq!(c, expected);
}

#[test]
fn open_accepts_matching_opening() {
    let v = vec![1u8, 2, 3];
    let r = vec![9u8, 9, 9, 9];
    let c = commitment_of(&v, &r);
    let mut o = v.clone();
    o.extend(r);
    let opened = open(c, o.clone()).unwrap();
    assert_eq!(opened, o);
}

#[test]
fn open_rejects_altered_opening() {
    let v = vec![1u8, 2, 3];
    let r = vec![9u8, 9, 9, 9];
    let c = commitment_of(&v, &r);
    let mut o = v.clone();
    o.extend(r);
    o[0] ^= 1;
    assert!(open(c, o).is_err());
}

#[test]
fn commitments_to_different_values_differ() {
    let r = vec![0u8; 32];
    let c1 = commitment_of(&vec![1u8], &r);
    let c2 = commitment_of(&vec![2u8], &r);
    assert_ne!(c1, c2);
    assert_eq!(c1.len(), 32);
}
