use homomorphic_encryption_project::poly::Polynomial;
use num::BigInt;

fn poly(coeffs: &[i64]) -> Polynomial {
    Polynomial::new(coeffs.iter().map(|&c| BigInt::from(c)).collect())
}

#[test]
fn poly_test_add() {
    let rhs = poly(&[1, 2]);
    let lhs = poly(&[0]);
    assert_eq!(rhs.add(&lhs), poly(&[1, 2]));

    let rhs_2 = poly(&[17, 42]);
    let lhs_2 = poly(&[73, 100]);
    assert_eq!(rhs_2.add(&lhs_2), poly(&[90, 142]));

    let rhs_3 = poly(&[0, 2, 3, 6, 3, 2]);
    let lhs_3 = poly(&[2, 4, 0, 5]);
    assert_eq!(rhs_3.add(&lhs_3), poly(&[2, 6, 3, 11, 3, 2]));
}

#[test]
fn poly_test_mul() {
    let rhs = poly(&[3, 5]);
    let lhs = poly(&[2, 7, 2]);
    assert_eq!(rhs.mul(&lhs), poly(&[6, 31, 41, 10]));

    let rhs_2 = poly(&[3, 2, 0, 5]);
    let lhs_2 = poly(&[0, 1, 8, 2]);
    assert_eq!(rhs_2.mul(&lhs_2), poly(&[0, 3, 26, 22, 9, 40, 10]));

    let rhs_3 = poly(&[1]);
    let lhs_3 = poly(&[1, 6, 2, 1]);
    assert_eq!(rhs_3.mul(&lhs_3), poly(&[1, 6, 2, 1]));

    let rhs_4 = poly(&[17, 3, 1, 0]);
    let lhs_4 = poly(&[0]);
    assert_eq!(rhs_4.mul(&lhs_4), poly(&[0]));
}

#[test]
fn test_mul_scalar() {
    let p = poly(&[42, 10, 30]);
    let scalar = 7;
    assert_eq!(
        p.mul_scalar(&BigInt::from(scalar)),
        poly(&[42 * scalar, 10 * scalar, 30 * scalar])
    );
}

#[test]
fn poly_test_neg() {
    let p = poly(&[1, 2]);
    assert_eq!(p.neg(), poly(&[-1, -2]));

    let p2 = poly(&[15, 23, 1, 0, 2]);
    assert_eq!(p2.neg(), poly(&[-15, -23, -1, 0, -2]));
}

#[test]
fn test_mod_coefficients() {
    let p = poly(&[83, 2, 10, 7, 0, 1, 100]);
    let modulus = BigInt::from(7);
    assert_eq!(p.modulo(&modulus), poly(&[6, 2, 3, 0, 0, 1, 2]));
}

#[test]
fn test_trim_keeps_zero_polynomial() {
    let p = poly(&[0, 0, 0]);
    assert_eq!(p.trim_res(), poly(&[0]));
    let p2 = poly(&[1, 0, 2, 0, 0]);
    assert_eq!(p2.trim_res(), poly(&[1, 0, 2]));
}

#[test]
fn test_l_inf_norm() {
    let p = poly(&[-5, 3, 2]);
    assert_eq!(p.l_inf_norm(), BigInt::from(5));
    let p2 = poly(&[0]);
    assert_eq!(p2.l_inf_norm(), BigInt::from(0));
}

#[test]
fn test_normalized_coefficients() {
    // With q = 10, coefficients above 5 wrap to their centered form.
    let p = poly(&[6, 5, 0, 9]);
    let q = BigInt::from(10);
    assert_eq!(p.normalized_coefficients(&q), poly(&[-4, 5, 0, -1]));
}

#[test]
fn test_shift_poly() {
    let p = poly(&[1, 2]);
    assert_eq!(p.shift_poly(2), poly(&[0, 0, 1, 2]));
}
