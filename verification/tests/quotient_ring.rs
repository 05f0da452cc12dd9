use homomorphic_encryption_project::poly::Polynomial;
use homomorphic_encryption_project::quotient_ring::Rq;
use num::BigInt;

fn poly(coeffs: &[i64]) -> Polynomial {
    Polynomial::new(coeffs.iter().map(|&c| BigInt::from(c)).collect())
}

#[test]
fn test_reduce() {
    let fx = poly(&[1, 3]);
    let quot_ring = Rq::new(BigInt::from(32), fx);
    let to_reduce = poly(&[5, 7, 3]);
    assert_eq!(quot_ring.reduce(&to_reduce), poly(&[3]));

    let fx_2 = poly(&[1, 0, 1]);
    let quot_ring_2 = Rq::new(BigInt::from(32), fx_2);
    let to_reduce_2 = poly(&[-17, 38, -12, 1]);
    assert_eq!(quot_ring_2.reduce(&to_reduce_2), poly(&[27, 5]));

    let fx_3 = poly(&[1, 0, 0, 0, 0, 1]);
    let quot_ring_3 = Rq::new(BigInt::from(32), fx_3);
    let to_reduce_3 = poly(&[13, 2, 5, -1]);
    assert_eq!(quot_ring_3.reduce(&to_reduce_3), poly(&[13, 2, 5, 31]));
}

#[test]
fn quotient_ring_test_add() {
    let fx = poly(&[1, 0, 1]);
    let quot_ring = Rq::new(BigInt::from(32), fx);
    let lhs = poly(&[3, 6, 4, 2, 1]);
    let rhs = poly(&[-17, 38, -12, 1]);
    assert_eq!(quot_ring.add(&lhs, &rhs), poly(&[27, 9]));
}

#[test]
fn quotient_ring_test_mul() {
    let fx = poly(&[1, 0, 1]);
    let quot_ring = Rq::new(BigInt::from(32), fx);
    let lhs = poly(&[3, 5, 0, 8]);
    let rhs = poly(&[1, 1, 5]);
    assert_eq!(quot_ring.mul(&lhs, &rhs), poly(&[23, 15]));
}

#[test]
fn test_times() {
    let fx = poly(&[1, 0, 1]);
    let quot_ring = Rq::new(BigInt::from(32), fx);
    let lhs = poly(&[3, 17, 2, -3, 6]);
    let rhs = 3;
    assert_eq!(quot_ring.times(&lhs, &BigInt::from(rhs)), poly(&[21, 28]));
}

#[test]
fn quotient_ring_test_neg() {
    let fx = poly(&[1, 0, 1]);
    let quot_ring = Rq::new(BigInt::from(32), fx);
    let to_reduce = poly(&[-13, 4, -2, 6]);
    assert_eq!(quot_ring.neg(&to_reduce), poly(&[11, 2]));
}

#[test]
fn quotient_ring_test_sub() {
    let fx = poly(&[1, 0, 1]);
    let quot_ring = Rq::new(BigInt::from(32), fx);
    let lhs = poly(&[3, 6]);
    let rhs = poly(&[5, 2]);
    assert_eq!(quot_ring.sub(&lhs, &rhs), poly(&[30, 4]));
}
