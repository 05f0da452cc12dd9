//! Randomness: the discrete Gaussian and uniform samplers that key
//! generation, encryption and the preprocessing protocol draw from, and
//! the deterministic seeded generator that the MAC check uses after its
//! commit-reveal coin toss.
//!
//! Standard deviations are passed in tenths, so that the secure
//! profile's 3.2 stays expressible without floating point: a draw with
//! deviation `sd` tenths is taken at ten times the target deviation and
//! then divided by ten with rounding, which is a draw from the target
//! Gaussian up to the rounding of the intermediate value.

use vstd::prelude::*;

use num::bigint::RandBigInt;

use crate::bigint::{bigint_add, bigint_div_floor, bigint_from, bigint_random_below, int_of};
use crate::poly::Polynomial;

verus! {

broadcast use crate::bigint::lemma_ints_of_push;

#[verifier::external_type_specification]
#[verifier::external_body]
pub struct ExStdRng(rand::rngs::StdRng);

/// Relies on the `probability` crate's ziggurat Gaussian sampler: one
/// draw from a Gaussian of mean zero and the given standard deviation,
/// rounded to the nearest integer. The generator is freshly seeded from
/// the operating system through `rand`; nothing is promised of the
/// value.
#[verifier::external_body]
fn gaussian_draw(sigma: u32) -> (r: i64)
    requires
        sigma >= 1,
{
    let g = probability::distribution::Gaussian::new(Into::into(0u32), Into::into(sigma));
    let mut src = probability::source::default(rand::random());
    let x = probability::distribution::Sample::sample(&g, &mut src);
    x.round() as i64
}

/// A sample from the `n`-dimensional discrete Gaussian with standard
/// deviation `sd / 10`: each coefficient is an independent rounded
/// Gaussian draw.
pub fn sample_from_gaussian(sd: u64, n: usize) -> (r: Polynomial)
    requires
        1 <= sd <= u32::MAX,
    ensures
        r@.len() == n,
{
    let five = bigint_from(5);
    let ten = bigint_from(10);
    let mut v: Vec<num::BigInt> = Vec::new();
    let mut i: usize = 0;
    while i < n
        invariant
            v@.len() == i,
            i <= n,
            1 <= sd <= u32::MAX,
            int_of(five) == 5,
            int_of(ten) == 10,
        decreases n - i,
    {
        let raw = bigint_from(gaussian_draw(sd as u32));
        let c = bigint_div_floor(&bigint_add(&raw, &five), &ten);
        v.push(c);
        i += 1;
    }
    Polynomial::new(v)
}

/// `n` independent uniform samples from `[0, q)`, as the coefficients
/// of a polynomial of length exactly `n`.
pub fn sample_from_uniform(q: &num::BigInt, n: usize) -> (r: Polynomial)
    requires
        int_of(*q) > 0,
    ensures
        r@.len() == n,
        forall|i: int| 0 <= i < n ==> 0 <= #[trigger] r@[i] < int_of(*q),
{
    let mut v: Vec<num::BigInt> = Vec::new();
    let mut i: usize = 0;
    while i < n
        invariant
            v@.len() == i,
            i <= n,
            int_of(*q) > 0,
            forall|j: int|
                0 <= j < i ==> 0 <= #[trigger] crate::bigint::ints_of(v@)[j] < int_of(*q),
        decreases n - i,
    {
        v.push(bigint_random_below(q));
        i += 1;
    }
    Polynomial::new(v)
}

/// One uniform sample from `[0, t)`.
pub fn sample_single(t: &num::BigInt) -> (r: num::BigInt)
    requires
        int_of(*t) > 0,
    ensures
        0 <= int_of(r) < int_of(*t),
{
    bigint_random_below(t)
}

/// Relies on rand's `StdRng::from_seed`: a deterministic generator
/// seeded with the given 32 bytes. Every party seeding with the same
/// bytes draws the same stream.
#[verifier::external_body]
pub fn rng_from_seed(seed: &[u8]) -> (r: rand::rngs::StdRng)
    requires
        seed@.len() == 32,
{
    let mut s = [0u8; 32];
    s.copy_from_slice(seed);
    <rand::rngs::StdRng as rand::SeedableRng>::from_seed(s)
}

/// Relies on `num_bigint`'s `RandBigInt::gen_bigint_range` over a
/// seeded `StdRng`: a draw from `[0, t)`, deterministic in the
/// generator's state.
#[verifier::external_body]
pub fn sample_single_seeded(rng: &mut rand::rngs::StdRng, t: &num::BigInt) -> (r: num::BigInt)
    requires
        int_of(*t) > 0,
    ensures
        0 <= int_of(r) < int_of(*t),
{
    rng.gen_bigint_range(&num::BigInt::from(0i64), t)
}

} // verus!
