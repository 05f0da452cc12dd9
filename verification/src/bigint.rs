//! Trusted interface to `num::BigInt`, the arbitrary-precision signed
//! integers that every layer of the library computes with.
//!
//! Verus sees a `num::BigInt` as an opaque value; the uninterpreted
//! function [`int_of`] names the mathematical integer it holds, and each
//! wrapper below states, over `int_of`, exactly what the corresponding
//! `num` operation returns.

use vstd::prelude::*;

use num::bigint::RandBigInt;

verus! {

#[verifier::external_type_specification]
#[verifier::external_body]
pub struct ExBigInt(num::BigInt);

/// The mathematical integer held by a `num::BigInt`.
pub uninterp spec fn int_of(x: num::BigInt) -> int;

/// Relies on `num::BigInt: From<i64>`.
#[verifier::external_body]
pub fn bigint_from(x: i64) -> (r: num::BigInt)
    ensures
        int_of(r) == x as int,
{
    num::BigInt::from(x)
}

/// Relies on `num::BigInt: Clone`: a clone holds the same integer.
pub assume_specification[ <num::BigInt as Clone>::clone ](a: &num::BigInt) -> (r: num::BigInt)
    ensures
        int_of(r) == int_of(*a),
;

/// A clone of a big integer, holding the same integer.
pub fn bigint_clone(a: &num::BigInt) -> (r: num::BigInt)
    ensures
        int_of(r) == int_of(*a),
{
    a.clone()
}

/// Relies on `num::BigInt: PartialEq`, which compares the held integers.
#[verifier::external_body]
pub fn bigint_eq(a: &num::BigInt, b: &num::BigInt) -> (r: bool)
    ensures
        r == (int_of(*a) == int_of(*b)),
{
    a == b
}

/// Relies on `num::BigInt: Ord`, which orders by the held integers.
#[verifier::external_body]
pub fn bigint_le(a: &num::BigInt, b: &num::BigInt) -> (r: bool)
    ensures
        r == (int_of(*a) <= int_of(*b)),
{
    a <= b
}

/// Relies on `num::BigInt: Ord`, which orders by the held integers.
#[verifier::external_body]
pub fn bigint_lt(a: &num::BigInt, b: &num::BigInt) -> (r: bool)
    ensures
        r == (int_of(*a) < int_of(*b)),
{
    a < b
}

/// Relies on `num::BigInt: Add`.
#[verifier::external_body]
pub fn bigint_add(a: &num::BigInt, b: &num::BigInt) -> (r: num::BigInt)
    ensures
        int_of(r) == int_of(*a) + int_of(*b),
{
    a + b
}

/// Relies on `num::BigInt: Sub`.
#[verifier::external_body]
pub fn bigint_sub(a: &num::BigInt, b: &num::BigInt) -> (r: num::BigInt)
    ensures
        int_of(r) == int_of(*a) - int_of(*b),
{
    a - b
}

/// Relies on `num::BigInt: Neg`.
#[verifier::external_body]
pub fn bigint_neg(a: &num::BigInt) -> (r: num::BigInt)
    ensures
        int_of(r) == -int_of(*a),
{
    -a
}

/// Relies on `num::BigInt: Mul`.
#[verifier::external_body]
pub fn bigint_mul(a: &num::BigInt, b: &num::BigInt) -> (r: num::BigInt)
    ensures
        int_of(r) == int_of(*a) * int_of(*b),
{
    a * b
}

/// Truncated division, as `num::BigInt: Div` computes it.
pub open spec fn trunc_div(a: int, b: int) -> int {
    if a >= 0 {
        if b >= 0 {
            a / b
        } else {
            -(a / -b)
        }
    } else {
        if b >= 0 {
            -(-a / b)
        } else {
            -a / -b
        }
    }
}

/// Relies on `num::BigInt: Div`, which truncates toward zero.
#[verifier::external_body]
pub fn bigint_div(a: &num::BigInt, b: &num::BigInt) -> (r: num::BigInt)
    requires
        int_of(*b) != 0,
    ensures
        int_of(r) == trunc_div(int_of(*a), int_of(*b)),
{
    a / b
}

/// Relies on `num_integer::Integer::div_floor` for `num::BigInt`.
#[verifier::external_body]
pub fn bigint_div_floor(a: &num::BigInt, b: &num::BigInt) -> (r: num::BigInt)
    requires
        int_of(*b) > 0,
    ensures
        int_of(r) == int_of(*a) / int_of(*b),
{
    num::Integer::div_floor(a, b)
}

/// Relies on `num_integer::Integer::mod_floor` for `num::BigInt`: for a
/// positive modulus the result is the Euclidean remainder, in `[0, m)`.
#[verifier::external_body]
pub fn bigint_rem_euc(a: &num::BigInt, m: &num::BigInt) -> (r: num::BigInt)
    requires
        int_of(*m) > 0,
    ensures
        int_of(r) == int_of(*a) % int_of(*m),
{
    num::Integer::mod_floor(a, m)
}

/// Relies on `num::BigInt::sqrt`: the truncated principal square root.
#[verifier::external_body]
pub fn bigint_sqrt(a: &num::BigInt) -> (r: num::BigInt)
    requires
        int_of(*a) >= 0,
    ensures
        int_of(r) >= 0,
        int_of(r) * int_of(r) <= int_of(*a),
        (int_of(r) + 1) * (int_of(r) + 1) > int_of(*a),
{
    a.sqrt()
}

/// The minimal big-endian base-256 digits of a non-negative integer
/// (empty for zero).
pub open spec fn be_digits(v: nat) -> Seq<u8>
    decreases v,
{
    if v == 0 {
        Seq::empty()
    } else {
        be_digits(v / 256) + seq![(v % 256) as u8]
    }
}

/// The non-negative integer read from big-endian base-256 digits.
pub open spec fn be_value(s: Seq<u8>) -> int
    decreases s.len(),
{
    if s.len() == 0 {
        0
    } else {
        be_value(s.drop_last()) * 256 + s.last()
    }
}

/// Relies on `num::BigInt::to_bytes_be`: the big-endian magnitude bytes
/// (a single zero byte for zero).
#[verifier::external_body]
pub fn bigint_magnitude_bytes(a: &num::BigInt) -> (r: Vec<u8>)
    requires
        int_of(*a) >= 0,
    ensures
        int_of(*a) == 0 ==> r@ == seq![0u8],
        int_of(*a) > 0 ==> r@ == be_digits(int_of(*a) as nat),
{
    a.to_bytes_be().1
}

/// Relies on `num::BigInt::from_bytes_be` with a non-negative sign.
#[verifier::external_body]
pub fn bigint_from_bytes_be(b: &[u8]) -> (r: num::BigInt)
    ensures
        int_of(r) == be_value(b@),
{
    num::BigInt::from_bytes_be(num::bigint::Sign::Plus, b)
}

/// Relies on `num_bigint`'s `RandBigInt::gen_bigint_range` over
/// `rand::rngs::OsRng`: a uniform draw from `[0, bound)` seeded by the
/// operating system. Nothing but the range is promised of the draw.
#[verifier::external_body]
pub fn bigint_random_below(bound: &num::BigInt) -> (r: num::BigInt)
    requires
        int_of(*bound) > 0,
    ensures
        0 <= int_of(r) < int_of(*bound),
{
    rand::rngs::OsRng.gen_bigint_range(&num::BigInt::from(0i64), bound)
}

/// An element-wise clone of a vector of big integers.
pub fn bigints_cloned(v: &Vec<num::BigInt>) -> (r: Vec<num::BigInt>)
    ensures
        ints_of(r@) == ints_of(v@),
{
    let mut out: Vec<num::BigInt> = Vec::new();
    let n = v.len();
    let mut i: usize = 0;
    while i < n
        invariant
            n == v@.len(),
            i <= n,
            out@.len() == i,
            forall|j: int| 0 <= j < i ==> ints_of(out@)[j] == ints_of(v@)[j],
        decreases n - i,
    {
        out.push(bigint_clone(&v[i]));
        i += 1;
    }
    proof {
        assert(ints_of(out@) =~= ints_of(v@));
    }
    out
}

/// The integer sequence held by a sequence of big integers.
pub open spec fn ints_of(s: Seq<num::BigInt>) -> Seq<int> {
    Seq::new(s.len(), |i: int| int_of(s[i]))
}

pub broadcast proof fn lemma_ints_of_push(s: Seq<num::BigInt>, v: num::BigInt)
    ensures
        #[trigger] ints_of(s.push(v)) =~= ints_of(s).push(int_of(v)),
{
}

pub broadcast proof fn lemma_ints_of_update(s: Seq<num::BigInt>, i: int, v: num::BigInt)
    requires
        0 <= i < s.len(),
    ensures
        #[trigger] ints_of(s.update(i, v)) =~= ints_of(s).update(i, int_of(v)),
{
}

pub broadcast proof fn lemma_ints_of_drop_last(s: Seq<num::BigInt>)
    requires
        s.len() >= 1,
    ensures
        #[trigger] ints_of(s.drop_last()) =~= ints_of(s).drop_last(),
{
}

} // verus!
