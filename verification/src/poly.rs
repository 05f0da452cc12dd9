//! Dense polynomials with arbitrary-precision integer coefficients.
//!
//! A polynomial is a vector of coefficients, index `i` holding the
//! coefficient of `x^i`. Operations return trimmed results: trailing
//! zero coefficients are removed, the zero polynomial being the single
//! coefficient `0`. The view of a polynomial is the mathematical
//! sequence of its coefficients, and every operation's contract states
//! the returned sequence exactly.

use vstd::prelude::*;

use crate::bigint::{
    bigint_add, bigint_clone, bigint_div, bigint_eq, bigint_from, bigint_lt, bigint_mul,
    bigint_neg, bigint_rem_euc, bigint_sub, int_of, ints_of, lemma_ints_of_drop_last,
    lemma_ints_of_update,
};

verus! {

broadcast use crate::bigint::lemma_ints_of_push, crate::bigint::lemma_ints_of_update, crate::bigint::lemma_ints_of_drop_last;

/// Coefficient `i` of a coefficient sequence, `0` beyond its length.
pub open spec fn index_or0(a: Seq<int>, i: int) -> int {
    if 0 <= i < a.len() {
        a[i]
    } else {
        0
    }
}

pub open spec fn spec_max(a: int, b: int) -> int {
    if a >= b {
        a
    } else {
        b
    }
}

pub open spec fn abs_int(a: int) -> int {
    if a < 0 {
        -a
    } else {
        a
    }
}

/// The sequence with trailing zeros removed; a zero polynomial keeps a
/// single coefficient.
pub open spec fn trim_seq(s: Seq<int>) -> Seq<int>
    decreases s.len(),
{
    if s.len() <= 1 {
        s
    } else if s.last() == 0 {
        trim_seq(s.drop_last())
    } else {
        s
    }
}

/// Trimming is idempotent.
pub proof fn lemma_trim_idem(s: Seq<int>)
    ensures
        trim_seq(trim_seq(s)) == trim_seq(s),
    decreases s.len(),
{
    if s.len() <= 1 {
    } else if s.last() == 0 {
        lemma_trim_idem(s.drop_last());
    }
}

/// Trimming removes only zero coefficients: read through `index_or0`,
/// the sequence is unchanged.
pub proof fn lemma_trim_index(s: Seq<int>, i: int)
    ensures
        index_or0(trim_seq(s), i) == index_or0(s, i),
    decreases s.len(),
{
    if s.len() <= 1 {
    } else if s.last() == 0 {
        lemma_trim_index(s.drop_last(), i);
    }
}

/// A trimmed sequence is never longer than the original.
pub proof fn lemma_trim_len(s: Seq<int>)
    ensures
        trim_seq(s).len() <= s.len(),
        s.len() >= 1 ==> trim_seq(s).len() >= 1,
    decreases s.len(),
{
    if s.len() <= 1 {
    } else if s.last() == 0 {
        lemma_trim_len(s.drop_last());
    }
}

/// Coefficient-wise sum, the shorter argument padded with zeros.
pub open spec fn add_seq(a: Seq<int>, b: Seq<int>) -> Seq<int> {
    Seq::new(spec_max(a.len() as int, b.len() as int) as nat, |i: int| index_or0(a, i) + index_or0(b, i))
}

/// Coefficient-wise difference, the shorter argument padded with zeros.
pub open spec fn sub_seq(a: Seq<int>, b: Seq<int>) -> Seq<int> {
    Seq::new(spec_max(a.len() as int, b.len() as int) as nat, |i: int| index_or0(a, i) - index_or0(b, i))
}

pub open spec fn neg_seq(a: Seq<int>) -> Seq<int> {
    Seq::new(a.len(), |i: int| -a[i])
}

pub open spec fn scale_seq(a: Seq<int>, t: int) -> Seq<int> {
    Seq::new(a.len(), |i: int| a[i] * t)
}

/// Coefficient-wise Euclidean remainder, for a positive modulus.
pub open spec fn mod_seq(a: Seq<int>, m: int) -> Seq<int> {
    Seq::new(a.len(), |i: int| a[i] % m)
}

/// Each coefficient lifted into the centered range: `c - q` when
/// `c > q / 2`, else `c`.
pub open spec fn centered_seq(a: Seq<int>, q: int) -> Seq<int> {
    Seq::new(a.len(), |i: int| if a[i] > q / 2 { a[i] - q } else { a[i] })
}

/// `a` shifted up by `k` positions: multiplication by `x^k`.
pub open spec fn shift_seq(a: Seq<int>, k: int) -> Seq<int> {
    Seq::new((a.len() + k) as nat, |i: int| if i < k { 0 } else { a[i - k] })
}

/// The largest absolute value among the first `n` coefficients.
pub open spec fn norm_prefix(a: Seq<int>, n: int) -> int
    decreases n,
{
    if n <= 0 {
        0
    } else {
        spec_max(norm_prefix(a, n - 1), abs_int(a[n - 1]))
    }
}

/// The L-infinity norm: the largest absolute value of a coefficient.
pub open spec fn norm_seq(a: Seq<int>) -> int {
    norm_prefix(a, a.len() as int)
}

/// The convolution sum `sum_{i < n} a[i] * b[k - i]`, terms outside
/// either sequence counting as zero.
pub open spec fn conv_partial(a: Seq<int>, b: Seq<int>, k: int, n: int) -> int
    decreases n,
{
    if n <= 0 {
        0
    } else {
        conv_partial(a, b, k, n - 1) + (if n - 1 < a.len() && 0 <= k - (n - 1) < b.len() {
            a[n - 1] * b[k - (n - 1)]
        } else {
            0
        })
    }
}

/// The product polynomial: coefficient `k` is the full convolution sum.
pub open spec fn mul_seq(a: Seq<int>, b: Seq<int>) -> Seq<int>
    recommends
        a.len() >= 1,
        b.len() >= 1,
{
    Seq::new((a.len() + b.len() - 1) as nat, |k: int| conv_partial(a, b, k, a.len() as int))
}

#[derive(Clone, Debug)]
pub struct Polynomial {
    coeffs: Vec<num::BigInt>,
}

impl View for Polynomial {
    type V = Seq<int>;

    closed spec fn view(&self) -> Seq<int> {
        ints_of(self.coeffs@)
    }
}

impl vstd::std_specs::cmp::PartialEqSpecImpl for Polynomial {
    open spec fn obeys_eq_spec() -> bool {
        true
    }

    open spec fn eq_spec(&self, other: &Polynomial) -> bool {
        self@ == other@
    }
}

impl PartialEq for Polynomial {
    /// Structural equality of the coefficient sequences.
    fn eq(&self, other: &Polynomial) -> (r: bool) {
        if self.coeffs.len() != other.coeffs.len() {
            proof {
                assert(self@.len() != other@.len());
            }
            return false;
        }
        let n = self.coeffs.len();
        let mut i: usize = 0;
        while i < n
            invariant
                n == self.coeffs.len() == other.coeffs.len(),
                i <= n,
                forall|j: int| 0 <= j < i ==> self@[j] == other@[j],
            decreases n - i,
        {
            if !bigint_eq(&self.coeffs[i], &other.coeffs[i]) {
                proof {
                    assert(self@[i as int] != other@[i as int]);
                }
                return false;
            }
            i += 1;
        }
        proof {
            assert(self@ =~= other@);
        }
        true
    }
}

impl Polynomial {
    pub fn new(coefficients: Vec<num::BigInt>) -> (r: Polynomial)
        ensures
            r@ == ints_of(coefficients@),
    {
        Polynomial { coeffs: coefficients }
    }

    /// The zero polynomial, a single zero coefficient.
    pub fn zero() -> (r: Polynomial)
        ensures
            r@ =~= seq![0int],
    {
        let mut v: Vec<num::BigInt> = Vec::new();
        v.push(bigint_from(0));
        Polynomial { coeffs: v }
    }

    /// The constant polynomial `1`.
    pub fn one() -> (r: Polynomial)
        ensures
            r@ =~= seq![1int],
    {
        let mut v: Vec<num::BigInt> = Vec::new();
        v.push(bigint_from(1));
        Polynomial { coeffs: v }
    }

    /// The constant polynomial holding one given coefficient.
    pub fn constant(c: num::BigInt) -> (r: Polynomial)
        ensures
            r@ =~= seq![int_of(c)],
    {
        let mut v: Vec<num::BigInt> = Vec::new();
        v.push(c);
        Polynomial { coeffs: v }
    }

    pub fn cloned(&self) -> (r: Polynomial)
        ensures
            r@ == self@,
    {
        let mut v: Vec<num::BigInt> = Vec::new();
        let n = self.coeffs.len();
        let mut i: usize = 0;
        while i < n
            invariant
                n == self.coeffs.len(),
                i <= n,
                v@.len() == i,
                forall|j: int| 0 <= j < i ==> ints_of(v@)[j] == self@[j],
            decreases n - i,
        {
            v.push(bigint_clone(&self.coeffs[i]));
            i += 1;
        }
        proof {
            assert(ints_of(v@) =~= self@);
        }
        Polynomial { coeffs: v }
    }

    pub fn len(&self) -> (r: usize)
        ensures
            r == self@.len(),
    {
        self.coeffs.len()
    }

    pub fn degree(&self) -> (r: usize)
        requires
            self@.len() >= 1,
        ensures
            r == self@.len() - 1,
    {
        self.coeffs.len() - 1
    }

    pub fn coefficients(&self) -> (r: &Vec<num::BigInt>)
        ensures
            ints_of(r@) == self@,
    {
        &self.coeffs
    }

    pub fn coefficient(&self, index: usize) -> (r: &num::BigInt)
        requires
            index < self@.len(),
        ensures
            int_of(*r) == self@[index as int],
    {
        &self.coeffs[index]
    }

    /// The same polynomial with trailing zero coefficients removed.
    pub fn trim_res(&self) -> (r: Polynomial)
        ensures
            r@ == trim_seq(self@),
    {
        let mut res = self.cloned();
        let zero = bigint_from(0);
        while res.coeffs.len() > 1 && bigint_eq(&res.coeffs[res.coeffs.len() - 1], &zero)
            invariant
                int_of(zero) == 0,
                trim_seq(ints_of(res.coeffs@)) == trim_seq(self@),
            decreases res.coeffs@.len(),
        {
            proof {
                lemma_ints_of_drop_last(res.coeffs@);
            }
            let _ = res.coeffs.pop();
        }
        proof {
            assert(res@ == trim_seq(self@));
        }
        res
    }

    /// Multiplication by `x^n`: `n` zero coefficients are prepended.
    pub fn shift_poly(&self, n: usize) -> (r: Polynomial)
        requires
            self@.len() + n <= usize::MAX,
        ensures
            r@ == shift_seq(self@, n as int),
    {
        let mut v: Vec<num::BigInt> = Vec::new();
        let mut i: usize = 0;
        while i < n
            invariant
                i <= n,
                v@.len() == i,
                forall|j: int| 0 <= j < i ==> ints_of(v@)[j] == 0,
            decreases n - i,
        {
            v.push(bigint_from(0));
            i += 1;
        }
        let len = self.coeffs.len();
        let mut k: usize = 0;
        while k < len
            invariant
                len == self.coeffs.len(),
                k <= len,
                v@.len() == n + k,
                forall|j: int| 0 <= j < n ==> ints_of(v@)[j] == 0,
                forall|j: int| n <= j < n + k ==> ints_of(v@)[j] == self@[j - n],
            decreases len - k,
        {
            v.push(bigint_clone(&self.coeffs[k]));
            k += 1;
        }
        proof {
            assert(ints_of(v@) =~= shift_seq(self@, n as int));
        }
        Polynomial { coeffs: v }
    }

    /// The largest absolute value among the coefficients.
    pub fn l_inf_norm(&self) -> (r: num::BigInt)
        ensures
            int_of(r) == norm_seq(self@),
            int_of(r) >= 0,
    {
        let mut norm = bigint_from(0);
        let zero = bigint_from(0);
        let n = self.coeffs.len();
        let mut i: usize = 0;
        while i < n
            invariant
                n == self.coeffs.len(),
                i <= n,
                int_of(zero) == 0,
                int_of(norm) == norm_prefix(self@, i as int),
                int_of(norm) >= 0,
            decreases n - i,
        {
            let c = &self.coeffs[i];
            let abs_c = if bigint_lt(c, &zero) {
                bigint_neg(c)
            } else {
                bigint_clone(c)
            };
            if bigint_lt(&norm, &abs_c) {
                norm = abs_c;
            }
            i += 1;
        }
        norm
    }

    /// Coefficient-wise Euclidean remainder, then trimming.
    pub fn modulo(&self, modulus: &num::BigInt) -> (r: Polynomial)
        requires
            int_of(*modulus) > 0,
        ensures
            r@ == trim_seq(mod_seq(self@, int_of(*modulus))),
    {
        let mut v: Vec<num::BigInt> = Vec::new();
        let n = self.coeffs.len();
        let mut i: usize = 0;
        while i < n
            invariant
                n == self.coeffs.len(),
                i <= n,
                int_of(*modulus) > 0,
                v@.len() == i,
                forall|j: int| 0 <= j < i ==> ints_of(v@)[j] == mod_seq(self@, int_of(*modulus))[j],
            decreases n - i,
        {
            v.push(bigint_rem_euc(&self.coeffs[i], modulus));
            i += 1;
        }
        proof {
            assert(ints_of(v@) =~= mod_seq(self@, int_of(*modulus)));
        }
        Polynomial { coeffs: v }.trim_res()
    }

    /// Each coefficient above `q / 2` is replaced by its centered
    /// representative `c - q`.
    pub fn normalized_coefficients(&self, q: &num::BigInt) -> (r: Polynomial)
        requires
            int_of(*q) > 0,
        ensures
            r@ == centered_seq(self@, int_of(*q)),
    {
        let two = bigint_from(2);
        let q_half = bigint_div(q, &two);
        let mut v: Vec<num::BigInt> = Vec::new();
        let n = self.coeffs.len();
        let mut i: usize = 0;
        while i < n
            invariant
                n == self.coeffs.len(),
                i <= n,
                int_of(*q) > 0,
                int_of(q_half) == int_of(*q) / 2,
                v@.len() == i,
                forall|j: int| 0 <= j < i ==> ints_of(v@)[j] == centered_seq(self@, int_of(*q))[j],
            decreases n - i,
        {
            let c = &self.coeffs[i];
            if bigint_lt(&q_half, c) {
                v.push(bigint_sub(c, q));
            } else {
                v.push(bigint_clone(c));
            }
            i += 1;
        }
        proof {
            assert(ints_of(v@) =~= centered_seq(self@, int_of(*q)));
        }
        Polynomial { coeffs: v }
    }

    /// Coefficient `i`, or zero beyond the stored length.
    pub fn coeff_or_zero(&self, i: usize) -> (r: num::BigInt)
        ensures
            int_of(r) == index_or0(self@, i as int),
    {
        if i < self.coeffs.len() {
            bigint_clone(&self.coeffs[i])
        } else {
            bigint_from(0)
        }
    }

    /// Coefficient-wise sum, trimmed.
    pub fn add(&self, rhs: &Polynomial) -> (r: Polynomial)
        ensures
            r@ == trim_seq(add_seq(self@, rhs@)),
    {
        let n = if self.coeffs.len() >= rhs.coeffs.len() {
            self.coeffs.len()
        } else {
            rhs.coeffs.len()
        };
        let mut v: Vec<num::BigInt> = Vec::new();
        let mut i: usize = 0;
        while i < n
            invariant
                n == spec_max(self@.len() as int, rhs@.len() as int),
                i <= n,
                v@.len() == i,
                forall|j: int| 0 <= j < i ==> ints_of(v@)[j] == add_seq(self@, rhs@)[j],
            decreases n - i,
        {
            let a = self.coeff_or_zero(i);
            let b = rhs.coeff_or_zero(i);
            v.push(bigint_add(&a, &b));
            i += 1;
        }
        proof {
            assert(ints_of(v@) =~= add_seq(self@, rhs@));
        }
        Polynomial { coeffs: v }.trim_res()
    }

    /// Coefficient-wise difference, trimmed.
    pub fn sub(&self, rhs: &Polynomial) -> (r: Polynomial)
        ensures
            r@ == trim_seq(sub_seq(self@, rhs@)),
    {
        let n = if self.coeffs.len() >= rhs.coeffs.len() {
            self.coeffs.len()
        } else {
            rhs.coeffs.len()
        };
        let mut v: Vec<num::BigInt> = Vec::new();
        let mut i: usize = 0;
        while i < n
            invariant
                n == spec_max(self@.len() as int, rhs@.len() as int),
                i <= n,
                v@.len() == i,
                forall|j: int| 0 <= j < i ==> ints_of(v@)[j] == sub_seq(self@, rhs@)[j],
            decreases n - i,
        {
            let a = self.coeff_or_zero(i);
            let b = rhs.coeff_or_zero(i);
            v.push(bigint_sub(&a, &b));
            i += 1;
        }
        proof {
            assert(ints_of(v@) =~= sub_seq(self@, rhs@));
        }
        Polynomial { coeffs: v }.trim_res()
    }

    /// Coefficient-wise negation, trimmed.
    pub fn neg(&self) -> (r: Polynomial)
        ensures
            r@ == trim_seq(neg_seq(self@)),
    {
        let n = self.coeffs.len();
        let mut v: Vec<num::BigInt> = Vec::new();
        let mut i: usize = 0;
        while i < n
            invariant
                n == self.coeffs.len(),
                i <= n,
                v@.len() == i,
                forall|j: int| 0 <= j < i ==> ints_of(v@)[j] == neg_seq(self@)[j],
            decreases n - i,
        {
            v.push(bigint_neg(&self.coeffs[i]));
            i += 1;
        }
        proof {
            assert(ints_of(v@) =~= neg_seq(self@));
        }
        Polynomial { coeffs: v }.trim_res()
    }

    /// Multiplication of every coefficient by a scalar, trimmed.
    pub fn mul_scalar(&self, t: &num::BigInt) -> (r: Polynomial)
        ensures
            r@ == trim_seq(scale_seq(self@, int_of(*t))),
    {
        let n = self.coeffs.len();
        let mut v: Vec<num::BigInt> = Vec::new();
        let mut i: usize = 0;
        while i < n
            invariant
                n == self.coeffs.len(),
                i <= n,
                v@.len() == i,
                forall|j: int| 0 <= j < i ==> ints_of(v@)[j] == scale_seq(self@, int_of(*t))[j],
            decreases n - i,
        {
            v.push(bigint_mul(&self.coeffs[i], t));
            i += 1;
        }
        proof {
            assert(ints_of(v@) =~= scale_seq(self@, int_of(*t)));
        }
        Polynomial { coeffs: v }.trim_res()
    }

    /// Schoolbook product of the two polynomials, trimmed.
    pub fn mul(&self, rhs: &Polynomial) -> (r: Polynomial)
        requires
            self@.len() >= 1,
            rhs@.len() >= 1,
            self@.len() + rhs@.len() <= usize::MAX,
        ensures
            r@ == trim_seq(mul_seq(self@, rhs@)),
    {
        let la = self.coeffs.len();
        let lb = rhs.coeffs.len();
        let out_len = la + lb - 1;
        let mut v: Vec<num::BigInt> = Vec::new();
        let mut k: usize = 0;
        while k < out_len
            invariant
                out_len == la + lb - 1,
                k <= out_len,
                v@.len() == k,
                forall|j: int| 0 <= j < k ==> ints_of(v@)[j] == 0,
            decreases out_len - k,
        {
            v.push(bigint_from(0));
            k += 1;
        }
        let mut i: usize = 0;
        while i < la
            invariant
                la == self.coeffs.len(),
                lb == rhs.coeffs.len(),
                la >= 1,
                lb >= 1,
                out_len == la + lb - 1,
                i <= la,
                v@.len() == out_len,
                forall|j: int|
                    0 <= j < out_len ==> ints_of(v@)[j] == conv_partial(self@, rhs@, j, i as int),
            decreases la - i,
        {
            let mut j: usize = 0;
            while j < lb
                invariant
                    la == self.coeffs.len(),
                    lb == rhs.coeffs.len(),
                    la >= 1,
                    lb >= 1,
                    out_len == la + lb - 1,
                    i < la,
                    j <= lb,
                    v@.len() == out_len,
                    forall|m: int|
                        0 <= m < out_len ==> ints_of(v@)[m] == conv_partial(self@, rhs@, m, i as int)
                            + (if i <= m < i + j {
                                self@[i as int] * rhs@[m - i]
                            } else {
                                0
                            }),
                decreases lb - j,
            {
                let prod = bigint_mul(&self.coeffs[i], &rhs.coeffs[j]);
                let sum = bigint_add(&v[i + j], &prod);
                let ghost prev = v@;
                v.set(i + j, sum);
                proof {
                    lemma_ints_of_update(prev, i + j, sum);
                    assert forall|m: int| 0 <= m < out_len implies ints_of(v@)[m] == conv_partial(
                        self@,
                        rhs@,
                        m,
                        i as int,
                    ) + (if i <= m < i + j + 1 {
                        self@[i as int] * rhs@[m - i]
                    } else {
                        0
                    }) by {
                        if m == i + j {
                            assert(ints_of(v@)[m] == int_of(sum));
                            assert(ints_of(prev)[m] == conv_partial(self@, rhs@, m, i as int));
                        } else {
                            assert(ints_of(v@)[m] == ints_of(prev)[m]);
                        }
                    }
                }
                j += 1;
            }
            proof {
                assert forall|m: int| 0 <= m < out_len implies ints_of(v@)[m] == conv_partial(
                    self@,
                    rhs@,
                    m,
                    i + 1,
                ) by {
                    assert(conv_partial(self@, rhs@, m, i + 1) == conv_partial(self@, rhs@, m, i as int)
                        + (if i < self@.len() && 0 <= m - i < rhs@.len() {
                            self@[i as int] * rhs@[m - i]
                        } else {
                            0
                        }));
                }
            }
            i += 1;
        }
        proof {
            assert(ints_of(v@) =~= mul_seq(self@, rhs@));
        }
        Polynomial { coeffs: v }.trim_res()
    }
}

} // verus!
