//! The quotient ring R_q = Z_q[x] / f(x).
//!
//! `reduce` is polynomial long division by the ring's modulus
//! polynomial followed by coefficient reduction modulo `q`; the other
//! operations combine a polynomial operation with a `reduce`. Every
//! contract states the returned coefficient sequence exactly, through
//! the algorithmic mirror [`rq_reduce`] of the division loop.
//!
//! Long division by a divisor whose leading coefficient does not divide
//! the dividend's can stall (the quotient term truncates to something
//! that does not cancel the leading coefficient). For the cyclotomic
//! modulus x^N + 1 used throughout the protocol this never happens; the
//! loop below stops rather than repeating such a step, which
//! [`rem_loop`] mirrors faithfully.

use vstd::prelude::*;

use crate::bigint::{bigint_div, int_of, trunc_div};
use crate::poly::{
    add_seq, index_or0, lemma_trim_idem, lemma_trim_index, lemma_trim_len, mod_seq, mul_seq,
    neg_seq, scale_seq, shift_seq, sub_seq, trim_seq, Polynomial,
};

verus! {

pub struct Rq {
    pub q: num::BigInt,
    pub modulo: Polynomial,
}

/// One division step: subtract the divisor, scaled by the truncated
/// quotient of the leading coefficients and shifted up to the leading
/// position of `r`.
pub open spec fn rem_step(r: Seq<int>, f: Seq<int>) -> Seq<int> {
    let t = trunc_div(r.last(), f.last());
    trim_seq(sub_seq(r, shift_seq(trim_seq(scale_seq(f, t)), r.len() - f.len())))
}

/// The remainder that the division loop computes: steps are taken while
/// the remainder is at least as long as the divisor, and the loop stops
/// after a step that fails to shorten the remainder.
pub open spec fn rem_loop(r: Seq<int>, f: Seq<int>) -> Seq<int>
    decreases r.len(),
{
    if f.len() < 1 || r.len() < f.len() {
        r
    } else {
        let next = rem_step(r, f);
        if next.len() < r.len() {
            rem_loop(next, f)
        } else {
            next
        }
    }
}

/// What `Rq::reduce` returns: the division remainder of the trimmed
/// input, its coefficients reduced into `[0, q)`, trimmed.
pub open spec fn rq_reduce(q: int, f: Seq<int>, a: Seq<int>) -> Seq<int> {
    trim_seq(mod_seq(rem_loop(trim_seq(a), f), q))
}

pub open spec fn rq_add(q: int, f: Seq<int>, a: Seq<int>, b: Seq<int>) -> Seq<int> {
    rq_reduce(q, f, add_seq(a, b))
}

pub open spec fn rq_sub(q: int, f: Seq<int>, a: Seq<int>, b: Seq<int>) -> Seq<int> {
    rq_reduce(q, f, sub_seq(a, b))
}

pub open spec fn rq_neg(q: int, f: Seq<int>, a: Seq<int>) -> Seq<int> {
    rq_reduce(q, f, neg_seq(a))
}

pub open spec fn rq_times(q: int, f: Seq<int>, a: Seq<int>, t: int) -> Seq<int> {
    rq_reduce(q, f, scale_seq(a, t))
}

pub open spec fn rq_mul(q: int, f: Seq<int>, a: Seq<int>, b: Seq<int>) -> Seq<int> {
    rq_reduce(q, f, mul_seq(a, b))
}

/// Under a monic divisor every division step cancels the leading
/// coefficient, so the loop always terminates with a remainder shorter
/// than the divisor.
pub proof fn lemma_rem_loop_monic(r: Seq<int>, f: Seq<int>)
    requires
        f.len() >= 2,
        f.last() == 1,
        trim_seq(r) == r,
        r.len() >= 1,
    ensures
        1 <= rem_loop(r, f).len() < f.len(),
        trim_seq(rem_loop(r, f)) == rem_loop(r, f),
    decreases r.len(),
{
    if r.len() < f.len() {
    } else {
        let t = trunc_div(r.last(), f.last());
        assert(t == r.last());
        assert(r.last() != 0) by {
            lemma_trim_last(r);
        }
        let scaled = scale_seq(f, t);
        assert(scaled.last() == f.last() * t);
        assert(trim_seq(scaled) == scaled);
        let shifted = shift_seq(scaled, r.len() - f.len());
        let diff = sub_seq(r, shifted);
        assert(diff.len() == r.len());
        assert(shifted.last() == scaled.last());
        assert(diff.last() == r.last() - shifted.last());
        assert(diff.last() == 0);
        let next = rem_step(r, f);
        assert(next == trim_seq(diff));
        assert(trim_seq(diff) == trim_seq(diff.drop_last()));
        lemma_trim_len(diff.drop_last());
        assert(next.len() < r.len());
        lemma_trim_idem(diff);
        assert(next.len() >= 1);
        lemma_rem_loop_monic(next, f);
    }
}

/// A trimmed, non-empty sequence of length at least two has a non-zero
/// last coefficient.
pub proof fn lemma_trim_last(r: Seq<int>)
    requires
        trim_seq(r) == r,
        r.len() >= 2,
    ensures
        r.last() != 0,
{
    if r.last() == 0 {
        lemma_trim_len(r.drop_last());
    }
}

/// Reduction in a ring with a monic divisor yields a polynomial that is
/// non-empty, shorter than the divisor, and with every coefficient in
/// `[0, q)`.
pub proof fn lemma_reduce_bounds(q: int, f: Seq<int>, a: Seq<int>)
    requires
        q >= 1,
        f.len() >= 2,
        f.last() == 1,
        a.len() >= 1,
    ensures
        1 <= rq_reduce(q, f, a).len() < f.len(),
        forall|i: int|
            0 <= i < rq_reduce(q, f, a).len() ==> 0 <= #[trigger] rq_reduce(q, f, a)[i] < q,
{
    let t = trim_seq(a);
    lemma_trim_len(a);
    lemma_trim_idem(a);
    lemma_rem_loop_monic(t, f);
    let rem = rem_loop(t, f);
    let m = mod_seq(rem, q);
    lemma_trim_len(m);
    assert forall|i: int| 0 <= i < rq_reduce(q, f, a).len() implies 0 <= #[trigger] rq_reduce(
        q,
        f,
        a,
    )[i] < q by {
        lemma_trim_index(m, i);
        assert(rq_reduce(q, f, a)[i] == index_or0(trim_seq(m), i));
        assert(index_or0(m, i) == m[i]) by {
            lemma_trim_len(m);
        }
        assert(m[i] == rem[i] % q);
        vstd::arithmetic::div_mod::lemma_mod_bound(rem[i], q);
    }
}

impl Rq {
    /// A well-formed ring: positive modulus `q` and a divisor of degree
    /// at least one whose leading coefficient is non-zero.
    pub open spec fn wf(&self) -> bool {
        &&& int_of(self.q) >= 1
        &&& self.modulo@.len() >= 2
        &&& self.modulo@.last() != 0
    }

    pub fn new(q: num::BigInt, modulo: Polynomial) -> (r: Rq)
        ensures
            int_of(r.q) == int_of(q),
            r.modulo@ == modulo@,
    {
        Rq { q, modulo }
    }

    /// The remainder of `pol` under long division by the ring modulus,
    /// coefficients reduced into `[0, q)`.
    #[verifier::loop_isolation(true)]
    pub fn reduce(&self, pol: &Polynomial) -> (r: Polynomial)
        requires
            self.wf(),
        ensures
            r@ == rq_reduce(int_of(self.q), self.modulo@, pol@),
    {
        let flen = self.modulo.len();
        let mut r = pol.trim_res();
        while r.len() >= flen
            invariant_except_break
                self.wf(),
                flen == self.modulo@.len(),
                rem_loop(r@, self.modulo@) == rem_loop(trim_seq(pol@), self.modulo@),
            ensures
                r@ == rem_loop(trim_seq(pol@), self.modulo@),
            decreases r@.len(),
        {
            let rlen = r.len();
            let t = bigint_div(r.coefficient(rlen - 1), self.modulo.coefficient(flen - 1));
            let scaled = self.modulo.mul_scalar(&t);
            proof {
                lemma_trim_len(scale_seq(self.modulo@, int_of(t)));
            }
            let shifted = scaled.shift_poly(rlen - flen);
            let next = r.sub(&shifted);
            proof {
                assert(r@.last() == r@[rlen - 1]);
                assert(self.modulo@.last() == self.modulo@[flen - 1]);
                assert(next@ == rem_step(r@, self.modulo@));
            }
            if next.len() < rlen {
                r = next;
            } else {
                r = next;
                break;
            }
        }
        proof {
            lemma_trim_idem(pol@);
        }
        r.modulo(&self.q)
    }

    pub fn add(&self, a: &Polynomial, b: &Polynomial) -> (r: Polynomial)
        requires
            self.wf(),
        ensures
            r@ == rq_add(int_of(self.q), self.modulo@, a@, b@),
    {
        let res = a.add(b);
        proof {
            lemma_trim_idem(add_seq(a@, b@));
        }
        self.reduce(&res)
    }

    pub fn sub(&self, a: &Polynomial, b: &Polynomial) -> (r: Polynomial)
        requires
            self.wf(),
        ensures
            r@ == rq_sub(int_of(self.q), self.modulo@, a@, b@),
    {
        let res = a.sub(b);
        proof {
            lemma_trim_idem(sub_seq(a@, b@));
        }
        self.reduce(&res)
    }

    /// Scalar multiplication in the ring.
    pub fn times(&self, pol: &Polynomial, t: &num::BigInt) -> (r: Polynomial)
        requires
            self.wf(),
        ensures
            r@ == rq_times(int_of(self.q), self.modulo@, pol@, int_of(*t)),
    {
        let res = pol.mul_scalar(t);
        proof {
            lemma_trim_idem(scale_seq(pol@, int_of(*t)));
        }
        self.reduce(&res)
    }

    pub fn neg(&self, pol: &Polynomial) -> (r: Polynomial)
        requires
            self.wf(),
        ensures
            r@ == rq_neg(int_of(self.q), self.modulo@, pol@),
    {
        let res = pol.neg();
        proof {
            lemma_trim_idem(neg_seq(pol@));
        }
        self.reduce(&res)
    }

    pub fn mul(&self, a: &Polynomial, b: &Polynomial) -> (r: Polynomial)
        requires
            self.wf(),
            a@.len() >= 1,
            b@.len() >= 1,
            a@.len() + b@.len() <= usize::MAX,
        ensures
            r@ == rq_mul(int_of(self.q), self.modulo@, a@, b@),
    {
        let res = a.mul(b);
        proof {
            lemma_trim_idem(mul_seq(a@, b@));
        }
        self.reduce(&res)
    }
}

} // verus!
