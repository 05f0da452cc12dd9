//! The BGV-like somewhat-homomorphic encryption scheme over
//! R_q = Z_q[x] / (x^N + 1): parameters, key generation, encryption,
//! decryption, ciphertext addition and multiplication, and the
//! drown-noise refresh.
//!
//! A ciphertext is a vector of ring elements, conventionally of length
//! two; multiplication grows the length. The deterministic operations
//! carry exact contracts over the ring specs of `quotient_ring`; the
//! randomized ones state the same relation for some sampled noise.

use vstd::prelude::*;

use crate::bigint::{bigint_clone, bigint_from, bigint_lt, int_of};
use crate::poly::Polynomial;
use crate::prob::{sample_from_gaussian, sample_from_uniform};
use crate::quotient_ring::{lemma_reduce_bounds, rq_add, rq_mul, rq_neg, rq_times, Rq};

verus! {

pub type SecretKey = Polynomial;

pub type PublicKey = (Polynomial, Polynomial);

pub type Ciphertext = Vec<Polynomial>;

/// A polynomial fit for the ring operations: non-empty, and short
/// enough that intermediate lengths cannot overflow a machine word.
pub open spec fn poly_ok(s: Seq<int>) -> bool {
    1 <= s.len() <= 0x4000_0000
}

/// The views of the ring elements of a ciphertext.
pub open spec fn ct_views(c: Seq<Polynomial>) -> Seq<Seq<int>> {
    Seq::new(c.len(), |i: int| c[i]@)
}

/// The coefficients of the cyclotomic modulus x^n + 1.
pub open spec fn cyclo_seq(n: int) -> Seq<int> {
    Seq::new((n + 1) as nat, |i: int| if i == 0 || i == n { 1int } else { 0int })
}

/// Scheme parameters: the quotient ring (modulus `q` and the cyclotomic
/// polynomial of degree `n`), the plaintext modulus `p`, and the two
/// Gaussian standard deviations `r` and `r_prime` in tenths.
pub struct Parameters {
    pub quotient_ring: Rq,
    pub p: num::BigInt,
    pub r: u64,
    pub r_prime: u64,
    pub n: usize,
}

impl Parameters {
    /// Validity of a parameter set; established by the constructors and
    /// required by every operation of the scheme.
    pub open spec fn wf(&self) -> bool {
        &&& 1 <= self.n < 0x4000_0000
        &&& int_of(self.quotient_ring.q) >= 2
        &&& int_of(self.p) >= 2
        &&& self.quotient_ring.modulo@ == cyclo_seq(self.n as int)
        &&& self.quotient_ring.wf()
        &&& 1 <= self.r <= u32::MAX
        &&& 1 <= self.r_prime <= u32::MAX
    }

    /// Spec shorthand for the ring's modulus.
    pub open spec fn qq(&self) -> int {
        int_of(self.quotient_ring.q)
    }

    /// Spec shorthand for the ring's divisor polynomial.
    pub open spec fn ff(&self) -> Seq<int> {
        self.quotient_ring.modulo@
    }

    /// Spec shorthand for the plaintext modulus.
    pub open spec fn pp(&self) -> int {
        int_of(self.p)
    }

    pub fn new(q: num::BigInt, r: u64, r_prime: u64, n: usize, p: num::BigInt) -> (res:
        Parameters)
        requires
            1 <= n < 0x4000_0000,
            int_of(q) >= 2,
            int_of(p) >= 2,
            1 <= r <= u32::MAX,
            1 <= r_prime <= u32::MAX,
        ensures
            res.wf(),
            res.qq() == int_of(q),
            res.pp() == int_of(p),
            res.n == n,
            res.r == r,
            res.r_prime == r_prime,
    {
        let mut fx: Vec<num::BigInt> = Vec::new();
        let mut i: usize = 0;
        while i < n + 1
            invariant
                n < 0x4000_0000,
                i <= n + 1,
                fx@.len() == i,
                forall|j: int| 0 <= j < i ==> crate::bigint::ints_of(fx@)[j] == cyclo_seq(n as int)[j],
            decreases n + 1 - i,
        {
            if i == 0 || i == n {
                fx.push(bigint_from(1));
            } else {
                fx.push(bigint_from(0));
            }
            i += 1;
        }
        let fx_poly = Polynomial::new(fx);
        proof {
            assert(fx_poly@ =~= cyclo_seq(n as int));
        }
        let quotient_ring = Rq::new(q, fx_poly);
        Parameters { quotient_ring, p, r, r_prime, n }
    }
}

impl Default for Parameters {
    /// The testing profile: q = 65537, N = 4, p = 7, σ = 1.0, σ' = 2.0.
    fn default() -> (res: Parameters)
        ensures
            res.wf(),
            res.qq() == 65537,
            res.pp() == 7,
            res.n == 4,
            res.r == 10,
            res.r_prime == 20,
    {
        Parameters::new(bigint_from(65537), 10, 20, 4, bigint_from(7))
    }
}

/// The single-machine secure profile: a 327-bit prime modulus, N = 7,
/// p = 127, σ = 3.2, σ' = 100.
pub fn secure_params() -> (res: Parameters)
    ensures
        res.wf(),
        res.qq()
            == 7491009436045135886698181243708504421607358929720206973094758479498049015628852031735169966277519969int,
        res.pp() == 127,
        res.n == 7,
        res.r == 32,
        res.r_prime == 1000,
{
    let limbs: Vec<i64> = vec![
        3507i64, 206909838, 1943509997, 3373371986, 1001306362, 1757113255, 4230536409, 226553834,
        3520388168, 1256309557, 1864231521,
    ];
    let ghost lv: Seq<int> = seq![
        3507int, 206909838, 1943509997, 3373371986, 1001306362, 1757113255, 4230536409, 226553834,
        3520388168, 1256309557, 1864231521,
    ];
    let shift = bigint_from(0x1_0000_0000);
    let mut q = bigint_from(0);
    let mut i: usize = 0;
    while i < limbs.len()
        invariant
            limbs@.len() == 11,
            lv.len() == 11,
            forall|j: int| 0 <= j < 11 ==> limbs@[j] as int == lv[j],
            i <= limbs@.len(),
            int_of(shift) == 0x1_0000_0000,
            int_of(q) == spec_limb_value(lv, i as int),
        decreases limbs@.len() - i,
    {
        q = crate::bigint::bigint_add(&crate::bigint::bigint_mul(&q, &shift), &bigint_from(limbs[i]));
        i += 1;
    }
    proof {
        assert(spec_limb_value(lv, 0) == 0);
        assert(spec_limb_value(lv, 1) == 3507int);
        assert(spec_limb_value(lv, 2) == 15062657216910int);
        assert(spec_limb_value(lv, 3) == 64693620137488771685357int);
        assert(spec_limb_value(lv, 4) == 277856982750361297955822490456658int);
        assert(spec_limb_value(lv, 5) == 1193386653878037906904369249292619216763130int);
        assert(spec_limb_value(lv, 6) == 5125556649889044382802558525219870670178780085709735int);
        assert(spec_limb_value(lv, 7) == 22014098185068767652829493690945335737767462941299393004362969int);
        assert(spec_limb_value(lv, 8) == 94549831755803312579925357266848548317451285385772860698390137395015658int);
        assert(spec_limb_value(lv, 9) == 406088435233477485739244795582230460008529096805057180383949359960538888038308936int);
        assert(spec_limb_value(lv, 10) == 1744136548611599925602362780763885104471668351842138677159035224350646374660742476520866613int);
        assert(spec_limb_value(lv, 11) == 7491009436045135886698181243708504421607358929720206973094758479498049015628852031735169966277519969int);
    }
    Parameters::new(q, 32, 1000, 7, bigint_from(127))
}

/// The accumulated base-2^32 value of the first `n` limbs.
pub open spec fn spec_limb_value(limbs: Seq<int>, n: int) -> int
    decreases n,
{
    if n <= 0 {
        0
    } else {
        spec_limb_value(limbs, n - 1) * 0x1_0000_0000 + limbs[n - 1]
    }
}

/// The production-shape profile: a 27-bit prime with a large ring
/// degree, p = 127, σ = 3.2, σ' = 100.
pub fn mpc_secure_params() -> (res: Parameters)
    ensures
        res.wf(),
        res.qq() == 80708963,
        res.pp() == 127,
        res.n == 12900,
        res.r == 32,
        res.r_prime == 1000,
{
    Parameters::new(bigint_from(80708963), 32, 1000, 12900, bigint_from(127))
}

/// The first ciphertext component of a deterministic encryption:
/// `b0·v + p·e'' + m` in the ring.
pub open spec fn enc_c0(q: int, f: Seq<int>, p: int, m: Seq<int>, b0: Seq<int>, v: Seq<int>, e2: Seq<int>) -> Seq<int> {
    rq_add(q, f, rq_add(q, f, rq_mul(q, f, b0, v), rq_times(q, f, e2, p)), m)
}

/// The second ciphertext component of a deterministic encryption:
/// `-(a0·v + p·e')` in the ring.
pub open spec fn enc_c1(q: int, f: Seq<int>, p: int, a0: Seq<int>, v: Seq<int>, e1: Seq<int>) -> Seq<int> {
    rq_neg(q, f, rq_add(q, f, rq_mul(q, f, a0, v), rq_times(q, f, e1, p)))
}

/// Deterministic encryption of `m` under `pk` with randomness
/// `r = (v, e', e'')`: the ciphertext `(b0·v + p·e'' + m, -(a0·v + p·e'))`.
pub fn encrypt_det(
    params: &Parameters,
    m: Polynomial,
    pk: &PublicKey,
    r: (Polynomial, Polynomial, Polynomial),
) -> (res: Ciphertext)
    requires
        params.wf(),
        poly_ok(m@),
        poly_ok(pk.0@),
        poly_ok(pk.1@),
        poly_ok(r.0@),
        poly_ok(r.1@),
        poly_ok(r.2@),
    ensures
        res@.len() == 2,
        res@[0]@ == enc_c0(params.qq(), params.ff(), params.pp(), m@, pk.1@, r.0@, r.2@),
        res@[1]@ == enc_c1(params.qq(), params.ff(), params.pp(), pk.0@, r.0@, r.1@),
        poly_ok(res@[0]@),
        poly_ok(res@[1]@),
{
    let rq = &params.quotient_ring;
    let (a0, b0) = pk;
    let (v, e_prime, e_prime_prime) = r;
    let ghost q = params.qq();
    let ghost f = params.ff();
    let ghost p = params.pp();

    let a0_mul_v = rq.mul(a0, &v);
    let p_mul_e_prime = rq.times(&e_prime, &params.p);
    proof {
        lemma_reduce_bounds(q, f, crate::poly::mul_seq(a0@, v@));
        lemma_reduce_bounds(q, f, crate::poly::scale_seq(e_prime@, p));
    }
    let a = rq.add(&a0_mul_v, &p_mul_e_prime);
    proof {
        lemma_reduce_bounds(q, f, crate::poly::add_seq(a0_mul_v@, p_mul_e_prime@));
    }

    let b0_mul_v = rq.mul(b0, &v);
    let p_mul_e_prime_prime = rq.times(&e_prime_prime, &params.p);
    proof {
        lemma_reduce_bounds(q, f, crate::poly::mul_seq(b0@, v@));
        lemma_reduce_bounds(q, f, crate::poly::scale_seq(e_prime_prime@, p));
    }
    let b = rq.add(&b0_mul_v, &p_mul_e_prime_prime);
    proof {
        lemma_reduce_bounds(q, f, crate::poly::add_seq(b0_mul_v@, p_mul_e_prime_prime@));
    }

    let c0 = rq.add(&b, &m);
    let c1 = rq.neg(&a);
    proof {
        lemma_reduce_bounds(q, f, crate::poly::add_seq(b@, m@));
        lemma_reduce_bounds(q, f, crate::poly::neg_seq(a@));
    }
    let mut res: Vec<Polynomial> = Vec::new();
    res.push(c0);
    res.push(c1);
    res
}

/// Randomized encryption together with the Gaussian randomness that was
/// drawn, for callers that must prove plaintext knowledge of the
/// ciphertext.
pub fn encrypt_with_rand(params: &Parameters, m: Polynomial, pk: &PublicKey) -> (res: (
    Ciphertext,
    (Polynomial, Polynomial, Polynomial),
))
    requires
        params.wf(),
        poly_ok(m@),
        poly_ok(pk.0@),
        poly_ok(pk.1@),
    ensures
        res.1.0@.len() == params.n,
        res.1.1@.len() == params.n,
        res.1.2@.len() == params.n,
        res.0@.len() == 2,
        res.0@[0]@ == enc_c0(params.qq(), params.ff(), params.pp(), m@, pk.1@, res.1.0@, res.1.2@),
        res.0@[1]@ == enc_c1(params.qq(), params.ff(), params.pp(), pk.0@, res.1.0@, res.1.1@),
        poly_ok(res.0@[0]@),
        poly_ok(res.0@[1]@),
{
    let v = sample_from_gaussian(params.r, params.n);
    let e_prime = sample_from_gaussian(params.r, params.n);
    let e_prime_prime = sample_from_gaussian(params.r_prime, params.n);
    let r = (v.cloned(), e_prime.cloned(), e_prime_prime.cloned());
    let c = encrypt_det(params, m, pk, (v, e_prime, e_prime_prime));
    (c, r)
}

/// Randomized encryption: fresh Gaussian noise, then `encrypt_det`.
pub fn encrypt(params: &Parameters, m: Polynomial, pk: &PublicKey) -> (res: Ciphertext)
    requires
        params.wf(),
        poly_ok(m@),
        poly_ok(pk.0@),
        poly_ok(pk.1@),
    ensures
        res@.len() == 2,
        poly_ok(res@[0]@),
        poly_ok(res@[1]@),
        exists|v: Seq<int>, e1: Seq<int>, e2: Seq<int>|
            {
                &&& v.len() == params.n
                &&& e1.len() == params.n
                &&& e2.len() == params.n
                &&& res@[0]@ == enc_c0(params.qq(), params.ff(), params.pp(), m@, pk.1@, v, e2)
                &&& res@[1]@ == enc_c1(params.qq(), params.ff(), params.pp(), pk.0@, v, e1)
            },
{
    let (c, r) = encrypt_with_rand(params, m, pk);
    proof {
        let vv = r.0@;
        let ee1 = r.1@;
        let ee2 = r.2@;
        assert({
            &&& vv.len() == params.n
            &&& ee1.len() == params.n
            &&& ee2.len() == params.n
            &&& c@[0]@ == enc_c0(params.qq(), params.ff(), params.pp(), m@, pk.1@, vv, ee2)
            &&& c@[1]@ == enc_c1(params.qq(), params.ff(), params.pp(), pk.0@, vv, ee1)
        });
    }
    c
}

/// Key generation: a Gaussian secret key `sk`, a uniform `a0`, and
/// `b0 = a0·sk + p·e0` for Gaussian noise `e0`.
pub fn generate_key_pair(params: &Parameters) -> (res: (PublicKey, SecretKey))
    requires
        params.wf(),
    ensures
        res.0.0@.len() == params.n,
        res.1@.len() == params.n,
        poly_ok(res.0.0@),
        poly_ok(res.0.1@),
        poly_ok(res.1@),
        forall|i: int| 0 <= i < params.n ==> 0 <= #[trigger] res.0.0@[i] < params.qq(),
        exists|e0: Seq<int>|
            {
                &&& e0.len() == params.n
                &&& res.0.1@ == rq_add(
                    params.qq(),
                    params.ff(),
                    rq_mul(params.qq(), params.ff(), res.0.0@, res.1@),
                    rq_times(params.qq(), params.ff(), e0, params.pp()),
                )
            },
{
    let rq = &params.quotient_ring;
    let ghost q = params.qq();
    let ghost f = params.ff();

    let sk = sample_from_gaussian(params.r, params.n);
    let a0 = sample_from_uniform(&rq.q, params.n);
    let e0 = sample_from_gaussian(params.r, params.n);

    let elem1 = rq.mul(&a0, &sk);
    let elem2 = rq.times(&e0, &params.p);
    proof {
        lemma_reduce_bounds(q, f, crate::poly::mul_seq(a0@, sk@));
        lemma_reduce_bounds(q, f, crate::poly::scale_seq(e0@, params.pp()));
    }
    let b0 = rq.add(&elem1, &elem2);
    proof {
        lemma_reduce_bounds(q, f, crate::poly::add_seq(elem1@, elem2@));
    }
    let ghost e0v = e0@;
    let res = ((a0, b0), sk);
    proof {
        assert({
            &&& e0v.len() == params.n
            &&& res.0.1@ == rq_add(
                q,
                f,
                rq_mul(q, f, res.0.0@, res.1@),
                rq_times(q, f, e0v, params.pp()),
            )
        });
    }
    res
}

#[derive(Debug)]
pub enum DecryptionError {
    LInfNormTooBig(num::BigInt),
}

/// The ring power sk^i, built by repeated ring multiplication from the
/// constant one.
pub open spec fn sk_pow(q: int, f: Seq<int>, sk: Seq<int>, i: int) -> Seq<int>
    decreases i,
{
    if i <= 0 {
        seq![1int]
    } else {
        rq_mul(q, f, sk_pow(q, f, sk, i - 1), sk)
    }
}

/// The partial decryption sum over the first `i` ciphertext components:
/// `sum c_j · sk^j` in the ring, starting from the zero polynomial.
pub open spec fn dec_sum(q: int, f: Seq<int>, c: Seq<Seq<int>>, sk: Seq<int>, i: int) -> Seq<int>
    decreases i,
{
    if i <= 0 {
        seq![0int]
    } else {
        rq_add(q, f, dec_sum(q, f, c, sk, i - 1), rq_mul(q, f, c[i - 1], sk_pow(q, f, sk, i - 1)))
    }
}

/// Decryption: evaluate `sum c_i · sk^i` in the ring, lift the
/// coefficients into the centered range, fail if the L-infinity norm
/// reaches `q / 2`, and otherwise reduce modulo `p`.
pub fn decrypt(params: &Parameters, c: Ciphertext, sk: &Polynomial) -> (res: Result<
    Polynomial,
    DecryptionError,
>)
    requires
        params.wf(),
        poly_ok(sk@),
        forall|i: int| 0 <= i < c@.len() ==> poly_ok(#[trigger] c@[i]@),
    ensures
        ({
            let s = dec_sum(params.qq(), params.ff(), ct_views(c@), sk@, c@.len() as int);
            let cen = crate::poly::centered_seq(s, params.qq());
            match res {
                Ok(m) => crate::poly::norm_seq(cen) < params.qq() / 2 && m@ == crate::poly::trim_seq(
                    crate::poly::mod_seq(cen, params.pp()),
                ),
                Err(DecryptionError::LInfNormTooBig(nm)) => crate::poly::norm_seq(cen)
                    >= params.qq() / 2 && int_of(nm) == crate::poly::norm_seq(cen),
            }
        }),
{
    let rq = &params.quotient_ring;
    let ghost q = params.qq();
    let ghost f = params.ff();

    let mut msg = Polynomial::zero();
    let mut cur_vec_entry = Polynomial::one();
    let clen = c.len();
    let mut i: usize = 0;
    while i < clen
        invariant
            params.wf(),
            q == params.qq(),
            f == params.ff(),
            clen == c@.len(),
            poly_ok(sk@),
            forall|j: int| 0 <= j < c@.len() ==> poly_ok(#[trigger] c@[j]@),
            i <= clen,
            cur_vec_entry@ == sk_pow(q, f, sk@, i as int),
            poly_ok(cur_vec_entry@),
            cur_vec_entry@.len() <= params.n,
            msg@ == dec_sum(q, f, ct_views(c@), sk@, i as int),
            poly_ok(msg@),
            msg@.len() <= params.n,
        decreases clen - i,
    {
        let ci_mul_entry = rq.mul(&c[i], &cur_vec_entry);
        proof {
            lemma_reduce_bounds(q, f, crate::poly::mul_seq(c@[i as int]@, cur_vec_entry@));
        }
        let new_msg = rq.add(&msg, &ci_mul_entry);
        proof {
            lemma_reduce_bounds(q, f, crate::poly::add_seq(msg@, ci_mul_entry@));
        }
        msg = new_msg;
        let new_entry = rq.mul(&cur_vec_entry, sk);
        proof {
            lemma_reduce_bounds(q, f, crate::poly::mul_seq(cur_vec_entry@, sk@));
        }
        cur_vec_entry = new_entry;
        i += 1;
    }

    let msg_minus_q = msg.normalized_coefficients(&rq.q);
    let two = bigint_from(2);
    let q_half = crate::bigint::bigint_div(&rq.q, &two);
    let norm = msg_minus_q.l_inf_norm();
    if !bigint_lt(&norm, &q_half) {
        return Err(DecryptionError::LInfNormTooBig(norm));
    }
    Ok(msg_minus_q.modulo(&params.p))
}

/// The `i`-th component of a ciphertext sum: each input component is
/// folded, through ring addition, onto a zero polynomial.
pub open spec fn ct_add_entry(q: int, f: Seq<int>, a: Seq<Seq<int>>, b: Seq<Seq<int>>, i: int) -> Seq<int> {
    let s1 = if i < a.len() {
        rq_add(q, f, seq![0int], a[i])
    } else {
        seq![0int]
    };
    if i < b.len() {
        rq_add(q, f, s1, b[i])
    } else {
        s1
    }
}

/// Ciphertext addition: the shorter input is padded with zero ring
/// elements and the components are added in the ring.
pub fn add(params: &Parameters, c1: &Ciphertext, c2: &Ciphertext) -> (res: Ciphertext)
    requires
        params.wf(),
    ensures
        res@.len() == crate::poly::spec_max(c1@.len() as int, c2@.len() as int),
        forall|i: int|
            0 <= i < res@.len() ==> #[trigger] res@[i]@ == ct_add_entry(
                params.qq(),
                params.ff(),
                ct_views(c1@),
                ct_views(c2@),
                i,
            ),
        forall|i: int| 0 <= i < res@.len() ==> poly_ok(#[trigger] res@[i]@),
{
    let rq = &params.quotient_ring;
    let ghost q = params.qq();
    let ghost f = params.ff();
    let max = if c1.len() >= c2.len() {
        c1.len()
    } else {
        c2.len()
    };
    let mut res: Vec<Polynomial> = Vec::new();
    let mut k: usize = 0;
    while k < max
        invariant
            res@.len() == k,
            k <= max,
            forall|j: int| 0 <= j < k ==> #[trigger] res@[j]@ =~= seq![0int],
        decreases max - k,
    {
        res.push(Polynomial::zero());
        k += 1;
    }
    let mut i: usize = 0;
    while i < c1.len()
        invariant
            params.wf(),
            q == params.qq(),
            f == params.ff(),
            c1@.len() <= max,
            c2@.len() <= max,
            max == crate::poly::spec_max(c1@.len() as int, c2@.len() as int),
            i <= c1@.len(),
            res@.len() == max,
            forall|j: int|
                0 <= j < i ==> #[trigger] res@[j]@ == rq_add(q, f, seq![0int], ct_views(c1@)[j]),
            forall|j: int| i <= j < max ==> #[trigger] res@[j]@ =~= seq![0int],
        decreases c1@.len() - i,
    {
        let s = rq.add(&res[i], &c1[i]);
        res.set(i, s);
        i += 1;
    }
    let mut i2: usize = 0;
    while i2 < c2.len()
        invariant
            params.wf(),
            q == params.qq(),
            f == params.ff(),
            c1@.len() <= max,
            c2@.len() <= max,
            max == crate::poly::spec_max(c1@.len() as int, c2@.len() as int),
            i2 <= c2@.len(),
            res@.len() == max,
            forall|j: int|
                0 <= j < i2 ==> #[trigger] res@[j]@ == ct_add_entry(q, f, ct_views(c1@), ct_views(c2@), j),
            forall|j: int|
                i2 <= j < max ==> #[trigger] res@[j]@ == (if j < c1@.len() {
                    rq_add(q, f, seq![0int], ct_views(c1@)[j])
                } else {
                    seq![0int]
                }),
        decreases c2@.len() - i2,
    {
        let s = rq.add(&res[i2], &c2[i2]);
        res.set(i2, s);
        i2 += 1;
    }
    proof {
        assert forall|i3: int| 0 <= i3 < res@.len() implies poly_ok(#[trigger] res@[i3]@) by {
            if i3 < c2@.len() {
                if i3 < c1@.len() {
                    lemma_reduce_bounds(q, f, crate::poly::add_seq(seq![0int], ct_views(c1@)[i3]));
                }
                lemma_reduce_bounds(
                    q,
                    f,
                    crate::poly::add_seq(
                        (if i3 < c1@.len() {
                            rq_add(q, f, seq![0int], ct_views(c1@)[i3])
                        } else {
                            seq![0int]
                        }),
                        ct_views(c2@)[i3],
                    ),
                );
            } else if i3 < c1@.len() {
                lemma_reduce_bounds(q, f, crate::poly::add_seq(seq![0int], ct_views(c1@)[i3]));
            }
        }
    }
    res
}

/// The `k`-th component of a ciphertext product after the first `n`
/// components of `a` have been processed: the ring sum of the pairwise
/// ring products `a_i · b_{k-i}`.
pub open spec fn ct_mul_partial(q: int, f: Seq<int>, a: Seq<Seq<int>>, b: Seq<Seq<int>>, k: int, n: int) -> Seq<int>
    decreases n,
{
    if n <= 0 {
        seq![0int]
    } else {
        let prev = ct_mul_partial(q, f, a, b, k, n - 1);
        if 0 <= k - (n - 1) < b.len() {
            rq_add(q, f, prev, rq_mul(q, f, a[n - 1], b[k - (n - 1)]))
        } else {
            prev
        }
    }
}

/// Ciphertext multiplication: the outer product in the ring; the result
/// has length `len(c1) + len(c2) - 1`.
pub fn mul(params: &Parameters, c1: &Ciphertext, c2: &Ciphertext) -> (res: Ciphertext)
    requires
        params.wf(),
        c1@.len() >= 1,
        c2@.len() >= 1,
        c1@.len() + c2@.len() <= 0x4000_0000,
        forall|i: int| 0 <= i < c1@.len() ==> poly_ok(#[trigger] c1@[i]@),
        forall|i: int| 0 <= i < c2@.len() ==> poly_ok(#[trigger] c2@[i]@),
    ensures
        res@.len() == c1@.len() + c2@.len() - 1,
        forall|k: int|
            0 <= k < res@.len() ==> #[trigger] res@[k]@ == ct_mul_partial(
                params.qq(),
                params.ff(),
                ct_views(c1@),
                ct_views(c2@),
                k,
                c1@.len() as int,
            ),
        forall|k: int| 0 <= k < res@.len() ==> poly_ok(#[trigger] res@[k]@),
{
    let rq = &params.quotient_ring;
    let ghost q = params.qq();
    let ghost f = params.ff();
    let la = c1.len();
    let lb = c2.len();
    let out_len = la + lb - 1;
    let mut res: Vec<Polynomial> = Vec::new();
    let mut k: usize = 0;
    while k < out_len
        invariant
            res@.len() == k,
            k <= out_len,
            forall|j: int| 0 <= j < k ==> #[trigger] res@[j]@ =~= seq![0int],
        decreases out_len - k,
    {
        res.push(Polynomial::zero());
        k += 1;
    }
    let mut i: usize = 0;
    while i < la
        invariant
            params.wf(),
            q == params.qq(),
            f == params.ff(),
            la == c1@.len(),
            lb == c2@.len(),
            la >= 1,
            lb >= 1,
            la + lb <= 0x4000_0000,
            out_len == la + lb - 1,
            forall|j: int| 0 <= j < c1@.len() ==> poly_ok(#[trigger] c1@[j]@),
            forall|j: int| 0 <= j < c2@.len() ==> poly_ok(#[trigger] c2@[j]@),
            i <= la,
            res@.len() == out_len,
            forall|m: int|
                0 <= m < out_len ==> #[trigger] res@[m]@ == ct_mul_partial(
                    q,
                    f,
                    ct_views(c1@),
                    ct_views(c2@),
                    m,
                    i as int,
                ),
            forall|m: int| 0 <= m < out_len ==> poly_ok(#[trigger] res@[m]@),
        decreases la - i,
    {
        let mut j: usize = 0;
        while j < lb
            invariant
                params.wf(),
                q == params.qq(),
                f == params.ff(),
                la == c1@.len(),
                lb == c2@.len(),
                la >= 1,
                lb >= 1,
                la + lb <= 0x4000_0000,
                out_len == la + lb - 1,
                forall|j2: int| 0 <= j2 < c1@.len() ==> poly_ok(#[trigger] c1@[j2]@),
                forall|j2: int| 0 <= j2 < c2@.len() ==> poly_ok(#[trigger] c2@[j2]@),
                i < la,
                j <= lb,
                res@.len() == out_len,
                forall|m: int|
                    0 <= m < out_len ==> #[trigger] res@[m]@ == (if i <= m < i + j {
                        rq_add(
                            q,
                            f,
                            ct_mul_partial(q, f, ct_views(c1@), ct_views(c2@), m, i as int),
                            rq_mul(q, f, ct_views(c1@)[i as int], ct_views(c2@)[m - i]),
                        )
                    } else {
                        ct_mul_partial(q, f, ct_views(c1@), ct_views(c2@), m, i as int)
                    }),
                forall|m: int| 0 <= m < out_len ==> poly_ok(#[trigger] res@[m]@),
            decreases lb - j,
        {
            let prod = rq.mul(&c1[i], &c2[j]);
            let s = rq.add(&res[i + j], &prod);
            proof {
                lemma_reduce_bounds(q, f, crate::poly::mul_seq(c1@[i as int]@, c2@[j as int]@));
                lemma_reduce_bounds(q, f, crate::poly::add_seq(res@[i + j]@, prod@));
            }
            res.set(i + j, s);
            j += 1;
        }
        proof {
            assert forall|m: int| 0 <= m < out_len implies #[trigger] res@[m]@ == ct_mul_partial(
                q,
                f,
                ct_views(c1@),
                ct_views(c2@),
                m,
                i + 1,
            ) by {
                assert(ct_mul_partial(q, f, ct_views(c1@), ct_views(c2@), m, i + 1) == (if 0 <= m
                    - (i as int) < lb {
                    rq_add(
                        q,
                        f,
                        ct_mul_partial(q, f, ct_views(c1@), ct_views(c2@), m, i as int),
                        rq_mul(q, f, ct_views(c1@)[i as int], ct_views(c2@)[m - i]),
                    )
                } else {
                    ct_mul_partial(q, f, ct_views(c1@), ct_views(c2@), m, i as int)
                }));
            }
        }
        i += 1;
    }
    res
}

/// The result of a noise drowning with Gaussian draws `v`, `e1`, `e2`:
/// component-wise ring addition of `c` and the deterministic
/// encryption of the zero polynomial under the noisy parameters with
/// that randomness.
pub open spec fn drowned_with(
    params: &Parameters,
    params_noisy: &Parameters,
    pk0: Seq<int>,
    pk1: Seq<int>,
    cin: Seq<Seq<int>>,
    rout: Seq<Seq<int>>,
    v: Seq<int>,
    e1: Seq<int>,
    e2: Seq<int>,
) -> bool {
    let z = seq![
        enc_c0(params_noisy.qq(), params_noisy.ff(), params_noisy.pp(), seq![0int], pk1, v, e2),
        enc_c1(params_noisy.qq(), params_noisy.ff(), params_noisy.pp(), pk0, v, e1),
    ];
    &&& v.len() == params_noisy.n
    &&& e1.len() == params_noisy.n
    &&& e2.len() == params_noisy.n
    &&& rout.len() == crate::poly::spec_max(cin.len() as int, 2)
    &&& forall|i: int|
        0 <= i < rout.len() ==> #[trigger] rout[i] == ct_add_entry(
            params.qq(),
            params.ff(),
            cin,
            z,
            i,
        )
}

/// Noise drowning: add an encryption of zero drawn with the much larger
/// deviation of `params_noisy`, hiding the noise pattern of `c`. The
/// contract binds the added ciphertext to an encryption of the zero
/// polynomial under the noisy parameters, for some Gaussian draws.
pub fn drown_noise(
    params: &Parameters,
    params_noisy: &Parameters,
    c: Ciphertext,
    pk: PublicKey,
) -> (res: Ciphertext)
    requires
        params.wf(),
        params_noisy.wf(),
        poly_ok(pk.0@),
        poly_ok(pk.1@),
    ensures
        res@.len() == crate::poly::spec_max(c@.len() as int, 2),
        exists|v: Seq<int>, e1: Seq<int>, e2: Seq<int>|
            drowned_with(
                params,
                params_noisy,
                pk.0@,
                pk.1@,
                ct_views(c@),
                ct_views(res@),
                v,
                e1,
                e2,
            ),
{
    let zero = Polynomial::zero();
    let noisy_zero = encrypt(params_noisy, zero, &pk);
    let res = crate::encryption::add(params, &c, &noisy_zero);
    proof {
        let (vv, ee1, ee2) = choose|v: Seq<int>, e1: Seq<int>, e2: Seq<int>|
            {
                &&& v.len() == params_noisy.n
                &&& e1.len() == params_noisy.n
                &&& e2.len() == params_noisy.n
                &&& noisy_zero@[0]@ == enc_c0(
                    params_noisy.qq(),
                    params_noisy.ff(),
                    params_noisy.pp(),
                    zero@,
                    pk.1@,
                    v,
                    e2,
                )
                &&& noisy_zero@[1]@ == enc_c1(
                    params_noisy.qq(),
                    params_noisy.ff(),
                    params_noisy.pp(),
                    pk.0@,
                    v,
                    e1,
                )
            };
        assert(ct_views(noisy_zero@) =~= seq![
            enc_c0(
                params_noisy.qq(),
                params_noisy.ff(),
                params_noisy.pp(),
                seq![0int],
                pk.1@,
                vv,
                ee2,
            ),
            enc_c1(params_noisy.qq(), params_noisy.ff(), params_noisy.pp(), pk.0@, vv, ee1),
        ]);
        assert(drowned_with(
            params,
            params_noisy,
            pk.0@,
            pk.1@,
            ct_views(c@),
            ct_views(res@),
            vv,
            ee1,
            ee2,
        ));
    }
    res
}

/// An element-wise clone of a ciphertext.
pub fn ct_cloned(c: &Ciphertext) -> (r: Ciphertext)
    ensures
        ct_views(r@) == ct_views(c@),
        r@.len() == c@.len(),
        forall|i: int| 0 <= i < c@.len() ==> (#[trigger] r@[i])@ == c@[i]@,
{
    let mut out: Vec<Polynomial> = Vec::new();
    let n = c.len();
    let mut i: usize = 0;
    while i < n
        invariant
            n == c@.len(),
            i <= n,
            out@.len() == i,
            forall|j: int| 0 <= j < i ==> (#[trigger] out@[j])@ == c@[j]@,
        decreases n - i,
    {
        out.push(c[i].cloned());
        i += 1;
    }
    proof {
        assert(ct_views(out@) =~= ct_views(c@));
    }
    out
}

/// A single field element as a constant plaintext polynomial.
pub fn encode(coef: num::BigInt) -> (res: Polynomial)
    ensures
        res@ =~= seq![int_of(coef)],
{
    Polynomial::constant(coef)
}

/// The constant coefficient of a plaintext polynomial.
pub fn decode(pol: Polynomial) -> (res: num::BigInt)
    requires
        pol@.len() >= 1,
    ensures
        int_of(res) == pol@[0],
{
    bigint_clone(pol.coefficient(0))
}

} // verus!
