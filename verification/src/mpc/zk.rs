//! The zero-knowledge proof of plaintext knowledge: a Sigma-protocol,
//! made non-interactive with a Fiat-Shamir challenge drawn from an
//! extendable-output hash of the transcript.
//!
//! The prover shows, for a batch of `SEC` ciphertexts, knowledge of
//! plaintexts and encryption randomness of bounded size. The verifier
//! recomputes the challenge, re-encrypts the response, and checks the
//! homomorphic relation together with two norm bounds; its contract
//! states acceptance as an exact predicate of the proof and the public
//! values.
//!
//! In diagonal mode the prover samples diagonal commitment plaintexts,
//! but the verifier does not check the diagonal shape of the decoded
//! responses: the statement verified is the reduced one — bounded
//! plaintext and randomness satisfying the re-encryption equation —
//! whatever the mode.

use vstd::prelude::*;

use crate::bigint::{
    be_digits, bigint_add, bigint_clone, bigint_div, bigint_from, bigint_le, bigint_lt,
    bigint_magnitude_bytes, bigint_mul, bigint_neg, bigint_sqrt, bigints_cloned, int_of, ints_of,
};
use crate::bytes::append_bytes;
use crate::encryption::{
    ct_views, enc_c0, enc_c1, encrypt_det, encode, poly_ok, Ciphertext, Parameters, PublicKey,
};
use crate::mpc::{ct_add_spec, cts_views, diag, SEC, V};
use crate::poly::{abs_int, index_or0, norm_seq, Polynomial};
use crate::prob::{sample_from_uniform, sample_single};

verus! {

broadcast use crate::bigint::lemma_ints_of_push;

// ---------------------------------------------------------------------
// Transcript bytes and the Fiat-Shamir challenge
// ---------------------------------------------------------------------

/// The SHAKE-256 output of length `n` on a byte string; a function of
/// its inputs alone.
pub uninterp spec fn shake256_of(data: Seq<u8>, n: int) -> Seq<u8>;

/// Relies on the `sha3` crate's SHAKE-256 reader: `n` output bytes
/// determined by the input bytes.
#[verifier::external_body]
fn shake256(data: &Vec<u8>, n: usize) -> (r: Vec<u8>)
    ensures
        r@ == shake256_of(data@, n as int),
        r@.len() == n,
{
    let mut hasher = sha3::Shake256::default();
    sha3::digest::Update::update(&mut hasher, data.as_slice());
    let mut reader = sha3::digest::ExtendableOutput::finalize_xof(hasher);
    let mut out = vec![0u8; n];
    sha3::digest::XofReader::read(&mut reader, &mut out);
    out
}

/// The big-endian bytes of a 64-bit length.
pub open spec fn u64_be(v: u64) -> Seq<u8> {
    seq![
        (v >> 56) as u8,
        (v >> 48) as u8,
        (v >> 40) as u8,
        (v >> 32) as u8,
        (v >> 24) as u8,
        (v >> 16) as u8,
        (v >> 8) as u8,
        v as u8,
    ]
}

/// The framing of one coefficient: a sign byte, the length of the
/// magnitude, and the magnitude's big-endian bytes.
pub open spec fn int_frame(c: int) -> Seq<u8> {
    let mag = if c == 0 {
        seq![0u8]
    } else {
        be_digits(abs_int(c) as nat)
    };
    let sign: u8 = if c < 0 {
        1u8
    } else {
        0u8
    };
    seq![sign] + u64_be(mag.len() as u64) + mag
}

/// The frames of the first `n` coefficients, concatenated.
pub open spec fn frames_prefix(s: Seq<int>, n: int) -> Seq<u8>
    decreases n,
{
    if n <= 0 {
        Seq::empty()
    } else {
        frames_prefix(s, n - 1) + int_frame(s[n - 1])
    }
}

/// The byte encoding of a polynomial: its length, then each
/// coefficient framed.
pub open spec fn poly_bytes(s: Seq<int>) -> Seq<u8> {
    u64_be(s.len() as u64) + frames_prefix(s, s.len() as int)
}

/// The encodings of the first `n` polynomials of a ciphertext,
/// concatenated.
pub open spec fn ct_bytes_prefix(ct: Seq<Seq<int>>, n: int) -> Seq<u8>
    decreases n,
{
    if n <= 0 {
        Seq::empty()
    } else {
        ct_bytes_prefix(ct, n - 1) + poly_bytes(ct[n - 1])
    }
}

/// The encodings of the first `m` ciphertexts of a list, concatenated.
pub open spec fn cts_bytes_prefix(l: Seq<Seq<Seq<int>>>, m: int) -> Seq<u8>
    decreases m,
{
    if m <= 0 {
        Seq::empty()
    } else {
        cts_bytes_prefix(l, m - 1) + ct_bytes_prefix(l[m - 1], l[m - 1].len() as int)
    }
}

/// The hashed transcript: the commitment ciphertexts, then the proved
/// ciphertexts.
pub open spec fn transcript_bytes(a: Seq<Seq<Seq<int>>>, c: Seq<Seq<Seq<int>>>) -> Seq<u8> {
    cts_bytes_prefix(a, a.len() as int) + cts_bytes_prefix(c, c.len() as int)
}

/// Bit `k` (most significant first) of a byte.
pub open spec fn bit_at(b: u8, k: int) -> u8 {
    (b >> ((7 - k) as u8)) & 1
}

/// The bits of a byte string, most significant first within each byte.
pub open spec fn bits_of(bytes: Seq<u8>) -> Seq<u8> {
    Seq::new((bytes.len() * 8) as nat, |i: int| bit_at(bytes[i / 8], i % 8))
}

/// The `SEC`-bit Fiat-Shamir challenge of a transcript.
pub open spec fn e_bits(a: Seq<Seq<Seq<int>>>, c: Seq<Seq<Seq<int>>>) -> Seq<u8> {
    bits_of(shake256_of(transcript_bytes(a, c), (SEC / 8) as int))
}

fn push_u64_be(dst: &mut Vec<u8>, v: u64)
    ensures
        final(dst)@ == old(dst)@ + u64_be(v),
{
    dst.push((v >> 56) as u8);
    dst.push((v >> 48) as u8);
    dst.push((v >> 40) as u8);
    dst.push((v >> 32) as u8);
    dst.push((v >> 24) as u8);
    dst.push((v >> 16) as u8);
    dst.push((v >> 8) as u8);
    dst.push(v as u8);
    proof {
        assert(dst@ =~= old(dst)@ + u64_be(v));
    }
}

/// The byte encoding of a polynomial, as hashed into the transcript.
pub fn polynomial_to_bytes(p: &Polynomial) -> (r: Vec<u8>)
    ensures
        r@ == poly_bytes(p@),
{
    let mut out: Vec<u8> = Vec::new();
    let n = p.len();
    push_u64_be(&mut out, n as u64);
    let zero = bigint_from(0);
    let mut i: usize = 0;
    while i < n
        invariant
            n == p@.len(),
            i <= n,
            int_of(zero) == 0,
            out@ == u64_be(n as u64) + frames_prefix(p@, i as int),
        decreases n - i,
    {
        let ghost prev = out@;
        let c = p.coefficient(i);
        if bigint_lt(c, &zero) {
            out.push(1u8);
            let mag = bigint_magnitude_bytes(&bigint_neg(c));
            push_u64_be(&mut out, mag.len() as u64);
            append_bytes(&mut out, &mag);
            proof {
                assert(out@ =~= prev + int_frame(p@[i as int]));
            }
        } else {
            out.push(0u8);
            let mag = bigint_magnitude_bytes(c);
            push_u64_be(&mut out, mag.len() as u64);
            append_bytes(&mut out, &mag);
            proof {
                assert(out@ =~= prev + int_frame(p@[i as int]));
            }
        }
        proof {
            assert(out@ =~= u64_be(n as u64) + frames_prefix(p@, i + 1));
        }
        i += 1;
    }
    out
}

/// The Fiat-Shamir challenge: hash the commitment and proved
/// ciphertexts with SHAKE-256 and expand `SEC / 8` bytes into `SEC`
/// bits.
pub fn hash(a: &Vec<Ciphertext>, c: &Vec<Ciphertext>) -> (r: Vec<u8>)
    ensures
        r@ == e_bits(cts_views(a@), cts_views(c@)),
        r@.len() == SEC,
        forall|i: int| 0 <= i < r@.len() ==> #[trigger] r@[i] <= 1,
{
    let mut buf: Vec<u8> = Vec::new();
    let ghost aviews = cts_views(a@);
    let ghost cviews = cts_views(c@);
    let mut i: usize = 0;
    while i < a.len()
        invariant
            aviews == cts_views(a@),
            i <= a@.len(),
            buf@ == cts_bytes_prefix(aviews, i as int),
        decreases a@.len() - i,
    {
        let ct = &a[i];
        let mut j: usize = 0;
        while j < ct.len()
            invariant
                aviews == cts_views(a@),
                i < a@.len(),
                ct == a@[i as int],
                j <= ct@.len(),
                buf@ == cts_bytes_prefix(aviews, i as int) + ct_bytes_prefix(
                    ct_views(ct@),
                    j as int,
                ),
            decreases ct@.len() - j,
        {
            let ghost prev = buf@;
            let pb = polynomial_to_bytes(&ct[j]);
            append_bytes(&mut buf, &pb);
            proof {
                assert(buf@ =~= cts_bytes_prefix(aviews, i as int) + ct_bytes_prefix(
                    ct_views(ct@),
                    j + 1,
                ));
            }
            j += 1;
        }
        proof {
            assert(ct_views(ct@) == aviews[i as int]);
            assert(buf@ =~= cts_bytes_prefix(aviews, i + 1));
        }
        i += 1;
    }
    let mut i2: usize = 0;
    while i2 < c.len()
        invariant
            aviews == cts_views(a@),
            cviews == cts_views(c@),
            i2 <= c@.len(),
            buf@ == cts_bytes_prefix(aviews, a@.len() as int) + cts_bytes_prefix(
                cviews,
                i2 as int,
            ),
        decreases c@.len() - i2,
    {
        let ct = &c[i2];
        let mut j: usize = 0;
        while j < ct.len()
            invariant
                aviews == cts_views(a@),
                cviews == cts_views(c@),
                i2 < c@.len(),
                ct == c@[i2 as int],
                j <= ct@.len(),
                buf@ == cts_bytes_prefix(aviews, a@.len() as int) + (cts_bytes_prefix(
                    cviews,
                    i2 as int,
                ) + ct_bytes_prefix(ct_views(ct@), j as int)),
            decreases ct@.len() - j,
        {
            let pb = polynomial_to_bytes(&ct[j]);
            append_bytes(&mut buf, &pb);
            proof {
                assert(buf@ =~= cts_bytes_prefix(aviews, a@.len() as int) + (cts_bytes_prefix(
                    cviews,
                    i2 as int,
                ) + ct_bytes_prefix(ct_views(ct@), j + 1)));
            }
            j += 1;
        }
        proof {
            assert(ct_views(ct@) == cviews[i2 as int]);
            assert(buf@ =~= cts_bytes_prefix(aviews, a@.len() as int) + cts_bytes_prefix(
                cviews,
                i2 + 1,
            ));
        }
        i2 += 1;
    }
    proof {
        assert(buf@ =~= transcript_bytes(aviews, cviews));
    }
    let bytes = shake256(&buf, SEC / 8);
    let mut bits: Vec<u8> = Vec::new();
    let nb = bytes.len();
    let mut bi: usize = 0;
    while bi < nb
        invariant
            nb == bytes@.len(),
            bi <= nb,
            bits@.len() == bi * 8,
            forall|m: int| 0 <= m < bi * 8 ==> #[trigger] bits@[m] == bits_of(bytes@)[m],
            forall|m: int| 0 <= m < bi * 8 ==> #[trigger] bits@[m] <= 1,
        decreases nb - bi,
    {
        let b = bytes[bi];
        let mut k: usize = 0;
        while k < 8
            invariant
                nb == bytes@.len(),
                bi < nb,
                b == bytes@[bi as int],
                k <= 8,
                bits@.len() == bi * 8 + k,
                forall|m: int| 0 <= m < bi * 8 + k ==> #[trigger] bits@[m] == bits_of(bytes@)[m],
                forall|m: int| 0 <= m < bi * 8 + k ==> #[trigger] bits@[m] <= 1,
            decreases 8 - k,
        {
            let bit = (b >> ((7 - k) as u8)) & 1;
            proof {
                assert(bit == bit_at(b, k as int));
                assert(bit <= 1) by (bit_vector)
                    requires
                        bit == (b >> ((7 - k) as u8)) & 1,
                        k < 8,
                ;
                assert((bi * 8 + k) / 8 == bi && (bi * 8 + k) % 8 == k) by {
                    vstd::arithmetic::div_mod::lemma_fundamental_div_mod_converse(
                        (bi * 8 + k) as int,
                        8,
                        bi as int,
                        k as int,
                    );
                };
            }
            bits.push(bit);
            k += 1;
        }
        bi += 1;
    }
    proof {
        assert(bits@ =~= bits_of(bytes@));
    }
    bits
}

// ---------------------------------------------------------------------
// The challenge matrix
// ---------------------------------------------------------------------

/// Entry `(i, k)` of the banded challenge matrix `M_e`: bit `i - k` of
/// the challenge when `0 <= i - k < SEC`, else zero.
pub open spec fn me_entry(e: Seq<u8>, i: int, k: int) -> u8 {
    if 0 <= i - k < SEC {
        e[i - k]
    } else {
        0u8
    }
}

/// The banded matrix `M_e` of a challenge: `SEC` rows of `V` entries,
/// row `i` holding challenge bit `i - k` at column `k` where that index
/// is in range.
pub fn create_m_e_from_e(e: Vec<u8>) -> (r: Vec<Vec<u8>>)
    requires
        e@.len() == SEC,
    ensures
        r@.len() == SEC,
        forall|i: int| 0 <= i < SEC ==> (#[trigger] r@[i])@.len() == V,
        forall|i: int, k: int|
            0 <= i < SEC && 0 <= k < V ==> (#[trigger] r@[i]@[k]) == me_entry(e@, i, k),
{
    let mut m_e: Vec<Vec<u8>> = Vec::new();
    let mut i: usize = 0;
    while i < SEC
        invariant
            e@.len() == SEC,
            i <= SEC,
            m_e@.len() == i,
            forall|ii: int| 0 <= ii < i ==> (#[trigger] m_e@[ii])@.len() == V,
            forall|ii: int, k: int|
                0 <= ii < i && 0 <= k < V ==> (#[trigger] m_e@[ii]@[k]) == me_entry(e@, ii, k),
        decreases SEC - i,
    {
        let mut row: Vec<u8> = Vec::new();
        let mut k: usize = 0;
        while k < V
            invariant
                e@.len() == SEC,
                i < SEC,
                k <= V,
                row@.len() == k,
                forall|kk: int| 0 <= kk < k ==> (#[trigger] row@[kk]) == me_entry(e@, i as int, kk),
            decreases V - k,
        {
            if k <= i && i - k < SEC {
                row.push(e[i - k]);
            } else {
                row.push(0u8);
            }
            k += 1;
        }
        m_e.push(row);
        i += 1;
    }
    m_e
}

// ---------------------------------------------------------------------
// Bounds
// ---------------------------------------------------------------------

/// `r` is the integer square root of `x`.
pub open spec fn is_isqrt(x: int, r: int) -> bool {
    r >= 0 && r * r <= x && (r + 1) * (r + 1) > x
}

/// The integer square root, as a specification value.
pub open spec fn spec_isqrt(x: int) -> int {
    choose|r: int| is_isqrt(x, r)
}

pub proof fn lemma_isqrt_unique(x: int, r: int)
    requires
        x >= 0,
        r >= 0,
        r * r <= x,
        (r + 1) * (r + 1) > x,
    ensures
        spec_isqrt(x) == r,
{
    assert(is_isqrt(x, r));
    let rr = spec_isqrt(x);
    assert(rr >= 0 && rr * rr <= x && (rr + 1) * (rr + 1) > x);
    assert(rr == r) by (nonlinear_arith)
        requires
            rr >= 0,
            r >= 0,
            rr * rr <= x,
            (rr + 1) * (rr + 1) > x,
            r * r <= x,
            (r + 1) * (r + 1) > x,
    ;
}

/// The per-coordinate bound `128·N·τ·SEC²` on the response plaintexts,
/// with `τ = p / 2`.
pub open spec fn z_bound_spec(params: &Parameters) -> int {
    ((128 * (params.n as int)) * (params.pp() / 2)) * ((SEC * SEC) as int)
}

/// The per-coordinate bound `128·d·ρ·SEC²` on the response randomness,
/// with `d = 3N` and `ρ = 2·σ·√N`.
pub open spec fn t_bound_spec(params: &Parameters) -> int {
    ((128 * (3 * params.n as int)) * ((2 * ((params.r / 10) as int)) * spec_isqrt(
        params.n as int,
    ))) * ((SEC * SEC) as int)
}

fn z_bound(params: &Parameters) -> (r: num::BigInt)
    requires
        params.wf(),
    ensures
        int_of(r) == z_bound_spec(params),
{
    let tau = bigint_div(&params.p, &bigint_from(2));
    bigint_mul(
        &bigint_mul(&bigint_mul(&bigint_from(128), &bigint_from(params.n as i64)), &tau),
        &bigint_from((SEC * SEC) as i64),
    )
}

fn t_bound(params: &Parameters) -> (r: num::BigInt)
    requires
        params.wf(),
    ensures
        int_of(r) == t_bound_spec(params),
{
    let n_big = bigint_from(params.n as i64);
    let sqrt_n = bigint_sqrt(&n_big);
    proof {
        lemma_isqrt_unique(params.n as int, int_of(sqrt_n));
    }
    let rho = bigint_mul(
        &bigint_mul(&bigint_from(2), &bigint_from((params.r / 10) as i64)),
        &sqrt_n,
    );
    bigint_mul(
        &bigint_mul(
            &bigint_mul(&bigint_from(128), &bigint_from((3 * params.n) as i64)),
            &rho,
        ),
        &bigint_from((SEC * SEC) as i64),
    )
}

/// The bound below which the prover samples its mask coefficients
/// `u`: the response bound over `p`, less room for the challenge
/// combination of the `SEC` witnesses, floored at one.
pub open spec fn u_sample_bound(params: &Parameters) -> int {
    let b = z_bound_spec(params) / params.pp() - (SEC + 1);
    if b < 1 {
        1
    } else {
        b
    }
}

/// The bound below which the prover samples its commitment randomness
/// `s`: the response bound, less room for the challenge combination,
/// floored at one.
pub open spec fn s_sample_bound(params: &Parameters) -> int {
    let b = t_bound_spec(params) - 100000;
    if b < 1 {
        1
    } else {
        b
    }
}

// ---------------------------------------------------------------------
// The verifier
// ---------------------------------------------------------------------

/// The views of a list of coefficient vectors.
pub open spec fn intss_views(s: Seq<Vec<num::BigInt>>) -> Seq<Seq<int>> {
    Seq::new(s.len(), |i: int| ints_of(s[i]@))
}

/// The re-encryption `Enc(z_i; T_i)` that the verifier compares: `T_i`
/// is split into its three randomness components of length `N`.
pub open spec fn reenc_spec(params: &Parameters, pk0: Seq<int>, pk1: Seq<int>, zi: Seq<int>, ti: Seq<int>) -> Seq<Seq<int>> {
    let n = params.n as int;
    let t1 = ti.subrange(0, n);
    let t2 = ti.subrange(n, 2 * n);
    let t3 = ti.subrange(2 * n, 3 * n);
    seq![
        enc_c0(params.qq(), params.ff(), params.pp(), zi, pk1, t1, t3),
        enc_c1(params.qq(), params.ff(), params.pp(), pk0, t1, t2),
    ]
}

/// The homomorphic sum `sum_{k < kk, M_e[k][i] = 1} c_k`, folded from
/// the empty ciphertext.
pub open spec fn me_ct_fold(q: int, f: Seq<int>, e: Seq<u8>, c: Seq<Seq<Seq<int>>>, i: int, kk: int) -> Seq<Seq<int>>
    decreases kk,
{
    if kk <= 0 {
        Seq::empty()
    } else {
        let prev = me_ct_fold(q, f, e, c, i, kk - 1);
        if me_entry(e, kk - 1, i) == 1 {
            ct_add_spec(q, f, prev, c[kk - 1])
        } else {
            prev
        }
    }
}

/// Acceptance of a proof `(a, z, T)` on ciphertexts `c` under `pk`:
/// the shapes are right, each slot satisfies the re-encryption
/// equation `Enc(z_i; T_i) = a_i + sum M_e[k][i]·c_k`, and both norm
/// bounds hold. The challenge is the transcript hash of `(a, c)`.
pub open spec fn zkpopk_accepts(
    params: &Parameters,
    pk0: Seq<int>,
    pk1: Seq<int>,
    a: Seq<Seq<Seq<int>>>,
    z: Seq<Seq<int>>,
    t: Seq<Seq<int>>,
    c: Seq<Seq<Seq<int>>>,
) -> bool {
    let e = e_bits(a, c);
    let n = params.n as int;
    &&& a.len() == V
    &&& z.len() == V
    &&& t.len() == V
    &&& c.len() >= SEC
    &&& forall|i: int| 0 <= i < V ==> 1 <= (#[trigger] z[i]).len() <= 0x4000_0000
    &&& forall|i: int| 0 <= i < V ==> (#[trigger] t[i]).len() == 3 * n
    &&& forall|i: int|
        0 <= i < V ==> #[trigger] reenc_spec(params, pk0, pk1, z[i], t[i]) == ct_add_spec(
            params.qq(),
            params.ff(),
            a[i],
            me_ct_fold(params.qq(), params.ff(), e, c, i, SEC as int),
        )
    &&& forall|i: int| 0 <= i < V ==> norm_seq(#[trigger] z[i]) <= z_bound_spec(params)
    &&& forall|i: int| 0 <= i < V ==> norm_seq(#[trigger] t[i]) <= t_bound_spec(params)
}

fn poly_from_slice(v: &Vec<num::BigInt>, start: usize, end: usize) -> (r: Polynomial)
    requires
        start <= end <= v@.len(),
    ensures
        r@ == ints_of(v@).subrange(start as int, end as int),
{
    let mut out: Vec<num::BigInt> = Vec::new();
    let mut i: usize = start;
    while i < end
        invariant
            start <= i <= end <= v@.len(),
            out@.len() == i - start,
            forall|j: int| 0 <= j < i - start ==> ints_of(out@)[j] == ints_of(v@)[start + j],
        decreases end - i,
    {
        out.push(bigint_clone(&v[i]));
        i += 1;
    }
    proof {
        assert(ints_of(out@) =~= ints_of(v@).subrange(start as int, end as int));
    }
    Polynomial::new(out)
}

pub fn ct_eq(a: &Ciphertext, b: &Ciphertext) -> (r: bool)
    ensures
        r == (ct_views(a@) == ct_views(b@)),
{
    if a.len() != b.len() {
        proof {
            assert(ct_views(a@).len() != ct_views(b@).len());
        }
        return false;
    }
    let n = a.len();
    let mut i: usize = 0;
    while i < n
        invariant
            n == a@.len() == b@.len(),
            i <= n,
            forall|j: int| 0 <= j < i ==> ct_views(a@)[j] == ct_views(b@)[j],
        decreases n - i,
    {
        if !(a[i] == b[i]) {
            proof {
                assert(ct_views(a@)[i as int] != ct_views(b@)[i as int]);
            }
            return false;
        }
        i += 1;
    }
    proof {
        assert(ct_views(a@) =~= ct_views(b@));
    }
    true
}

/// Verify a proof of plaintext knowledge. Returns exactly
/// [`zkpopk_accepts`] of the inputs.
#[verifier::rlimit(100)]
pub fn verify_zkpopk(
    params: &Parameters,
    a: Vec<Ciphertext>,
    z: Vec<Vec<num::BigInt>>,
    t: Vec<Vec<num::BigInt>>,
    c: Vec<Ciphertext>,
    pk: &PublicKey,
) -> (res: bool)
    requires
        params.wf(),
        poly_ok(pk.0@),
        poly_ok(pk.1@),
    ensures
        res == zkpopk_accepts(
            params,
            pk.0@,
            pk.1@,
            cts_views(a@),
            intss_views(z@),
            intss_views(t@),
            cts_views(c@),
        ),
{
    let ghost q = params.qq();
    let ghost f = params.ff();
    let ghost aviews = cts_views(a@);
    let ghost zviews = intss_views(z@);
    let ghost tviews = intss_views(t@);
    let ghost cviews = cts_views(c@);
    let n = params.n;

    if a.len() != V || z.len() != V || t.len() != V || c.len() < SEC {
        return false;
    }
    let mut i: usize = 0;
    while i < V
        invariant
            zviews == intss_views(z@),
            tviews == intss_views(t@),
            z@.len() == V,
            t@.len() == V,
            n == params.n,
            i <= V,
            forall|j: int| 0 <= j < i ==> 1 <= (#[trigger] zviews[j]).len() <= 0x4000_0000,
            forall|j: int| 0 <= j < i ==> (#[trigger] tviews[j]).len() == 3 * n,
        decreases V - i,
    {
        if z[i].len() < 1 || z[i].len() > 0x4000_0000 {
            proof {
                assert(!(1 <= zviews[i as int].len() <= 0x4000_0000));
            }
            return false;
        }
        if t[i].len() != 3 * n {
            proof {
                assert(tviews[i as int].len() != 3 * n);
            }
            return false;
        }
        proof {
            assert(1 <= zviews[i as int].len() <= 0x4000_0000);
            assert(tviews[i as int].len() == 3 * n);
        }
        i += 1;
    }

    let e = hash(&a, &c);
    let m_e = create_m_e_from_e(e);
    let ghost ee = e_bits(aviews, cviews);

    let mut i: usize = 0;
    while i < V
        invariant
            params.wf(),
            q == params.qq(),
            f == params.ff(),
            poly_ok(pk.0@),
            poly_ok(pk.1@),
            aviews == cts_views(a@),
            zviews == intss_views(z@),
            tviews == intss_views(t@),
            cviews == cts_views(c@),
            ee == e_bits(aviews, cviews),
            a@.len() == V,
            z@.len() == V,
            t@.len() == V,
            c@.len() >= SEC,
            n == params.n,
            m_e@.len() == SEC,
            forall|ii: int| 0 <= ii < SEC ==> (#[trigger] m_e@[ii])@.len() == V,
            forall|ii: int, k: int|
                0 <= ii < SEC && 0 <= k < V ==> (#[trigger] m_e@[ii]@[k]) == me_entry(ee, ii, k),
            forall|j: int| 0 <= j < V ==> 1 <= (#[trigger] zviews[j]).len() <= 0x4000_0000,
            forall|j: int| 0 <= j < V ==> (#[trigger] tviews[j]).len() == 3 * n,
            i <= V,
            forall|j: int|
                0 <= j < i ==> #[trigger] reenc_spec(params, pk.0@, pk.1@, zviews[j], tviews[j])
                    == ct_add_spec(q, f, aviews[j], me_ct_fold(q, f, ee, cviews, j, SEC as int)),
        decreases V - i,
    {
        proof {
            assert(tviews[i as int].len() == 3 * n);
            assert(t@[i as int]@.len() == 3 * n);
            assert(1 <= zviews[i as int].len() <= 0x4000_0000);
        }
        let t1 = poly_from_slice(&t[i], 0, n);
        let t2 = poly_from_slice(&t[i], n, 2 * n);
        let t3 = poly_from_slice(&t[i], 2 * n, 3 * n);
        let z_poly = Polynomial::new(bigints_cloned(&z[i]));
        let d_i = encrypt_det(params, z_poly, pk, (t1, t2, t3));

        let mut sum: Ciphertext = Vec::new();
        let mut k: usize = 0;
        while k < SEC
            invariant
                params.wf(),
                q == params.qq(),
                f == params.ff(),
                cviews == cts_views(c@),
                ee == e_bits(aviews, cviews),
                c@.len() >= SEC,
                i < V,
                m_e@.len() == SEC,
                forall|ii: int| 0 <= ii < SEC ==> (#[trigger] m_e@[ii])@.len() == V,
                forall|ii: int, kk: int|
                    0 <= ii < SEC && 0 <= kk < V ==> (#[trigger] m_e@[ii]@[kk]) == me_entry(
                        ee,
                        ii,
                        kk,
                    ),
                k <= SEC,
                ct_views(sum@) == me_ct_fold(q, f, ee, cviews, i as int, k as int),
            decreases SEC - k,
        {
            if m_e[k][i] == 1 {
                let new_sum = crate::encryption::add(params, &sum, &c[k]);
                proof {
                    assert(ct_views(new_sum@) =~= ct_add_spec(
                        q,
                        f,
                        ct_views(sum@),
                        cviews[k as int],
                    ));
                }
                sum = new_sum;
            }
            k += 1;
        }

        let test = crate::encryption::add(params, &a[i], &sum);
        proof {
            assert(ct_views(test@) =~= ct_add_spec(q, f, aviews[i as int], ct_views(sum@)));
            assert(ints_of(z@[i as int]@) == zviews[i as int]);
            assert(ct_views(d_i@) =~= reenc_spec(
                params,
                pk.0@,
                pk.1@,
                zviews[i as int],
                tviews[i as int],
            ));
        }
        if !ct_eq(&test, &d_i) {
            return false;
        }
        i += 1;
    }

    let zb = z_bound(params);
    let tb = t_bound(params);
    let mut i: usize = 0;
    while i < V
        invariant
            params.wf(),
            zviews == intss_views(z@),
            z@.len() == V,
            int_of(zb) == z_bound_spec(params),
            i <= V,
            forall|j: int| 0 <= j < i ==> norm_seq(#[trigger] zviews[j]) <= z_bound_spec(params),
        decreases V - i,
    {
        let z_poly = Polynomial::new(bigints_cloned(&z[i]));
        let nm = z_poly.l_inf_norm();
        if !bigint_le(&nm, &zb) {
            proof {
                assert(norm_seq(zviews[i as int]) > z_bound_spec(params));
            }
            return false;
        }
        proof {
            assert(norm_seq(zviews[i as int]) <= z_bound_spec(params));
        }
        i += 1;
    }
    let mut i: usize = 0;
    while i < V
        invariant
            params.wf(),
            tviews == intss_views(t@),
            t@.len() == V,
            int_of(tb) == t_bound_spec(params),
            i <= V,
            forall|j: int| 0 <= j < i ==> norm_seq(#[trigger] tviews[j]) <= t_bound_spec(params),
        decreases V - i,
    {
        let t_poly = Polynomial::new(bigints_cloned(&t[i]));
        let nm = t_poly.l_inf_norm();
        if !bigint_le(&nm, &tb) {
            proof {
                assert(norm_seq(tviews[i as int]) > t_bound_spec(params));
            }
            return false;
        }
        proof {
            assert(norm_seq(tviews[i as int]) <= t_bound_spec(params));
        }
        i += 1;
    }
    true
}

// ---------------------------------------------------------------------
// The prover
// ---------------------------------------------------------------------

/// The views of a list of randomness triples.
pub open spec fn rand_views(s: Seq<(Polynomial, Polynomial, Polynomial)>) -> Seq<
    (Seq<int>, Seq<int>, Seq<int>),
> {
    Seq::new(s.len(), |i: int| (s[i].0@, s[i].1@, s[i].2@))
}

/// A randomness triple flattened to `3N` coordinates, each component
/// padded with zeros to length `N`.
pub open spec fn flat3(s: (Seq<int>, Seq<int>, Seq<int>), n: int, col: int) -> int {
    if col < n {
        index_or0(s.0, col)
    } else if col < 2 * n {
        index_or0(s.1, col - n)
    } else {
        index_or0(s.2, col - 2 * n)
    }
}

/// The banded-matrix sum `sum_{k < kk} M_e[k][i] · x_k[j]`.
pub open spec fn me_dot_x(e: Seq<u8>, xs: Seq<Seq<int>>, i: int, j: int, kk: int) -> int
    decreases kk,
{
    if kk <= 0 {
        0
    } else {
        me_dot_x(e, xs, i, j, kk - 1) + (me_entry(e, kk - 1, i) as int) * index_or0(xs[kk - 1], j)
    }
}

/// The banded-matrix sum over the flattened randomness rows.
pub open spec fn me_dot_r(
    e: Seq<u8>,
    rs: Seq<(Seq<int>, Seq<int>, Seq<int>)>,
    n: int,
    i: int,
    col: int,
    kk: int,
) -> int
    decreases kk,
{
    if kk <= 0 {
        0
    } else {
        me_dot_r(e, rs, n, i, col, kk - 1) + (me_entry(e, kk - 1, i) as int) * flat3(
            rs[kk - 1],
            n,
            col,
        )
    }
}

/// What the prover outputs: for commitment plaintexts `y` and
/// commitment randomness `s`, each `a_i` encrypts `y_i` under `s_i`,
/// the response `z` is `y + M_e·x` coordinate-wise, and the response
/// `T` is `s + M_e·r` over the flattened randomness.
pub open spec fn zkpopk_prover_rel(
    params: &Parameters,
    pk0: Seq<int>,
    pk1: Seq<int>,
    xs: Seq<Seq<int>>,
    rs: Seq<(Seq<int>, Seq<int>, Seq<int>)>,
    e: Seq<u8>,
    a: Seq<Seq<Seq<int>>>,
    z: Seq<Seq<int>>,
    t: Seq<Seq<int>>,
    y: Seq<Seq<int>>,
    s: Seq<(Seq<int>, Seq<int>, Seq<int>)>,
) -> bool {
    let n = params.n as int;
    &&& y.len() == V
    &&& s.len() == V
    &&& forall|i: int|
        0 <= i < V ==> #[trigger] a[i] == seq![
            enc_c0(params.qq(), params.ff(), params.pp(), y[i], pk1, s[i].0, s[i].2),
            enc_c1(params.qq(), params.ff(), params.pp(), pk0, s[i].0, s[i].1),
        ]
    &&& forall|i: int, j: int|
        0 <= i < V && 0 <= j < n ==> #[trigger] z[i][j] == index_or0(y[i], j) + me_dot_x(
            e,
            xs,
            i,
            j,
            SEC as int,
        )
    &&& forall|i: int, col: int|
        0 <= i < V && 0 <= col < 3 * n ==> #[trigger] t[i][col] == flat3(s[i], n, col) + me_dot_r(
            e,
            rs,
            n,
            i,
            col,
            SEC as int,
        )
    &&& forall|i: int| 0 <= i < V ==> (#[trigger] y[i]).len() <= n
    &&& forall|i: int, j: int|
        0 <= i < V && 0 <= j < y[i].len() ==> 0 <= #[trigger] y[i][j] < params.pp()
            * u_sample_bound(params)
    &&& forall|i: int|
        0 <= i < V ==> (#[trigger] s[i]).0.len() == n && s[i].1.len() == n && s[i].2.len() == n
    &&& forall|i: int, j: int|
        0 <= i < V && 0 <= j < n ==> 0 <= #[trigger] (s[i].0)[j] < s_sample_bound(params) && 0 <= (
        s[i].1)[j] < s_sample_bound(params) && 0 <= (s[i].2)[j] < s_sample_bound(params)
}

fn flat_coeff(trip: &(Polynomial, Polynomial, Polynomial), n: usize, col: usize) -> (r:
    num::BigInt)
    requires
        n <= 0x4000_0000,
    ensures
        int_of(r) == flat3((trip.0@, trip.1@, trip.2@), n as int, col as int),
{
    if col < n {
        trip.0.coeff_or_zero(col)
    } else if col < 2 * n {
        trip.1.coeff_or_zero(col - n)
    } else {
        trip.2.coeff_or_zero(col - 2 * n)
    }
}

/// Produce a proof of plaintext knowledge for the batch `c` of
/// encryptions of `x` under randomness `r`. The contract binds the
/// output to the Fiat-Shamir challenge of `(a, c)` through
/// [`zkpopk_prover_rel`], for the sampled commitment values `y` and
/// `s`.
#[verifier::rlimit(100)]
pub fn make_zkpopk(
    params: &Parameters,
    x: Vec<Polynomial>,
    r: Vec<(Polynomial, Polynomial, Polynomial)>,
    c: Vec<Ciphertext>,
    diagonal: bool,
    pk: &PublicKey,
) -> (res: (Vec<Ciphertext>, Vec<Vec<num::BigInt>>, Vec<Vec<num::BigInt>>))
    requires
        params.wf(),
        poly_ok(pk.0@),
        poly_ok(pk.1@),
        x@.len() == SEC,
        r@.len() == SEC,
    ensures
        res.0@.len() == V,
        res.1@.len() == V,
        res.2@.len() == V,
        forall|i: int| 0 <= i < V ==> ints_of((#[trigger] res.1@[i])@).len() == params.n,
        forall|i: int| 0 <= i < V ==> ints_of((#[trigger] res.2@[i])@).len() == 3 * params.n,
        exists|y: Seq<Seq<int>>, s: Seq<(Seq<int>, Seq<int>, Seq<int>)>|
            zkpopk_prover_rel(
                params,
                pk.0@,
                pk.1@,
                ct_views(x@),
                rand_views(r@),
                e_bits(cts_views(res.0@), cts_views(c@)),
                cts_views(res.0@),
                intss_views(res.1@),
                intss_views(res.2@),
                y,
                s,
            ),
{
    let ghost q = params.qq();
    let ghost f = params.ff();
    let n = params.n;
    let one = bigint_from(1);

    // The commitment values are sampled a little below the verifier's
    // bounds, so that adding the banded challenge combination of the
    // witnesses (at most SEC terms) cannot push an honest response over
    // them. The floors of one keep the samplers total on degenerate
    // parameter sets.
    let y_bound = z_bound(params);
    let u_bound_raw = bigint_div(&y_bound, &params.p);
    let u_margin = bigint_from((SEC + 1) as i64);
    let u_bound_m = crate::bigint::bigint_sub(&u_bound_raw, &u_margin);
    let u_bound = if bigint_lt(&u_bound_m, &one) {
        bigint_from(1)
    } else {
        u_bound_m
    };
    let s_bound_raw = t_bound(params);
    let s_margin = bigint_from(100000);
    let s_bound_m = crate::bigint::bigint_sub(&s_bound_raw, &s_margin);
    let s_bound = if bigint_lt(&s_bound_m, &one) {
        bigint_from(1)
    } else {
        s_bound_m
    };
    proof {
        assert(z_bound_spec(params) >= 0) by (nonlinear_arith)
            requires
                params.n >= 1,
                params.pp() / 2 >= 1,
        ;
        assert(int_of(u_bound) == u_sample_bound(params));
        assert(int_of(s_bound) == s_sample_bound(params));
    }

    let mut y_vec: Vec<Polynomial> = Vec::new();
    let mut s_vec: Vec<(Polynomial, Polynomial, Polynomial)> = Vec::new();
    let mut a_vec: Vec<Ciphertext> = Vec::new();
    let mut i: usize = 0;
    while i < V
        invariant
            params.wf(),
            q == params.qq(),
            f == params.ff(),
            poly_ok(pk.0@),
            poly_ok(pk.1@),
            n == params.n,
            int_of(u_bound) >= 1,
            int_of(s_bound) >= 1,
            int_of(u_bound) == u_sample_bound(params),
            int_of(s_bound) == s_sample_bound(params),
            i <= V,
            y_vec@.len() == i,
            s_vec@.len() == i,
            a_vec@.len() == i,
            forall|ii: int| 0 <= ii < i ==> poly_ok((#[trigger] y_vec@[ii])@),
            forall|ii: int| 0 <= ii < i ==> (#[trigger] y_vec@[ii])@.len() <= n,
            forall|ii: int, j: int|
                0 <= ii < i && 0 <= j < y_vec@[ii]@.len() ==> 0 <= #[trigger] y_vec@[ii]@[j]
                    < params.pp() * u_sample_bound(params),
            forall|ii: int|
                0 <= ii < i ==> (#[trigger] s_vec@[ii]).0@.len() == n && s_vec@[ii].1@.len() == n
                    && s_vec@[ii].2@.len() == n,
            forall|ii: int, j: int|
                0 <= ii < i && 0 <= j < n ==> 0 <= #[trigger] (s_vec@[ii].0@)[j] < s_sample_bound(
                    params,
                ) && 0 <= (s_vec@[ii].1@)[j] < s_sample_bound(params) && 0 <= (s_vec@[ii].2@)[j]
                    < s_sample_bound(params),
            forall|ii: int|
                0 <= ii < i ==> #[trigger] ct_views(a_vec@[ii]@) == seq![
                    enc_c0(q, f, params.pp(), y_vec@[ii]@, pk.1@, s_vec@[ii].0@, s_vec@[ii].2@),
                    enc_c1(q, f, params.pp(), pk.0@, s_vec@[ii].0@, s_vec@[ii].1@),
                ],
        decreases V - i,
    {
        let m_i = sample_single(&params.p);
        let m_i = if diagonal {
            diag(params, m_i)
        } else {
            m_i
        };
        let encoded_m_i = encode(m_i);
        let u_i = sample_from_uniform(&u_bound, n);
        let u_scaled = u_i.mul_scalar(&params.p);
        let y_i = encoded_m_i.add(&u_scaled);
        proof {
            let ss = crate::poly::scale_seq(u_i@, params.pp());
            let ub = u_sample_bound(params);
            crate::poly::lemma_trim_len(ss);
            crate::poly::lemma_trim_len(
                crate::poly::add_seq(encoded_m_i@, crate::poly::trim_seq(ss)),
            );
            assert((ub - 1) * params.pp() + params.pp() == ub * params.pp()) by (nonlinear_arith);
            assert(params.pp() * ub == ub * params.pp()) by (nonlinear_arith);
            assert forall|j: int| 0 <= j < y_i@.len() implies 0 <= #[trigger] y_i@[j] < params.pp()
                * ub by {
                crate::poly::lemma_trim_index(
                    crate::poly::add_seq(encoded_m_i@, crate::poly::trim_seq(ss)),
                    j,
                );
                crate::poly::lemma_trim_index(ss, j);
                if 0 <= j < u_i@.len() {
                    assert(0 <= u_i@[j] * params.pp() <= (ub - 1) * params.pp())
                        by (nonlinear_arith)
                        requires
                            0 <= u_i@[j] <= ub - 1,
                            params.pp() >= 2,
                    ;
                }
                assert(params.pp() <= params.pp() * ub) by (nonlinear_arith)
                    requires
                        ub >= 1,
                        params.pp() >= 2,
                ;
            }
        }
        let s_i = (
            sample_from_uniform(&s_bound, n),
            sample_from_uniform(&s_bound, n),
            sample_from_uniform(&s_bound, n),
        );
        let a_i = encrypt_det(
            params,
            y_i.cloned(),
            pk,
            (s_i.0.cloned(), s_i.1.cloned(), s_i.2.cloned()),
        );
        proof {
            assert(ct_views(a_i@) =~= seq![
                enc_c0(q, f, params.pp(), y_i@, pk.1@, s_i.0@, s_i.2@),
                enc_c1(q, f, params.pp(), pk.0@, s_i.0@, s_i.1@),
            ]);
        }
        y_vec.push(y_i);
        s_vec.push(s_i);
        a_vec.push(a_i);
        i += 1;
    }

    let e = hash(&a_vec, &c);
    let m_e = create_m_e_from_e(e);
    let ghost ee = e_bits(cts_views(a_vec@), cts_views(c@));

    let mut z: Vec<Vec<num::BigInt>> = Vec::new();
    let mut i: usize = 0;
    while i < V
        invariant
            params.wf(),
            n == params.n,
            x@.len() == SEC,
            y_vec@.len() == V,
            m_e@.len() == SEC,
            forall|ii: int| 0 <= ii < SEC ==> (#[trigger] m_e@[ii])@.len() == V,
            forall|ii: int, k: int|
                0 <= ii < SEC && 0 <= k < V ==> (#[trigger] m_e@[ii]@[k]) == me_entry(ee, ii, k),
            i <= V,
            z@.len() == i,
            forall|ii: int| 0 <= ii < i ==> ints_of((#[trigger] z@[ii])@).len() == n,
            forall|ii: int, j: int|
                0 <= ii < i && 0 <= j < n ==> #[trigger] ints_of(z@[ii]@)[j] == index_or0(
                    y_vec@[ii]@,
                    j,
                ) + me_dot_x(ee, ct_views(x@), ii, j, SEC as int),
        decreases V - i,
    {
        let mut z_col: Vec<num::BigInt> = Vec::new();
        let mut j: usize = 0;
        while j < n
            invariant
                params.wf(),
                n == params.n,
                x@.len() == SEC,
                y_vec@.len() == V,
                i < V,
                m_e@.len() == SEC,
                forall|ii: int| 0 <= ii < SEC ==> (#[trigger] m_e@[ii])@.len() == V,
                forall|ii: int, k: int|
                    0 <= ii < SEC && 0 <= k < V ==> (#[trigger] m_e@[ii]@[k]) == me_entry(
                        ee,
                        ii,
                        k,
                    ),
                j <= n,
                z_col@.len() == j,
                forall|jj: int|
                    0 <= jj < j ==> #[trigger] ints_of(z_col@)[jj] == index_or0(y_vec@[i as int]@, jj)
                        + me_dot_x(ee, ct_views(x@), i as int, jj, SEC as int),
            decreases n - j,
        {
            let mut val = y_vec[i].coeff_or_zero(j);
            let mut k: usize = 0;
            while k < SEC
                invariant
                    params.wf(),
                    n == params.n,
                    x@.len() == SEC,
                    y_vec@.len() == V,
                    i < V,
                    j < n,
                    m_e@.len() == SEC,
                    forall|ii: int| 0 <= ii < SEC ==> (#[trigger] m_e@[ii])@.len() == V,
                    forall|ii: int, kx: int|
                        0 <= ii < SEC && 0 <= kx < V ==> (#[trigger] m_e@[ii]@[kx]) == me_entry(
                            ee,
                            ii,
                            kx,
                        ),
                    k <= SEC,
                    int_of(val) == index_or0(y_vec@[i as int]@, j as int) + me_dot_x(
                        ee,
                        ct_views(x@),
                        i as int,
                        j as int,
                        k as int,
                    ),
                decreases SEC - k,
            {
                let me_val = m_e[k][i];
                let xc = x[k].coeff_or_zero(j);
                let prod = bigint_mul(&bigint_from(me_val as i64), &xc);
                val = bigint_add(&val, &prod);
                k += 1;
            }
            z_col.push(val);
            j += 1;
        }
        z.push(z_col);
        i += 1;
    }

    let mut t: Vec<Vec<num::BigInt>> = Vec::new();
    let d3 = 3 * n;
    let mut i: usize = 0;
    while i < V
        invariant
            params.wf(),
            n == params.n,
            d3 == 3 * n,
            r@.len() == SEC,
            s_vec@.len() == V,
            m_e@.len() == SEC,
            forall|ii: int| 0 <= ii < SEC ==> (#[trigger] m_e@[ii])@.len() == V,
            forall|ii: int, k: int|
                0 <= ii < SEC && 0 <= k < V ==> (#[trigger] m_e@[ii]@[k]) == me_entry(ee, ii, k),
            i <= V,
            t@.len() == i,
            forall|ii: int| 0 <= ii < i ==> ints_of((#[trigger] t@[ii])@).len() == 3 * n,
            forall|ii: int, col: int|
                0 <= ii < i && 0 <= col < 3 * n ==> #[trigger] ints_of(t@[ii]@)[col] == flat3(
                    (s_vec@[ii].0@, s_vec@[ii].1@, s_vec@[ii].2@),
                    n as int,
                    col,
                ) + me_dot_r(ee, rand_views(r@), n as int, ii, col, SEC as int),
        decreases V - i,
    {
        let mut row: Vec<num::BigInt> = Vec::new();
        let mut col: usize = 0;
        while col < d3
            invariant
                params.wf(),
                n == params.n,
                d3 == 3 * n,
                r@.len() == SEC,
                s_vec@.len() == V,
                i < V,
                m_e@.len() == SEC,
                forall|ii: int| 0 <= ii < SEC ==> (#[trigger] m_e@[ii])@.len() == V,
                forall|ii: int, k: int|
                    0 <= ii < SEC && 0 <= k < V ==> (#[trigger] m_e@[ii]@[k]) == me_entry(
                        ee,
                        ii,
                        k,
                    ),
                col <= d3,
                row@.len() == col,
                forall|cc: int|
                    0 <= cc < col ==> #[trigger] ints_of(row@)[cc] == flat3(
                        (s_vec@[i as int].0@, s_vec@[i as int].1@, s_vec@[i as int].2@),
                        n as int,
                        cc,
                    ) + me_dot_r(ee, rand_views(r@), n as int, i as int, cc, SEC as int),
            decreases d3 - col,
        {
            let mut val = flat_coeff(&s_vec[i], n, col);
            let mut k: usize = 0;
            while k < SEC
                invariant
                    params.wf(),
                    n == params.n,
                    d3 == 3 * n,
                    r@.len() == SEC,
                    s_vec@.len() == V,
                    i < V,
                    col < d3,
                    m_e@.len() == SEC,
                    forall|ii: int| 0 <= ii < SEC ==> (#[trigger] m_e@[ii])@.len() == V,
                    forall|ii: int, kx: int|
                        0 <= ii < SEC && 0 <= kx < V ==> (#[trigger] m_e@[ii]@[kx]) == me_entry(
                            ee,
                            ii,
                            kx,
                        ),
                    k <= SEC,
                    int_of(val) == flat3(
                        (s_vec@[i as int].0@, s_vec@[i as int].1@, s_vec@[i as int].2@),
                        n as int,
                        col as int,
                    ) + me_dot_r(ee, rand_views(r@), n as int, i as int, col as int, k as int),
                decreases SEC - k,
            {
                let me_val = m_e[k][i];
                let rc = flat_coeff(&r[k], n, col);
                let prod = bigint_mul(&bigint_from(me_val as i64), &rc);
                val = bigint_add(&val, &prod);
                k += 1;
            }
            row.push(val);
            col += 1;
        }
        t.push(row);
        i += 1;
    }

    let res = (a_vec, z, t);
    proof {
        let y_w = ct_views(y_vec@);
        let s_w = rand_views(s_vec@);
        assert forall|ii: int| 0 <= ii < V implies #[trigger] cts_views(res.0@)[ii] == seq![
            enc_c0(q, f, params.pp(), y_w[ii], pk.1@, s_w[ii].0, s_w[ii].2),
            enc_c1(q, f, params.pp(), pk.0@, s_w[ii].0, s_w[ii].1),
        ] by {
            assert(ct_views(res.0@[ii]@) == seq![
                enc_c0(q, f, params.pp(), y_vec@[ii]@, pk.1@, s_vec@[ii].0@, s_vec@[ii].2@),
                enc_c1(q, f, params.pp(), pk.0@, s_vec@[ii].0@, s_vec@[ii].1@),
            ]);
        }
        assert(zkpopk_prover_rel(
            params,
            pk.0@,
            pk.1@,
            ct_views(x@),
            rand_views(r@),
            ee,
            cts_views(res.0@),
            intss_views(res.1@),
            intss_views(res.2@),
            y_w,
            s_w,
        ));
    }
    res
}

} // verus!
