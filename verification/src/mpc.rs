//! The SPDZ-style MPC protocol: per-player state, distributed
//! decryption, and the share arithmetic shared by the preprocessing and
//! online phases.

use vstd::prelude::*;

use crate::bigint::{
    bigint_add, bigint_div, bigint_from, bigint_lt, bigint_mul, bigint_rem_euc, bigint_sqrt,
    int_of, ints_of,
};
use crate::encryption::{ct_add_entry, ct_views, poly_ok, Ciphertext, Parameters, PublicKey};
use crate::poly::Polynomial;
use crate::prob::sample_from_uniform;
use crate::protocol::{Facilitator, KeyMaterial, MessageKind, MpcError, OnlineMessage};
use crate::quotient_ring::lemma_reduce_bounds;

pub mod commitment;
pub mod keygen;
pub mod online;
pub mod prep;
pub mod zk;

verus! {

/// The statistical security parameter.
pub const SEC: usize = 40;

/// The number of slots of a zero-knowledge proof of plaintext
/// knowledge.
pub const V: usize = 2 * SEC + 1;

/// An authenticated share: this player's additive share of a value and
/// of its MAC.
pub type AngleShare = (num::BigInt, num::BigInt);

/// A multiplication triple of authenticated shares.
pub type MulTriple = (AngleShare, AngleShare, AngleShare);

/// A player's protocol state: key material, the MAC key share, the
/// public encryption of the MAC key, the log of opened values pending a
/// MAC check, and the transport.
pub struct PlayerState<F: Facilitator> {
    /// Additive share of sk.
    pub sk_i1: Polynomial,
    /// Additive share of sk^2.
    pub sk_i2: Polynomial,
    pub pk: PublicKey,
    /// Additive share of the MAC key.
    pub alpha_i: num::BigInt,
    /// The public encryption of the MAC key.
    pub e_alpha: Ciphertext,
    /// Opened values with their MAC shares, pending the next MAC check.
    pub opened: Vec<(num::BigInt, num::BigInt)>,
    pub facilitator: F,
}

impl<F: Facilitator> PlayerState<F> {
    /// The key material is fit for the ring operations.
    pub open spec fn key_wf(&self) -> bool {
        &&& poly_ok(self.pk.0@)
        &&& poly_ok(self.pk.1@)
        &&& poly_ok(self.sk_i1@)
        &&& poly_ok(self.sk_i2@)
    }

    /// The state after a successful `Initialize`: key material plus a
    /// usable public encryption of the MAC key.
    pub open spec fn ready(&self) -> bool {
        &&& self.key_wf()
        &&& 1 <= self.e_alpha@.len() <= 3
        &&& forall|i: int| 0 <= i < self.e_alpha@.len() ==> poly_ok((#[trigger] self.e_alpha@[i])@)
    }

    pub fn new(facilitator: F, key_material: KeyMaterial) -> (r: Self)
        ensures
            r.sk_i1@ == key_material.sk_i1@,
            r.sk_i2@ == key_material.sk_i2@,
            r.pk.0@ == key_material.pk.0@,
            r.pk.1@ == key_material.pk.1@,
            int_of(r.alpha_i) == 0,
            r.e_alpha@.len() == 0,
            r.opened@.len() == 0,
            r.facilitator == facilitator,
    {
        Self {
            sk_i1: key_material.sk_i1,
            sk_i2: key_material.sk_i2,
            pk: key_material.pk,
            alpha_i: bigint_from(0),
            e_alpha: Vec::new(),
            opened: Vec::new(),
            facilitator,
        }
    }

    pub fn stop(self) {
        self.facilitator.stop()
    }
}

/// The sum of the first `n` entries of a sequence of integers.
pub open spec fn sum_prefix(s: Seq<int>, n: int) -> int
    decreases n,
{
    if n <= 0 {
        0
    } else {
        sum_prefix(s, n - 1) + s[n - 1]
    }
}

/// The sum of all entries.
pub open spec fn sum_ints(s: Seq<int>) -> int {
    sum_prefix(s, s.len() as int)
}

/// The reconstruction of an additively shared field element: the sum of
/// the shares modulo `p`.
pub fn open_shares(params: &Parameters, shares: Vec<num::BigInt>) -> (r: num::BigInt)
    requires
        params.wf(),
    ensures
        int_of(r) == sum_ints(ints_of(shares@)) % params.pp(),
        0 <= int_of(r) < params.pp(),
{
    let mut r = bigint_from(0);
    let mut i: usize = 0;
    while i < shares.len()
        invariant
            i <= shares@.len(),
            params.wf(),
            int_of(r) == sum_prefix(ints_of(shares@), i as int) % params.pp(),
            0 <= int_of(r) < params.pp(),
        decreases shares@.len() - i,
    {
        let s = bigint_add(&r, &shares[i]);
        let r2 = bigint_rem_euc(&s, &params.p);
        proof {
            vstd::arithmetic::div_mod::lemma_add_mod_noop_right(
                ints_of(shares@)[i as int],
                sum_prefix(ints_of(shares@), i as int),
                params.pp(),
            );
        }
        r = r2;
        i += 1;
    }
    r
}

/// The view of a list of ciphertexts.
pub open spec fn cts_views(s: Seq<Ciphertext>) -> Seq<Seq<Seq<int>>> {
    Seq::new(s.len(), |i: int| ct_views(s[i]@))
}

/// Component-wise ring addition of two ciphertext views.
pub open spec fn ct_add_spec(q: int, f: Seq<int>, a: Seq<Seq<int>>, b: Seq<Seq<int>>) -> Seq<
    Seq<int>,
> {
    Seq::new(
        crate::poly::spec_max(a.len() as int, b.len() as int) as nat,
        |i: int| ct_add_entry(q, f, a, b, i),
    )
}

/// The fold of ciphertext addition over the first `n` summands,
/// starting from the zero ciphertext of length one.
pub open spec fn ct_fold(q: int, f: Seq<int>, shares: Seq<Seq<Seq<int>>>, n: int) -> Seq<Seq<int>>
    decreases n,
{
    if n <= 0 {
        seq![seq![0int]]
    } else {
        ct_add_spec(q, f, ct_fold(q, f, shares, n - 1), shares[n - 1])
    }
}

/// The homomorphic sum of the players' broadcast ciphertexts.
pub fn add_encrypted_shares(params: &Parameters, enc_shares: Vec<Ciphertext>) -> (res: Ciphertext)
    requires
        params.wf(),
    ensures
        ct_views(res@) == ct_fold(
            params.qq(),
            params.ff(),
            cts_views(enc_shares@),
            enc_shares@.len() as int,
        ),
        forall|k: int| 0 <= k < res@.len() ==> poly_ok(#[trigger] res@[k]@),
{
    let mut res: Vec<Polynomial> = Vec::new();
    res.push(Polynomial::zero());
    proof {
        assert(ct_views(res@) =~= seq![seq![0int]]);
    }
    let mut i: usize = 0;
    while i < enc_shares.len()
        invariant
            params.wf(),
            i <= enc_shares@.len(),
            ct_views(res@) == ct_fold(
                params.qq(),
                params.ff(),
                cts_views(enc_shares@),
                i as int,
            ),
            forall|k: int| 0 <= k < res@.len() ==> poly_ok(#[trigger] res@[k]@),
        decreases enc_shares@.len() - i,
    {
        let next = crate::encryption::add(params, &res, &enc_shares[i]);
        proof {
            assert(ct_views(next@) =~= ct_add_spec(
                params.qq(),
                params.ff(),
                ct_views(res@),
                cts_views(enc_shares@)[i as int],
            ));
        }
        res = next;
        i += 1;
    }
    res
}

/// The diagonal embedding of a field element into the plaintext space.
/// With single-slot plaintexts it is the element itself.
pub fn diag(_params: &Parameters, a: num::BigInt) -> (r: num::BigInt)
    ensures
        int_of(r) == int_of(a),
{
    a
}

/// The running ring sum of a list of polynomial shares, starting from
/// the zero polynomial.
pub open spec fn rq_sum(q: int, f: Seq<int>, shares: Seq<Seq<int>>, n: int) -> Seq<int>
    decreases n,
{
    if n <= 0 {
        seq![0int]
    } else {
        crate::quotient_ring::rq_add(q, f, rq_sum(q, f, shares, n - 1), shares[n - 1])
    }
}

/// Combine the broadcast decryption shares: sum them in the ring and
/// lift the coefficients into the centered range; fail with the norm
/// when the centered L-infinity norm reaches `q / 2`, and otherwise
/// return the constant coefficient reduced modulo `p`. This is the
/// reconstruction step of the distributed decryption, exact for every
/// list of shares.
pub fn combine_decryption_shares(params: &Parameters, shares: Vec<Polynomial>) -> (res: Result<
    num::BigInt,
    MpcError,
>)
    requires
        params.wf(),
    ensures
        ({
            let total = rq_sum(
                params.qq(),
                params.ff(),
                crate::encryption::ct_views(shares@),
                shares@.len() as int,
            );
            let cen = crate::poly::centered_seq(total, params.qq());
            match res {
                Ok(v) => crate::poly::norm_seq(cen) < params.qq() / 2 && int_of(v)
                    == crate::poly::index_or0(cen, 0) % params.pp() && 0 <= int_of(v)
                    < params.pp(),
                Err(MpcError::DecryptionTooNoisy(nm)) => crate::poly::norm_seq(cen) >= params.qq()
                    / 2 && int_of(nm) == crate::poly::norm_seq(cen),
                Err(_) => false,
            }
        }),
{
    let rq = &params.quotient_ring;
    let ghost q = params.qq();
    let ghost f = params.ff();
    let mut t_prime = Polynomial::zero();
    let n = shares.len();
    let mut i: usize = 0;
    while i < n
        invariant
            params.wf(),
            q == params.qq(),
            f == params.ff(),
            n == shares@.len(),
            i <= n,
            poly_ok(t_prime@),
            t_prime@ == rq_sum(q, f, crate::encryption::ct_views(shares@), i as int),
        decreases n - i,
    {
        let next = rq.add(&t_prime, &shares[i]);
        proof {
            lemma_reduce_bounds(q, f, crate::poly::add_seq(t_prime@, shares@[i as int]@));
        }
        t_prime = next;
        i += 1;
    }

    let msg_minus_q = t_prime.normalized_coefficients(&rq.q);
    let two = bigint_from(2);
    let q_half = bigint_div(&rq.q, &two);
    let norm = msg_minus_q.l_inf_norm();
    if !bigint_lt(&norm, &q_half) {
        return Err(MpcError::DecryptionTooNoisy(norm));
    }
    let reduced = msg_minus_q.modulo(&params.p);
    proof {
        let m = crate::poly::mod_seq(msg_minus_q@, params.pp());
        crate::poly::lemma_trim_len(m);
        crate::poly::lemma_trim_index(m, 0);
        vstd::arithmetic::div_mod::lemma_mod_bound(m[0], params.pp());
    }
    Ok(crate::encryption::decode(reduced))
}

/// Distributed decryption: add flooding noise to the local share,
/// broadcast it, and reconstruct through
/// [`combine_decryption_shares`], whose contract pins the result for
/// every list of received shares. Fails if a received message is not a
/// polynomial share, or if the centered sum's norm reaches `q / 2`.
pub fn ddec<F: Facilitator>(params: &Parameters, state: &PlayerState<F>, c: Ciphertext) -> (res:
    Result<num::BigInt, MpcError>)
    requires
        params.wf(),
        poly_ok(state.sk_i1@),
        poly_ok(state.sk_i2@),
        2 <= c@.len() <= 3,
        forall|i: int| 0 <= i < c@.len() ==> poly_ok(#[trigger] c@[i]@),
    ensures
        match res {
            Ok(v) => 0 <= int_of(v) < params.pp(),
            Err(_) => true,
        },
{
    let rq = &params.quotient_ring;
    let ghost q = params.qq();
    let ghost f = params.ff();
    let mut c = c;
    if c.len() == 2 {
        c.push(Polynomial::zero());
    }

    let si1_ci1 = rq.mul(&state.sk_i1, &c[1]);
    let si2_ci2 = rq.mul(&state.sk_i2, &c[2]);
    proof {
        lemma_reduce_bounds(q, f, crate::poly::mul_seq(state.sk_i1@, c@[1]@));
        lemma_reduce_bounds(q, f, crate::poly::mul_seq(state.sk_i2@, c@[2]@));
    }
    let sum = rq.add(&si1_ci1, &si2_ci2);
    proof {
        lemma_reduce_bounds(q, f, crate::poly::add_seq(si1_ci1@, si2_ci2@));
    }

    let v_i = if state.facilitator.player_number() == 0 {
        let w = rq.add(&c[0], &sum);
        proof {
            lemma_reduce_bounds(q, f, crate::poly::add_seq(c@[0]@, sum@));
        }
        w
    } else {
        sum
    };

    let n_players = state.facilitator.player_count();
    let n_players = if n_players < 1 {
        1
    } else if n_players <= 0x7fff_ffff {
        n_players
    } else {
        0x7fff_ffff
    };
    let norm_bound = flood_bound(params, n_players);
    let noise = sample_from_uniform(&norm_bound, params.n);
    let noise_p = rq.times(&noise, &params.p);
    proof {
        lemma_reduce_bounds(q, f, crate::poly::scale_seq(noise@, params.pp()));
    }
    let t_i = rq.add(&v_i, &noise_p);
    proof {
        lemma_reduce_bounds(q, f, crate::poly::add_seq(v_i@, noise_p@));
    }

    state.facilitator.broadcast(&OnlineMessage::SharePoly(t_i));

    let messages = state.facilitator.receive_from_all();
    let mut t_shares: Vec<Polynomial> = Vec::new();
    let mut i: usize = 0;
    let n_msgs = messages.len();
    while i < n_msgs
        invariant
            i <= n_msgs,
            n_msgs == messages@.len(),
        decreases n_msgs - i,
    {
        match &messages[i] {
            OnlineMessage::SharePoly(t_j) => {
                t_shares.push(t_j.cloned());
            },
            other => {
                return Err(MpcError::BadMessage(MessageKind::SharePoly, other.kind()));
            },
        }
        i += 1;
    }

    combine_decryption_shares(params, t_shares)
}

/// The flooding-noise bound: `2^SEC · B / (n_players · p)` with
/// `B = p/2 + p·(4·C_m·σ²·N² + 2·√N·σ + 4·C_m·σ²·N²)`, `C_m = 8.6` and
/// the deviation carried in tenths; floored at one so that a uniform
/// draw below it is always possible.
pub open spec fn flood_bound_spec(params: &Parameters, n_players: int) -> int {
    let rt = params.r as int;
    let n = params.n as int;
    let term = (((4 * 86) * (rt * rt)) * (n * n)) / 1000;
    let mid = ((2 * crate::mpc::zk::spec_isqrt(n)) * rt) / 10;
    let bound_b = params.pp() / 2 + params.pp() * ((term + mid) + term);
    let nb = (0x100_0000_0000 * bound_b) / (n_players * params.pp());
    if nb < 1 {
        1
    } else {
        nb
    }
}

/// The flooding-noise bound, as [`flood_bound_spec`] computes it.
pub fn flood_bound(params: &Parameters, n_players: usize) -> (r: num::BigInt)
    requires
        params.wf(),
        1 <= n_players <= 0x7fff_ffff,
    ensures
        int_of(r) == flood_bound_spec(params, n_players as int),
        int_of(r) >= 1,
{
    let ghost rtg = params.r as int;
    let ghost ng = params.n as int;
    let rt = bigint_from(params.r as i64);
    let n_big = bigint_from(params.n as i64);
    let rt2 = bigint_mul(&rt, &rt);
    let n2 = bigint_mul(&n_big, &n_big);
    proof {
        assert(((4 * 86) * (rtg * rtg)) * (ng * ng) >= 0) by (nonlinear_arith)
            requires
                rtg >= 1,
                ng >= 1,
        ;
    }
    let term = bigint_div(
        &bigint_mul(&bigint_mul(&bigint_from(4 * 86), &rt2), &n2),
        &bigint_from(1000),
    );
    let sqrt_n = bigint_sqrt(&n_big);
    proof {
        crate::mpc::zk::lemma_isqrt_unique(ng, int_of(sqrt_n));
        assert((2 * crate::mpc::zk::spec_isqrt(ng)) * rtg >= 0) by (nonlinear_arith)
            requires
                crate::mpc::zk::spec_isqrt(ng) >= 0,
                rtg >= 1,
        ;
        vstd::arithmetic::div_mod::lemma_div_pos_is_pos(
            ((4 * 86) * (rtg * rtg)) * (ng * ng),
            1000,
        );
        vstd::arithmetic::div_mod::lemma_div_pos_is_pos(
            (2 * crate::mpc::zk::spec_isqrt(ng)) * rtg,
            10,
        );
    }
    let mid = bigint_div(&bigint_mul(&bigint_mul(&bigint_from(2), &sqrt_n), &rt), &bigint_from(10));
    let half_p = bigint_div(&params.p, &bigint_from(2));
    proof {
        let term_s = (((4 * 86) * (rtg * rtg)) * (ng * ng)) / 1000;
        let mid_s = ((2 * crate::mpc::zk::spec_isqrt(ng)) * rtg) / 10;
        vstd::arithmetic::div_mod::lemma_div_pos_is_pos(params.pp(), 2);
        vstd::arithmetic::mul::lemma_mul_nonnegative(params.pp(), (term_s + mid_s) + term_s);
        vstd::arithmetic::mul::lemma_mul_nonnegative(
            0x100_0000_0000,
            params.pp() / 2 + params.pp() * ((term_s + mid_s) + term_s),
        );
    }
    let bound_b = bigint_add(&half_p, &bigint_mul(&params.p, &bigint_add(&bigint_add(&term, &mid), &term)));
    let two_exp_sec = bigint_from(0x100_0000_0000);
    let denom = bigint_mul(&bigint_from(n_players as i64), &params.p);
    proof {
        vstd::arithmetic::mul::lemma_mul_strictly_positive(n_players as int, params.pp());
    }
    let norm_bound = bigint_div(&bigint_mul(&two_exp_sec, &bound_b), &denom);
    let one = bigint_from(1);
    if bigint_lt(&norm_bound, &one) {
        one
    } else {
        norm_bound
    }
}

} // verus!
