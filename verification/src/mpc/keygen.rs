//! The trusted dealer's key distribution, and a local (single-process)
//! distributed decryption over a set of players: the development-flow
//! counterparts of the networked protocol.

use vstd::prelude::*;

use crate::bigint::int_of;
use crate::encryption::{
    generate_key_pair, poly_ok, ct_views, Ciphertext, Parameters, PublicKey,
};
use crate::poly::Polynomial;
use crate::prob::sample_from_uniform;
use crate::protocol::MpcError;
use crate::mpc::rq_sum;
use crate::quotient_ring::{lemma_reduce_bounds, rq_add, rq_mul, rq_neg, rq_times};

verus! {

/// A player of the development flow: key shares and the common public
/// key.
pub struct Player {
    pub sk_i1: Polynomial,
    pub sk_i2: Polynomial,
    pub pk: PublicKey,
}

impl Player {
    pub fn new() -> (r: Player)
        ensures
            r.sk_i1@ =~= seq![0int],
            r.sk_i2@ =~= seq![0int],
            r.pk.0@ =~= seq![0int],
            r.pk.1@ =~= seq![0int],
    {
        Player {
            sk_i1: Polynomial::zero(),
            sk_i2: Polynomial::zero(),
            pk: (Polynomial::zero(), Polynomial::zero()),
        }
    }
}

/// The running difference `start - share_0 - share_1 - ...` in the
/// ring, over the first `n` shares.
pub open spec fn key_fold(q: int, f: Seq<int>, start: Seq<int>, shares: Seq<Seq<int>>, n: int) -> Seq<int>
    decreases n,
{
    if n <= 0 {
        start
    } else {
        rq_add(q, f, key_fold(q, f, start, shares, n - 1), rq_neg(q, f, shares[n - 1]))
    }
}

/// The fold reads only its first `n` shares.
pub proof fn lemma_key_fold_prefix(
    q: int,
    f: Seq<int>,
    start: Seq<int>,
    s1: Seq<Seq<int>>,
    s2: Seq<Seq<int>>,
    n: int,
)
    requires
        forall|l: int| 0 <= l < n ==> s1[l] == s2[l],
    ensures
        key_fold(q, f, start, s1, n) == key_fold(q, f, start, s2, n),
    decreases n,
{
    if n > 0 {
        lemma_key_fold_prefix(q, f, start, s1, s2, n - 1);
    }
}

/// Key distribution: every player but the last receives uniform shares
/// of `sk` and `sk^2`; the last receives what makes the ring sums come
/// out to `sk` and `sk^2`. All players receive the same public key.
///
/// The contract pins the result exactly in terms of the returned
/// shares: for the generated secret key `sk` (existentially bound,
/// along with the key-generation noise `e0`), the last player's shares
/// are `sk` and `sk^2` minus, in the ring, everyone else's shares.
pub open spec fn key_shares_consistent(
    params: &Parameters,
    res: Seq<Player>,
    sk: Seq<int>,
    e0: Seq<int>,
) -> bool {
    let n_last = res.len() - 1;
    let sk1s = Seq::new(n_last as nat, |i: int| res[i].sk_i1@);
    let sk2s = Seq::new(n_last as nat, |i: int| res[i].sk_i2@);
    let all1 = Seq::new(res.len(), |i: int| res[i].sk_i1@);
    let all2 = Seq::new(res.len(), |i: int| res[i].sk_i2@);
    &&& sk.len() == params.n
    &&& e0.len() == params.n
    &&& res[0].pk.1@ == rq_add(
        params.qq(),
        params.ff(),
        rq_mul(params.qq(), params.ff(), res[0].pk.0@, sk),
        rq_times(params.qq(), params.ff(), e0, params.pp()),
    )
    &&& res[n_last].sk_i1@ == key_fold(params.qq(), params.ff(), sk, sk1s, n_last)
    &&& res[n_last].sk_i2@ == key_fold(
        params.qq(),
        params.ff(),
        rq_mul(params.qq(), params.ff(), sk, sk),
        sk2s,
        n_last,
    )
    &&& forall|j: int|
        crate::poly::index_or0(
            rq_sum(params.qq(), params.ff(), all1, res.len() as int),
            j,
        ) == crate::poly::index_or0(sk, j) % params.qq()
    &&& forall|j: int|
        crate::poly::index_or0(
            rq_sum(params.qq(), params.ff(), all2, res.len() as int),
            j,
        ) == crate::poly::index_or0(
            rq_mul(params.qq(), params.ff(), sk, sk),
            j,
        ) % params.qq()
}

pub fn distribute_keys(params: &Parameters, players: Vec<Player>) -> (res: Vec<Player>)
    requires
        params.wf(),
        players@.len() >= 1,
    ensures
        res@.len() == players@.len(),
        forall|i: int|
            0 <= i < players@.len() - 1 ==> (#[trigger] res@[i]).sk_i1@.len() == params.n
                && res@[i].sk_i2@.len() == params.n,
        forall|i: int, j: int|
            0 <= i < players@.len() - 1 && 0 <= j < params.n ==> 0 <= #[trigger] (
            res@[i].sk_i1@)[j] < params.qq() && 0 <= (res@[i].sk_i2@)[j] < params.qq(),
        forall|i: int|
            0 <= i < players@.len() ==> (#[trigger] res@[i]).pk.0@ == res@[0].pk.0@
                && res@[i].pk.1@ == res@[0].pk.1@,
        res@[0].pk.0@.len() == params.n,
        forall|j: int| 0 <= j < params.n ==> 0 <= #[trigger] (res@[0].pk.0@)[j] < params.qq(),
        exists|sk: Seq<int>, e0: Seq<int>| key_shares_consistent(params, res@, sk, e0),
{
    let rq = &params.quotient_ring;
    let ghost q = params.qq();
    let ghost f = params.ff();
    let n = players.len();
    let mut players = players;

    let (pk, sk) = generate_key_pair(params);
    let ghost e0 = choose|e0: Seq<int>|
        {
            &&& e0.len() == params.n
            &&& pk.1@ == rq_add(q, f, rq_mul(q, f, pk.0@, sk@), rq_times(q, f, e0, params.pp()))
        };

    let mut i: usize = 0;
    while i < n - 1
        invariant
            params.wf(),
            q == params.qq(),
            f == params.ff(),
            n == players@.len(),
            n >= 1,
            i <= n - 1,
            forall|j: int|
                0 <= j < i ==> (#[trigger] players@[j]).sk_i1@.len() == params.n
                    && players@[j].sk_i2@.len() == params.n,
            forall|j: int, k: int|
                0 <= j < i && 0 <= k < params.n ==> 0 <= #[trigger] (players@[j].sk_i1@)[k] < q
                    && 0 <= (players@[j].sk_i2@)[k] < q,
            forall|j: int|
                0 <= j < i ==> (#[trigger] players@[j]).pk.0@ == pk.0@ && players@[j].pk.1@
                    == pk.1@,
        decreases n - 1 - i,
    {
        let p_new = Player {
            sk_i1: sample_from_uniform(&rq.q, params.n),
            sk_i2: sample_from_uniform(&rq.q, params.n),
            pk: (pk.0.cloned(), pk.1.cloned()),
        };
        players.set(i, p_new);
        i += 1;
    }

    let mut sk_n2 = rq.mul(&sk, &sk);
    proof {
        lemma_reduce_bounds(q, f, crate::poly::mul_seq(sk@, sk@));
    }
    let mut sk_n1 = sk;
    let ghost sk0 = sk_n1@;
    let ghost sk1s = Seq::new((n - 1) as nat, |j: int| players@[j].sk_i1@);
    let ghost sk2s = Seq::new((n - 1) as nat, |j: int| players@[j].sk_i2@);
    let mut k: usize = 0;
    while k < n - 1
        invariant
            params.wf(),
            q == params.qq(),
            f == params.ff(),
            n == players@.len(),
            n >= 1,
            k <= n - 1,
            sk1s == Seq::new((n - 1) as nat, |j: int| players@[j].sk_i1@),
            sk2s == Seq::new((n - 1) as nat, |j: int| players@[j].sk_i2@),
            sk_n1@ == key_fold(q, f, sk0, sk1s, k as int),
            sk_n2@ == key_fold(q, f, rq_mul(q, f, sk0, sk0), sk2s, k as int),
        decreases n - 1 - k,
    {
        let neg1 = rq.neg(&players[k].sk_i1);
        sk_n1 = rq.add(&sk_n1, &neg1);
        let neg2 = rq.neg(&players[k].sk_i2);
        sk_n2 = rq.add(&sk_n2, &neg2);
        k += 1;
    }

    let last = Player { sk_i1: sk_n1, sk_i2: sk_n2, pk };
    players.set(n - 1, last);
    proof {
        assert(sk1s =~= Seq::new((n - 1) as nat, |j: int| players@[j].sk_i1@));
        assert(sk2s =~= Seq::new((n - 1) as nat, |j: int| players@[j].sk_i2@));
        let all1 = Seq::new(players@.len(), |i: int| players@[i].sk_i1@);
        let all2 = Seq::new(players@.len(), |i: int| players@[i].sk_i2@);
        let sk2_0 = rq_mul(q, f, sk0, sk0);
        lemma_key_fold_prefix(q, f, sk0, sk1s, all1, (n - 1) as int);
        lemma_key_fold_prefix(q, f, sk2_0, sk2s, all2, (n - 1) as int);
        crate::quotient_ring::lemma_reduce_bounds(q, f, crate::poly::mul_seq(sk0, sk0));
        assert forall|j: int|
            crate::poly::index_or0(rq_sum(q, f, all1, players@.len() as int), j)
                == crate::poly::index_or0(sk0, j) % q by {
            lemma_shares_sum_to_secret(q, params.n as int, sk0, all1, j);
        }
        assert forall|j: int|
            crate::poly::index_or0(rq_sum(q, f, all2, players@.len() as int), j)
                == crate::poly::index_or0(sk2_0, j) % q by {
            lemma_shares_sum_to_secret(q, params.n as int, sk2_0, all2, j);
        }
        assert(key_shares_consistent(params, players@, sk0, e0));
    }
    players
}

/// For a polynomial shorter than the ring degree, reduction is just
/// the coefficient-wise remainder: the division loop never runs.
pub proof fn lemma_low_reduce(q: int, n: int, a: Seq<int>, j: int)
    requires
        q >= 1,
        n >= 1,
        a.len() <= n,
    ensures
        crate::quotient_ring::rq_reduce(q, crate::encryption::cyclo_seq(n), a).len() <= n,
        crate::poly::index_or0(
            crate::quotient_ring::rq_reduce(q, crate::encryption::cyclo_seq(n), a),
            j,
        ) == crate::poly::index_or0(a, j) % q,
{
    let f = crate::encryption::cyclo_seq(n);
    let t = crate::poly::trim_seq(a);
    crate::poly::lemma_trim_len(a);
    assert(t.len() < f.len());
    assert(crate::quotient_ring::rem_loop(t, f) == t);
    let m = crate::poly::mod_seq(t, q);
    crate::poly::lemma_trim_len(m);
    crate::poly::lemma_trim_index(m, j);
    crate::poly::lemma_trim_index(a, j);
    if 0 <= j < m.len() {
        assert(crate::poly::index_or0(m, j) == t[j] % q);
    } else {
        assert(crate::poly::index_or0(m, j) == 0);
        assert(crate::poly::index_or0(t, j) == 0);
        assert(crate::poly::index_or0(a, j) % q == 0) by {
            vstd::arithmetic::div_mod::lemma_small_mod(0, q as nat);
        }
    }
}

/// Ring addition of two polynomials below the ring degree is
/// coefficient-wise addition modulo `q`.
pub proof fn lemma_low_add(q: int, n: int, a: Seq<int>, b: Seq<int>, j: int)
    requires
        q >= 1,
        n >= 1,
        a.len() <= n,
        b.len() <= n,
    ensures
        rq_add(q, crate::encryption::cyclo_seq(n), a, b).len() <= n,
        crate::poly::index_or0(rq_add(q, crate::encryption::cyclo_seq(n), a, b), j) == (
        crate::poly::index_or0(a, j) + crate::poly::index_or0(b, j)) % q,
{
    let sum = crate::poly::add_seq(a, b);
    assert(sum.len() <= n);
    lemma_low_reduce(q, n, sum, j);
    assert(crate::poly::index_or0(sum, j) == crate::poly::index_or0(a, j) + crate::poly::index_or0(
        b,
        j,
    ));
}

/// Ring negation of a polynomial below the ring degree is
/// coefficient-wise negation modulo `q`.
pub proof fn lemma_low_neg(q: int, n: int, a: Seq<int>, j: int)
    requires
        q >= 1,
        n >= 1,
        a.len() <= n,
    ensures
        rq_neg(q, crate::encryption::cyclo_seq(n), a).len() <= n,
        crate::poly::index_or0(rq_neg(q, crate::encryption::cyclo_seq(n), a), j) == (-crate::poly::index_or0(
            a,
            j,
        )) % q,
{
    let m = crate::poly::neg_seq(a);
    assert(m.len() <= n);
    lemma_low_reduce(q, n, m, j);
    assert(crate::poly::index_or0(m, j) == -crate::poly::index_or0(a, j));
}

/// The sum of the first `k` shares' coefficients at position `j`.
pub open spec fn coeff_sum(shares: Seq<Seq<int>>, j: int, k: int) -> int
    decreases k,
{
    if k <= 0 {
        0
    } else {
        coeff_sum(shares, j, k - 1) + crate::poly::index_or0(shares[k - 1], j)
    }
}

proof fn lemma_rq_sum_coeffs(q: int, n: int, shares: Seq<Seq<int>>, k: int, j: int)
    requires
        q >= 1,
        n >= 1,
        forall|l: int| 0 <= l < k ==> (#[trigger] shares[l]).len() <= n,
        k >= 0,
    ensures
        rq_sum(q, crate::encryption::cyclo_seq(n), shares, k).len() <= n,
        crate::poly::index_or0(rq_sum(q, crate::encryption::cyclo_seq(n), shares, k), j)
            == coeff_sum(shares, j, k) % q,
    decreases k,
{
    let f = crate::encryption::cyclo_seq(n);
    if k <= 0 {
        assert(crate::poly::index_or0(seq![0int], j) == 0);
        vstd::arithmetic::div_mod::lemma_small_mod(0, q as nat);
    } else {
        lemma_rq_sum_coeffs(q, n, shares, k - 1, j);
        lemma_low_add(q, n, rq_sum(q, f, shares, k - 1), shares[k - 1], j);
        vstd::arithmetic::div_mod::lemma_add_mod_noop(
            coeff_sum(shares, j, k - 1),
            crate::poly::index_or0(shares[k - 1], j),
            q,
        );
        vstd::arithmetic::div_mod::lemma_mod_twice(crate::poly::index_or0(shares[k - 1], j), q);
        assert((coeff_sum(shares, j, k - 1) % q + crate::poly::index_or0(shares[k - 1], j)) % q
            == coeff_sum(shares, j, k) % q) by {
            vstd::arithmetic::div_mod::lemma_add_mod_noop_right(
                crate::poly::index_or0(shares[k - 1], j),
                coeff_sum(shares, j, k - 1),
                q,
            );
        }
    }
}

proof fn lemma_key_fold_coeffs(q: int, n: int, start: Seq<int>, shares: Seq<Seq<int>>, k: int, j: int)
    requires
        q >= 1,
        n >= 1,
        start.len() <= n,
        forall|l: int| 0 <= l < k ==> (#[trigger] shares[l]).len() <= n,
        k >= 0,
    ensures
        key_fold(q, crate::encryption::cyclo_seq(n), start, shares, k).len() <= n || k == 0,
        k == 0 ==> key_fold(q, crate::encryption::cyclo_seq(n), start, shares, k) == start,
        k > 0 ==> crate::poly::index_or0(
            key_fold(q, crate::encryption::cyclo_seq(n), start, shares, k),
            j,
        ) == (crate::poly::index_or0(start, j) - coeff_sum(shares, j, k)) % q,
    decreases k,
{
    let f = crate::encryption::cyclo_seq(n);
    if k <= 0 {
    } else {
        lemma_key_fold_coeffs(q, n, start, shares, k - 1, j);
        let prev = key_fold(q, f, start, shares, k - 1);
        lemma_low_neg(q, n, shares[k - 1], j);
        if k == 1 {
            lemma_low_add(q, n, start, rq_neg(q, f, shares[0]), j);
            assert((crate::poly::index_or0(start, j) + (-crate::poly::index_or0(shares[0], j)) % q)
                % q == (crate::poly::index_or0(start, j) - coeff_sum(shares, j, 1)) % q) by {
                vstd::arithmetic::div_mod::lemma_add_mod_noop_right(
                    crate::poly::index_or0(start, j),
                    -crate::poly::index_or0(shares[0], j),
                    q,
                );
            }
        } else {
            lemma_low_add(q, n, prev, rq_neg(q, f, shares[k - 1]), j);
            let sp = crate::poly::index_or0(start, j);
            let cs = coeff_sum(shares, j, k - 1);
            let xk = crate::poly::index_or0(shares[k - 1], j);
            assert(((sp - cs) % q + (-xk) % q) % q == (sp - cs - xk) % q) by {
                vstd::arithmetic::div_mod::lemma_add_mod_noop((sp - cs), (-xk), q);
            }
        }
    }
}

/// Summed in the ring, the distributed shares reconstruct the secret:
/// for shares of degree below `n` whose last entry is `start` minus
/// the others (as `distribute_keys` builds it), the ring sum of all
/// the shares has, coefficient by coefficient, the remainder of
/// `start` modulo `q`. This is the ring-level statement that the sum
/// of the `sk` shares is `sk`, and of the `sk^2` shares is `sk^2`.
pub proof fn lemma_shares_sum_to_secret(
    q: int,
    n: int,
    start: Seq<int>,
    shares: Seq<Seq<int>>,
    j: int,
)
    requires
        q >= 1,
        n >= 1,
        start.len() <= n,
        shares.len() >= 1,
        forall|l: int| 0 <= l < shares.len() - 1 ==> (#[trigger] shares[l]).len() <= n,
        shares.last() == key_fold(
            q,
            crate::encryption::cyclo_seq(n),
            start,
            shares,
            shares.len() - 1,
        ),
    ensures
        crate::poly::index_or0(
            rq_sum(q, crate::encryption::cyclo_seq(n), shares, shares.len() as int),
            j,
        ) == crate::poly::index_or0(start, j) % q,
{
    let f = crate::encryption::cyclo_seq(n);
    let k = shares.len() - 1;
    lemma_key_fold_coeffs(q, n, start, shares, k, j);
    assert(shares.last().len() <= n) by {
        if k == 0 {
        } else {
        }
    }
    assert(forall|l: int| 0 <= l < shares.len() ==> (#[trigger] shares[l]).len() <= n);
    lemma_rq_sum_coeffs(q, n, shares, k, j);
    lemma_low_add(q, n, rq_sum(q, f, shares, k), shares[k], j);
    let sp = crate::poly::index_or0(start, j);
    let cs = coeff_sum(shares, j, k);
    if k == 0 {
        assert(crate::poly::index_or0(shares[0], j) == sp);
        assert((0int % q + sp) % q == sp % q) by {
            vstd::arithmetic::div_mod::lemma_small_mod(0, q as nat);
            vstd::arithmetic::div_mod::lemma_add_mod_noop_right(sp, 0, q);
        }
        assert(rq_sum(q, f, shares, 1) == rq_add(q, f, rq_sum(q, f, shares, 0), shares[0]));
    } else {
        assert(crate::poly::index_or0(shares[k], j) == (sp - cs) % q);
        assert((cs % q + (sp - cs) % q) % q == sp % q) by {
            vstd::arithmetic::div_mod::lemma_add_mod_noop(cs, sp - cs, q);
            vstd::arithmetic::div_mod::lemma_add_mod_noop_right(cs % q, sp - cs, q);
        }
    }
}

/// This player's centered decryption contribution in the local flow,
/// after the first ciphertext component has been negated.
pub open spec fn local_ddec_v(q: int, f: Seq<int>, c: Seq<Seq<int>>, sk1: Seq<int>, sk2: Seq<int>, me: int) -> Seq<int> {
    let sub = rq_add(
        q,
        f,
        rq_mul(q, f, sk1, c[1]),
        rq_neg(q, f, rq_mul(q, f, sk2, c[2])),
    );
    let sub_neg = rq_neg(q, f, sub);
    if me == 0 {
        rq_add(q, f, c[0], sub_neg)
    } else {
        sub_neg
    }
}

/// The fold of the noisy shares `v_i + p·noise_i` in the ring.
pub open spec fn local_ddec_fold(
    q: int,
    f: Seq<int>,
    p: int,
    c: Seq<Seq<int>>,
    players: Seq<Player>,
    noise: Seq<Seq<int>>,
    n: int,
) -> Seq<int>
    decreases n,
{
    if n <= 0 {
        seq![0int]
    } else {
        rq_add(
            q,
            f,
            local_ddec_fold(q, f, p, c, players, noise, n - 1),
            rq_add(
                q,
                f,
                local_ddec_v(q, f, c, players[n - 1].sk_i1@, players[n - 1].sk_i2@, n - 1),
                rq_times(q, f, noise[n - 1], p),
            ),
        )
    }
}

/// The fold reads only the first `n` noise entries.
proof fn lemma_local_ddec_fold_prefix(
    q: int,
    f: Seq<int>,
    p: int,
    c: Seq<Seq<int>>,
    players: Seq<Player>,
    noise1: Seq<Seq<int>>,
    noise2: Seq<Seq<int>>,
    n: int,
)
    requires
        forall|j: int| 0 <= j < n ==> noise1[j] == noise2[j],
    ensures
        local_ddec_fold(q, f, p, c, players, noise1, n) == local_ddec_fold(
            q,
            f,
            p,
            c,
            players,
            noise2,
            n,
        ),
    decreases n,
{
    if n > 0 {
        lemma_local_ddec_fold_prefix(q, f, p, c, players, noise1, noise2, n - 1);
    }
}

/// The outcome of a local distributed decryption for the negated
/// ciphertext `cneg` and the noise draws `noise`: the noisy shares are
/// summed in the ring and centered; if the centered norm reaches
/// `q / 2` the run aborts with that norm, and otherwise the sum is
/// reduced modulo `p`.
pub open spec fn local_ddec_outcome(
    params: &Parameters,
    players: Seq<Player>,
    cin: Seq<Seq<int>>,
    res: Result<Polynomial, MpcError>,
    cneg: Seq<Seq<int>>,
    noise: Seq<Seq<int>>,
) -> bool {
    let total = local_ddec_fold(
        params.qq(),
        params.ff(),
        params.pp(),
        cneg,
        players,
        noise,
        players.len() as int,
    );
    let cen = crate::poly::centered_seq(total, params.qq());
    &&& cneg.len() == 3
    &&& cneg[0] == cin[0]
    &&& cneg[1] == rq_neg(params.qq(), params.ff(), cin[1])
    &&& cneg[2] == (if cin.len() == 3 {
        cin[2]
    } else {
        seq![0int]
    })
    &&& noise.len() == players.len()
    &&& forall|j: int| 0 <= j < noise.len() ==> (#[trigger] noise[j]).len() == params.n
    &&& match res {
        Ok(pol) => crate::poly::norm_seq(cen) < params.qq() / 2 && pol@ == crate::poly::trim_seq(
            crate::poly::mod_seq(cen, params.pp()),
        ),
        Err(MpcError::DecryptionTooNoisy(nm)) => crate::poly::norm_seq(cen) >= params.qq() / 2
            && int_of(nm) == crate::poly::norm_seq(cen),
        Err(_) => false,
    }
}

/// Local distributed decryption over a set of players in one process:
/// each player's share is flooded with uniform noise, the noisy shares
/// are summed in the ring and centered, the run aborts when the
/// centered norm reaches `q / 2`, and otherwise the sum is reduced
/// modulo `p`. The contract gives the outcome exactly, for some noise
/// polynomials drawn below the flooding bound.
pub fn ddec(params: &Parameters, players: Vec<Player>, c: Ciphertext) -> (res: Result<
    Polynomial,
    MpcError,
>)
    requires
        params.wf(),
        2 <= c@.len() <= 3,
        forall|i: int| 0 <= i < c@.len() ==> poly_ok(#[trigger] c@[i]@),
        forall|i: int|
            0 <= i < players@.len() ==> poly_ok((#[trigger] players@[i]).sk_i1@) && poly_ok(
                players@[i].sk_i2@,
            ),
    ensures
        exists|cneg: Seq<Seq<int>>, noise: Seq<Seq<int>>|
            local_ddec_outcome(params, players@, ct_views(c@), res, cneg, noise),
{
    let rq = &params.quotient_ring;
    let ghost q = params.qq();
    let ghost f = params.ff();
    let ghost cin = ct_views(c@);
    let mut c = c;
    if c.len() == 2 {
        c.push(Polynomial::zero());
    }
    let c1_neg = rq.neg(&c[1]);
    proof {
        lemma_reduce_bounds(q, f, crate::poly::neg_seq(c@[1]@));
    }
    c.set(1, c1_neg);
    let ghost cneg = ct_views(c@);

    let n_players = players.len();
    let flood = crate::bigint::bigint_from(1000);
    let mut t_prime = Polynomial::zero();
    let ghost mut noise: Seq<Seq<int>> = Seq::empty();
    let mut i: usize = 0;
    while i < n_players
        invariant
            params.wf(),
            q == params.qq(),
            f == params.ff(),
            n_players == players@.len(),
            cneg.len() == 3,
            c@.len() == 3,
            forall|j: int| 0 <= j < 3 ==> #[trigger] c@[j]@ == cneg[j],
            forall|j: int| 0 <= j < 3 ==> poly_ok(#[trigger] c@[j]@),
            forall|j: int|
                0 <= j < players@.len() ==> poly_ok((#[trigger] players@[j]).sk_i1@) && poly_ok(
                    players@[j].sk_i2@,
                ),
            int_of(flood) == 1000,
            i <= n_players,
            noise.len() == i,
            forall|j: int| 0 <= j < i ==> (#[trigger] noise[j]).len() == params.n,
            t_prime@ == local_ddec_fold(q, f, params.pp(), cneg, players@, noise, i as int),
            poly_ok(t_prime@),
        decreases n_players - i,
    {
        let p_i = &players[i];
        let sk1i_mul_c1 = rq.mul(&p_i.sk_i1, &c[1]);
        let sk2i_mul_c2 = rq.mul(&p_i.sk_i2, &c[2]);
        let m2_neg = rq.neg(&sk2i_mul_c2);
        proof {
            lemma_reduce_bounds(q, f, crate::poly::mul_seq(players@[i as int].sk_i1@, c@[1]@));
            lemma_reduce_bounds(q, f, crate::poly::mul_seq(players@[i as int].sk_i2@, c@[2]@));
            lemma_reduce_bounds(q, f, crate::poly::neg_seq(sk2i_mul_c2@));
        }
        let sub = rq.add(&sk1i_mul_c1, &m2_neg);
        proof {
            lemma_reduce_bounds(q, f, crate::poly::add_seq(sk1i_mul_c1@, m2_neg@));
        }
        let sub_neg = rq.neg(&sub);
        proof {
            lemma_reduce_bounds(q, f, crate::poly::neg_seq(sub@));
        }
        let v_i = if i == 0 {
            let w = rq.add(&c[0], &sub_neg);
            proof {
                lemma_reduce_bounds(q, f, crate::poly::add_seq(c@[0]@, sub_neg@));
            }
            w
        } else {
            sub_neg
        };
        let noise_i = sample_from_uniform(&flood, params.n);
        let noise_p = rq.times(&noise_i, &params.p);
        proof {
            lemma_reduce_bounds(q, f, crate::poly::scale_seq(noise_i@, params.pp()));
        }
        let t_i = rq.add(&v_i, &noise_p);
        proof {
            lemma_reduce_bounds(q, f, crate::poly::add_seq(v_i@, noise_p@));
        }
        let new_t_prime = rq.add(&t_prime, &t_i);
        proof {
            lemma_reduce_bounds(q, f, crate::poly::add_seq(t_prime@, t_i@));
        }
        t_prime = new_t_prime;
        proof {
            let noise_new = noise.push(noise_i@);
            lemma_local_ddec_fold_prefix(q, f, params.pp(), cneg, players@, noise, noise_new, i as int);
            assert(t_i@ == rq_add(
                q,
                f,
                local_ddec_v(q, f, cneg, players@[i as int].sk_i1@, players@[i as int].sk_i2@, i as int),
                rq_times(q, f, noise_new[i as int], params.pp()),
            ));
            noise = noise_new;
        }
        i += 1;
    }

    let msg_minus_q = t_prime.normalized_coefficients(&rq.q);
    let two = crate::bigint::bigint_from(2);
    let q_half = crate::bigint::bigint_div(&rq.q, &two);
    let norm = msg_minus_q.l_inf_norm();
    if !crate::bigint::bigint_lt(&norm, &q_half) {
        let res = Err(MpcError::DecryptionTooNoisy(norm));
        proof {
            assert(local_ddec_outcome(params, players@, cin, res, cneg, noise));
        }
        return res;
    }
    let res = Ok(msg_minus_q.modulo(&params.p));
    proof {
        assert(local_ddec_outcome(params, players@, cin, res, cneg, noise));
    }
    res
}

} // verus!
