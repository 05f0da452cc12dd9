//! The preprocessing phase: Initialize, Pair and Triple, built on the
//! Reshare and PAngle subprotocols.
//!
//! Every broadcast ciphertext travels with a zero-knowledge proof of
//! plaintext knowledge; a peer whose proof fails verification aborts
//! the protocol. Ciphertexts received from peers are held to the
//! protocol's shapes (length two or three) before they enter the ring
//! arithmetic, so that every later step stays within its contract.

use vstd::prelude::*;

use crate::bigint::{bigint_clone, bigint_neg, bigint_rem_euc, bigint_sub, int_of};
use crate::encryption::{
    ct_cloned, encode, encrypt_det, encrypt_with_rand, poly_ok, Ciphertext, Parameters,
};
use crate::mpc::zk::{make_zkpopk, verify_zkpopk};
use crate::mpc::{add_encrypted_shares, ddec, diag, AngleShare, PlayerState, SEC};
use crate::poly::Polynomial;
use crate::prob::sample_single;
use crate::protocol::{Facilitator, MessageKind, MpcError, OnlineMessage, ProtocolStage};

verus! {

/// Whether a Reshare should also produce a refreshed ciphertext.
pub enum Enc {
    NewCiphertext,
    NoNewCiphertext,
}

/// A broadcast message that carries a fresh-encryption ciphertext:
/// length exactly two, every component fit for the ring. The masks
/// broadcast during preprocessing are always fresh encryptions, so
/// anything longer is malformed.
pub open spec fn good_ct_msg(m: OnlineMessage) -> bool {
    match m {
        OnlineMessage::ShareCiphertext(ct) => ct@.len() == 2 && (forall|j: int|
            0 <= j < ct@.len() ==> poly_ok((#[trigger] ct@[j])@)),
        _ => false,
    }
}

/// The ciphertext a broadcast message carries (empty for any other
/// kind).
pub open spec fn ct_payload(m: OnlineMessage) -> Seq<Polynomial> {
    match m {
        OnlineMessage::ShareCiphertext(ct) => ct@,
        _ => Seq::empty(),
    }
}

/// Gather one broadcast ciphertext per player, holding each to the
/// fresh-encryption shape: length exactly two, every component fit for
/// the ring. Succeeds exactly when every message is such a ciphertext,
/// and then returns their payloads in order.
fn collect_ciphertexts(msgs: Vec<OnlineMessage>) -> (res: Result<Vec<Ciphertext>, MpcError>)
    ensures
        (res matches Ok(_)) <==> (forall|i: int|
            0 <= i < msgs@.len() ==> good_ct_msg(#[trigger] msgs@[i])),
        res matches Ok(v) ==> {
            &&& v@.len() == msgs@.len()
            &&& forall|i: int|
                0 <= i < v@.len() ==> crate::encryption::ct_views((#[trigger] v@[i])@)
                    == crate::encryption::ct_views(ct_payload(msgs@[i]))
            &&& forall|i: int| 0 <= i < v@.len() ==> (#[trigger] v@[i])@.len() == 2
            &&& forall|i: int, j: int|
                0 <= i < v@.len() && 0 <= j < v@[i]@.len() ==> poly_ok((#[trigger] v@[i]@[j])@)
        },
{
    let mut out: Vec<Ciphertext> = Vec::new();
    let n = msgs.len();
    let mut i: usize = 0;
    while i < n
        invariant
            i <= n,
            n == msgs@.len(),
            out@.len() == i,
            forall|k: int| 0 <= k < i ==> good_ct_msg(#[trigger] msgs@[k]),
            forall|k: int|
                0 <= k < i ==> crate::encryption::ct_views((#[trigger] out@[k])@)
                    == crate::encryption::ct_views(ct_payload(msgs@[k])),
            forall|k: int| 0 <= k < i ==> (#[trigger] out@[k])@.len() == 2,
            forall|k: int, j: int|
                0 <= k < i && 0 <= j < out@[k]@.len() ==> poly_ok((#[trigger] out@[k]@[j])@),
        decreases n - i,
    {
        match &msgs[i] {
            OnlineMessage::ShareCiphertext(ct) => {
                if ct.len() != 2 {
                    proof {
                        assert(!good_ct_msg(msgs@[i as int]));
                    }
                    return Err(MpcError::BadMessage(
                        MessageKind::ShareCiphertext,
                        MessageKind::ShareCiphertext,
                    ));
                }
                let mut j: usize = 0;
                while j < ct.len()
                    invariant
                        i < n,
                        n == msgs@.len(),
                        msgs@[i as int] matches OnlineMessage::ShareCiphertext(c2) && c2@ == ct@,
                        ct@.len() == 2,
                        j <= ct@.len(),
                        forall|jj: int| 0 <= jj < j ==> poly_ok((#[trigger] ct@[jj])@),
                    decreases ct@.len() - j,
                {
                    let l = ct[j].len();
                    if l < 1 || l > 0x4000_0000 {
                        proof {
                            assert(!poly_ok(ct@[j as int]@));
                            assert(!good_ct_msg(msgs@[i as int]));
                        }
                        return Err(MpcError::BadMessage(
                            MessageKind::ShareCiphertext,
                            MessageKind::ShareCiphertext,
                        ));
                    }
                    j += 1;
                }
                out.push(crate::encryption::ct_cloned(ct));
            },
            other => {
                proof {
                    assert(!good_ct_msg(msgs@[i as int]));
                }
                return Err(MpcError::BadMessage(MessageKind::ShareCiphertext, other.kind()));
            },
        }
        i += 1;
    }
    Ok(out)
}

/// An element-wise clone of a list of ciphertexts.
fn cts_cloned(v: &Vec<Ciphertext>) -> (r: Vec<Ciphertext>)
    ensures
        r@.len() == v@.len(),
        forall|k: int|
            0 <= k < v@.len() ==> crate::encryption::ct_views((#[trigger] r@[k])@)
                == crate::encryption::ct_views(v@[k]@),
        forall|k: int| 0 <= k < v@.len() ==> (#[trigger] r@[k])@.len() == v@[k]@.len(),
        forall|k: int, j: int|
            0 <= k < v@.len() && 0 <= j < v@[k]@.len() ==> (#[trigger] r@[k]@[j])@ == v@[k]@[j]@,
{
    let mut out: Vec<Ciphertext> = Vec::new();
    let mut i: usize = 0;
    while i < v.len()
        invariant
            i <= v@.len(),
            out@.len() == i,
            forall|k: int|
                0 <= k < i ==> crate::encryption::ct_views((#[trigger] out@[k])@)
                    == crate::encryption::ct_views(v@[k]@),
            forall|k: int| 0 <= k < i ==> (#[trigger] out@[k])@.len() == v@[k]@.len(),
            forall|k: int, j: int|
                0 <= k < i && 0 <= j < v@[k]@.len() ==> (#[trigger] out@[k]@[j])@ == v@[k]@[j]@,
        decreases v@.len() - i,
    {
        out.push(ct_cloned(&v[i]));
        i += 1;
    }
    out
}

/// Run one round of proofs of plaintext knowledge: prove knowledge of
/// this player's broadcast ciphertext (replicated over the `SEC`
/// slots, in diagonal mode), broadcast the proof, and verify every
/// peer's — including that the ciphertexts a peer's proof carries are
/// exactly that peer's earlier ciphertext broadcast, so a proof cannot
/// speak for a different ciphertext than the one in play.
fn run_zkpopk_for_single<F: Facilitator>(
    params: &Parameters,
    state: &PlayerState<F>,
    x_i: Polynomial,
    r_i: (Polynomial, Polynomial, Polynomial),
    c_i: Ciphertext,
    broadcasts: &Vec<Ciphertext>,
    stage: ProtocolStage,
) -> (res: Result<(), MpcError>)
    requires
        params.wf(),
        state.key_wf(),
{
    let mut x: Vec<Polynomial> = Vec::new();
    let mut r: Vec<(Polynomial, Polynomial, Polynomial)> = Vec::new();
    let mut c: Vec<Ciphertext> = Vec::new();
    let mut i: usize = 0;
    while i < SEC
        invariant
            i <= SEC,
            x@.len() == i,
            r@.len() == i,
            c@.len() == i,
        decreases SEC - i,
    {
        x.push(x_i.cloned());
        r.push((r_i.0.cloned(), r_i.1.cloned(), r_i.2.cloned()));
        c.push(ct_cloned(&c_i));
        i += 1;
    }

    let c_broadcast = {
        let mut cb: Vec<Ciphertext> = Vec::new();
        let mut i: usize = 0;
        while i < c.len()
            invariant
                i <= c@.len(),
                cb@.len() == i,
            decreases c@.len() - i,
        {
            cb.push(ct_cloned(&c[i]));
            i += 1;
        }
        cb
    };
    let (a, z, t) = make_zkpopk(params, x, r, c, true, &state.pk);
    state.facilitator.broadcast(
        &OnlineMessage::ShareZKPoPK { a, z, t, c: c_broadcast },
    );

    let messages = state.facilitator.receive_from_all();
    let n = messages.len();
    let mut messages = messages;
    let mut i: usize = 0;
    while i < n
        invariant
            params.wf(),
            state.key_wf(),
            i <= n,
            messages@.len() == n - i,
        decreases n - i,
    {
        let msg = messages.remove(0);
        match msg {
            OnlineMessage::ShareZKPoPK { a, z, t, c } => {
                if i >= broadcasts.len() {
                    return Err(MpcError::TransportError);
                }
                if c.len() != SEC {
                    return Err(MpcError::ZKPoPKInvalid(stage, i));
                }
                let mut k: usize = 0;
                while k < c.len()
                    invariant
                        i < broadcasts@.len(),
                        k <= c@.len(),
                    decreases c@.len() - k,
                {
                    if !crate::mpc::zk::ct_eq(&c[k], &broadcasts[i]) {
                        return Err(MpcError::ZKPoPKInvalid(stage, i));
                    }
                    k += 1;
                }
                if !verify_zkpopk(params, a, z, t, c, &state.pk) {
                    return Err(MpcError::ZKPoPKInvalid(stage, i));
                }
            },
            other => {
                return Err(MpcError::BadMessage(MessageKind::ShareZKPoPK, other.kind()));
            },
        }
        i += 1;
    }
    Ok(())
}

/// Initialize: sample this player's MAC key share, broadcast its
/// encryption with a proof of plaintext knowledge, and store the
/// homomorphic sum of everyone's broadcasts as the public encryption
/// of the MAC key.
pub fn initialize<F: Facilitator>(params: &Parameters, state: &mut PlayerState<F>) -> (res: Result<
    (),
    MpcError,
>)
    requires
        params.wf(),
        old(state).key_wf(),
    ensures
        final(state).sk_i1@ == old(state).sk_i1@,
        final(state).sk_i2@ == old(state).sk_i2@,
        final(state).pk == old(state).pk,
        final(state).facilitator == old(state).facilitator,
        final(state).key_wf(),
        res matches Ok(()) ==> final(state).ready() && 0 <= int_of(final(state).alpha_i)
            < params.pp(),
{
    let alpha_i = sample_single(&params.p);
    let alpha_i_polynomial = encode(diag(params, bigint_clone(&alpha_i)));
    state.alpha_i = alpha_i;
    let (e_alpha_i, r_i) = encrypt_with_rand(params, alpha_i_polynomial.cloned(), &state.pk);

    state.facilitator.broadcast(&OnlineMessage::ShareCiphertext(ct_cloned(&e_alpha_i)));

    let messages = state.facilitator.receive_from_all();
    let e_alpha_is = match collect_ciphertexts(messages) {
        Ok(v) => v,
        Err(e) => {
            return Err(e);
        },
    };

    let broadcasts = cts_cloned(&e_alpha_is);
    let e_alpha = add_encrypted_shares(params, e_alpha_is);
    if e_alpha.len() < 1 || e_alpha.len() > 3 {
        return Err(MpcError::BadMessage(
            MessageKind::ShareCiphertext,
            MessageKind::ShareCiphertext,
        ));
    }
    state.e_alpha = e_alpha;

    run_zkpopk_for_single(
        params,
        state,
        alpha_i_polynomial,
        r_i,
        e_alpha_i,
        &broadcasts,
        ProtocolStage::Initialize,
    )
}

/// This player's new additive share after a reshare: player zero
/// takes the opened masked value `d` minus its own mask draw, every
/// other player the negated mask draw; both modulo `p`.
pub fn reshare_share(
    params: &Parameters,
    me: usize,
    d: &num::BigInt,
    f_i: &num::BigInt,
) -> (res: num::BigInt)
    requires
        params.wf(),
    ensures
        int_of(res) == (if me == 0 {
            int_of(*d) - int_of(*f_i)
        } else {
            -int_of(*f_i)
        }) % params.pp(),
        0 <= int_of(res) < params.pp(),
{
    let res = if me == 0 {
        bigint_rem_euc(&bigint_sub(d, f_i), &params.p)
    } else {
        bigint_rem_euc(&bigint_neg(f_i), &params.p)
    };
    proof {
        vstd::arithmetic::div_mod::lemma_mod_bound(int_of(*d) - int_of(*f_i), params.pp());
        vstd::arithmetic::div_mod::lemma_mod_bound(-int_of(*f_i), params.pp());
    }
    res
}

/// Reshare: rerandomize the additive sharing of the plaintext of
/// `e_m`. Everyone broadcasts an encrypted mask with a proof, the
/// masked ciphertext is decrypted by the distributed protocol, and the
/// shares are reassembled; in `NewCiphertext` mode a flat length-two
/// encryption of the plaintext, trivially rerandomized, is also
/// returned — and the contract promises that flat shape.
pub fn reshare<F: Facilitator>(
    params: &Parameters,
    e_m: &Ciphertext,
    state: &PlayerState<F>,
    enc: Enc,
) -> (res: Result<(Option<Ciphertext>, num::BigInt), MpcError>)
    requires
        params.wf(),
        state.key_wf(),
        2 <= e_m@.len() <= 3,
        forall|i: int| 0 <= i < e_m@.len() ==> poly_ok((#[trigger] e_m@[i])@),
    ensures
        res matches Ok(pair) ==> {
            &&& 0 <= int_of(pair.1) < params.pp()
            &&& (pair.0 is Some <==> enc is NewCiphertext)
            &&& pair.0 matches Some(ct) ==> (ct@.len() == 2 && forall|i: int|
                0 <= i < ct@.len() ==> poly_ok((#[trigger] ct@[i])@))
        },
{
    let f_i = sample_single(&params.p);
    let f_i_polynomial = encode(bigint_clone(&f_i));
    let (e_f_i, r_f_i) = encrypt_with_rand(params, f_i_polynomial.cloned(), &state.pk);

    state.facilitator.broadcast(&OnlineMessage::ShareCiphertext(ct_cloned(&e_f_i)));

    let messages = state.facilitator.receive_from_all();
    let e_f_is = match collect_ciphertexts(messages) {
        Ok(v) => v,
        Err(e) => {
            return Err(e);
        },
    };

    match run_zkpopk_for_single(
        params,
        state,
        f_i_polynomial,
        r_f_i,
        e_f_i,
        &e_f_is,
        ProtocolStage::Reshare,
    ) {
        Ok(()) => {},
        Err(e) => {
            return Err(e);
        },
    }

    let mut e_f_is_copy: Vec<Ciphertext> = Vec::new();
    let mut i: usize = 0;
    while i < e_f_is.len()
        invariant
            i <= e_f_is@.len(),
            e_f_is_copy@.len() == i,
            forall|k: int| 0 <= k < e_f_is@.len() ==> (#[trigger] e_f_is@[k])@.len() == 2,
            forall|k: int, j: int|
                0 <= k < e_f_is@.len() && 0 <= j < e_f_is@[k]@.len() ==> poly_ok(
                    (#[trigger] e_f_is@[k]@[j])@,
                ),
            forall|k: int| 0 <= k < i ==> (#[trigger] e_f_is_copy@[k])@.len() == 2,
            forall|k: int, j: int|
                0 <= k < i && 0 <= j < e_f_is_copy@[k]@.len() ==> poly_ok(
                    (#[trigger] e_f_is_copy@[k]@[j])@,
                ),
        decreases e_f_is@.len() - i,
    {
        let cc = ct_cloned(&e_f_is[i]);
        e_f_is_copy.push(cc);
        i += 1;
    }

    let e_f = add_encrypted_shares(params, e_f_is);
    let e_m_plus_f = crate::encryption::add(params, e_m, &e_f);
    if e_m_plus_f.len() < 2 || e_m_plus_f.len() > 3 {
        return Err(MpcError::BadMessage(
            MessageKind::ShareCiphertext,
            MessageKind::ShareCiphertext,
        ));
    }

    let m_plus_f = match ddec(params, state, e_m_plus_f) {
        Ok(v) => v,
        Err(e) => {
            return Err(e);
        },
    };

    let me = state.facilitator.player_number();
    let m_i = reshare_share(params, me, &m_plus_f, &f_i);

    match enc {
        Enc::NewCiphertext => {
            let mut e_m_prime = encrypt_det(
                params,
                encode(m_plus_f),
                &state.pk,
                (Polynomial::one(), Polynomial::one(), Polynomial::one()),
            );
            let mut k: usize = 0;
            while k < e_f_is_copy.len()
                invariant
                    params.wf(),
                    k <= e_f_is_copy@.len(),
                    forall|kk: int|
                        0 <= kk < e_f_is_copy@.len() ==> (#[trigger] e_f_is_copy@[kk])@.len()
                            == 2,
                    e_m_prime@.len() == 2,
                    forall|j: int| 0 <= j < e_m_prime@.len() ==> poly_ok((#[trigger] e_m_prime@[j])@),
                decreases e_f_is_copy@.len() - k,
            {
                let neg_ct = ct_neg(&e_f_is_copy[k]);
                let next = crate::encryption::add(params, &e_m_prime, &neg_ct);
                proof {
                    assert(next@.len() == crate::poly::spec_max(
                        e_m_prime@.len() as int,
                        neg_ct@.len() as int,
                    ));
                }
                e_m_prime = next;
                k += 1;
            }
            Ok((Some(e_m_prime), m_i))
        },
        Enc::NoNewCiphertext => Ok((None, m_i)),
    }
}

/// The component-wise negation of a ciphertext (plain polynomial
/// negation; the next ring operation reduces it).
fn ct_neg(c: &Ciphertext) -> (r: Ciphertext)
    ensures
        r@.len() == c@.len(),
        forall|i: int|
            0 <= i < r@.len() ==> (#[trigger] r@[i])@ == crate::poly::trim_seq(
                crate::poly::neg_seq(c@[i]@),
            ),
{
    let mut out: Vec<Polynomial> = Vec::new();
    let n = c.len();
    let mut i: usize = 0;
    while i < n
        invariant
            n == c@.len(),
            i <= n,
            out@.len() == i,
            forall|j: int|
                0 <= j < i ==> (#[trigger] out@[j])@ == crate::poly::trim_seq(
                    crate::poly::neg_seq(c@[j]@),
                ),
        decreases n - i,
    {
        out.push(c[i].neg());
        i += 1;
    }
    out
}

/// PAngle: authenticate an additively shared value `v` into an angle
/// share, by homomorphically multiplying its public encryption with
/// the encryption of the MAC key and resharing the product.
pub fn p_angle<F: Facilitator>(
    params: &Parameters,
    v_i: num::BigInt,
    e_v: Ciphertext,
    player_state: &PlayerState<F>,
) -> (res: Result<AngleShare, MpcError>)
    requires
        params.wf(),
        player_state.ready(),
        1 <= e_v@.len() <= 3,
        forall|i: int| 0 <= i < e_v@.len() ==> poly_ok((#[trigger] e_v@[i])@),
    ensures
        res matches Ok(sh) ==> int_of(sh.0) == int_of(v_i) && 0 <= int_of(sh.1) < params.pp(),
{
    let e_v_mul_alpha = crate::encryption::mul(params, &e_v, &player_state.e_alpha);
    if e_v_mul_alpha.len() < 2 || e_v_mul_alpha.len() > 3 {
        return Err(MpcError::BadMessage(
            MessageKind::ShareCiphertext,
            MessageKind::ShareCiphertext,
        ));
    }
    let (_, gamma_i) = match reshare(params, &e_v_mul_alpha, player_state, Enc::NoNewCiphertext) {
        Ok(pair) => pair,
        Err(e) => {
            return Err(e);
        },
    };
    Ok((v_i, gamma_i))
}

/// Pair: produce a fresh random value's additive share together with
/// an authenticated share of the same value, for input masking.
pub fn pair<F: Facilitator>(params: &Parameters, state: &PlayerState<F>) -> (res: Result<
    (num::BigInt, AngleShare),
    MpcError,
>)
    requires
        params.wf(),
        state.ready(),
    ensures
        res matches Ok(p) ==> 0 <= int_of(p.0) < params.pp() && int_of(p.1.0) == int_of(p.0) && 0
            <= int_of(p.1.1) < params.pp(),
{
    let r_i = sample_single(&params.p);
    let r_i_polynomial = encode(bigint_clone(&r_i));
    let (e_r_i, r_r_i) = encrypt_with_rand(params, r_i_polynomial.cloned(), &state.pk);

    state.facilitator.broadcast(&OnlineMessage::ShareCiphertext(ct_cloned(&e_r_i)));

    let messages = state.facilitator.receive_from_all();
    let e_r_is = match collect_ciphertexts(messages) {
        Ok(v) => v,
        Err(e) => {
            return Err(e);
        },
    };

    let broadcasts = cts_cloned(&e_r_is);
    let e_r = add_encrypted_shares(params, e_r_is);
    if e_r.len() < 1 || e_r.len() > 3 {
        return Err(MpcError::BadMessage(
            MessageKind::ShareCiphertext,
            MessageKind::ShareCiphertext,
        ));
    }

    match run_zkpopk_for_single(
        params,
        state,
        r_i_polynomial,
        r_r_i,
        e_r_i,
        &broadcasts,
        ProtocolStage::Pair,
    ) {
        Ok(()) => {},
        Err(e) => {
            return Err(e);
        },
    }

    let r_angle = match p_angle(params, bigint_clone(&r_i), e_r, state) {
        Ok(a) => a,
        Err(e) => {
            return Err(e);
        },
    };
    Ok((r_i, r_angle))
}

/// Triple: produce an authenticated multiplication triple. The factor
/// encryptions are broadcast with proofs and summed; the product
/// ciphertext is reshared in `NewCiphertext` mode to obtain fresh
/// shares `c_i` and a flat encryption, which is then authenticated.
pub fn triple<F: Facilitator>(params: &Parameters, state: &PlayerState<F>) -> (res: Result<
    (AngleShare, AngleShare, AngleShare),
    MpcError,
>)
    requires
        params.wf(),
        state.ready(),
    ensures
        res matches Ok(t) ==> 0 <= int_of(t.0.0) < params.pp() && 0 <= int_of(t.1.0) < params.pp()
            && 0 <= int_of(t.2.0) < params.pp(),
{
    let a_i = sample_single(&params.p);
    let b_i = sample_single(&params.p);
    let a_i_polynomial = encode(bigint_clone(&a_i));
    let (e_a_i, r_a_i) = encrypt_with_rand(params, a_i_polynomial.cloned(), &state.pk);
    let b_i_polynomial = encode(bigint_clone(&b_i));
    let (e_b_i, r_b_i) = encrypt_with_rand(params, b_i_polynomial.cloned(), &state.pk);

    state.facilitator.broadcast(&OnlineMessage::ShareCiphertext(ct_cloned(&e_a_i)));
    let messages = state.facilitator.receive_from_all();
    let e_a_is = match collect_ciphertexts(messages) {
        Ok(v) => v,
        Err(e) => {
            return Err(e);
        },
    };

    state.facilitator.broadcast(&OnlineMessage::ShareCiphertext(ct_cloned(&e_b_i)));
    let messages = state.facilitator.receive_from_all();
    let e_b_is = match collect_ciphertexts(messages) {
        Ok(v) => v,
        Err(e) => {
            return Err(e);
        },
    };

    let a_broadcasts = cts_cloned(&e_a_is);
    let b_broadcasts = cts_cloned(&e_b_is);
    let e_a = add_encrypted_shares(params, e_a_is);
    let e_b = add_encrypted_shares(params, e_b_is);
    if e_a.len() < 1 || e_a.len() > 3 || e_b.len() < 1 || e_b.len() > 3 {
        return Err(MpcError::BadMessage(
            MessageKind::ShareCiphertext,
            MessageKind::ShareCiphertext,
        ));
    }

    match run_zkpopk_for_single(
        params,
        state,
        a_i_polynomial,
        r_a_i,
        e_a_i,
        &a_broadcasts,
        ProtocolStage::Triple,
    ) {
        Ok(()) => {},
        Err(e) => {
            return Err(e);
        },
    }
    match run_zkpopk_for_single(
        params,
        state,
        b_i_polynomial,
        r_b_i,
        e_b_i,
        &b_broadcasts,
        ProtocolStage::Triple,
    ) {
        Ok(()) => {},
        Err(e) => {
            return Err(e);
        },
    }

    let a_angle = match p_angle(params, bigint_clone(&a_i), ct_cloned(&e_a), state) {
        Ok(v) => v,
        Err(e) => {
            return Err(e);
        },
    };
    let b_angle = match p_angle(params, bigint_clone(&b_i), ct_cloned(&e_b), state) {
        Ok(v) => v,
        Err(e) => {
            return Err(e);
        },
    };

    let e_c = crate::encryption::mul(params, &e_a, &e_b);
    if e_c.len() < 2 || e_c.len() > 3 {
        return Err(MpcError::BadMessage(
            MessageKind::ShareCiphertext,
            MessageKind::ShareCiphertext,
        ));
    }

    let (e_c_prime_opt, reshared) = match reshare(params, &e_c, state, Enc::NewCiphertext) {
        Ok(pair) => pair,
        Err(e) => {
            return Err(e);
        },
    };
    let e_c_prime = match e_c_prime_opt {
        Some(ct) => ct,
        None => {
            return Err(MpcError::TransportError);
        },
    };

    let c_angle = match p_angle(params, reshared, e_c_prime, state) {
        Ok(v) => v,
        Err(e) => {
            return Err(e);
        },
    };

    Ok((a_angle, b_angle, c_angle))
}

} // verus!
