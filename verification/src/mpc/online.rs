//! The online phase: input sharing, local addition, Beaver-triple
//! multiplication guarded by a sacrificial triple check, and output
//! guarded by the MAC check.
//!
//! Every value opened during the phase is appended, with its MAC
//! share, to the player state's `opened` log; `output` runs the MAC
//! check over the log and clears it on success.

use vstd::prelude::*;

use crate::bigint::{
    bigint_add, bigint_clone, bigint_from, bigint_mul, bigint_rem_euc, bigint_sub, int_of,
    ints_of,
};
use crate::encryption::Parameters;
use crate::mpc::commitment::{commit, open};
use crate::mpc::{open_shares, sum_ints, AngleShare, MulTriple, PlayerState};
use crate::prob::{rng_from_seed, sample_single_seeded};
use crate::protocol::{Facilitator, MessageKind, MpcError, OnlineMessage};

verus! {

broadcast use crate::bigint::lemma_ints_of_push;

/// The byte-wise exclusive or of two strings, as long as the shorter.
pub fn xor(x: &[u8], y: &[u8]) -> (r: Vec<u8>)
    ensures
        r@.len() == (if x@.len() <= y@.len() {
            x@.len()
        } else {
            y@.len()
        }),
        forall|i: int| 0 <= i < r@.len() ==> #[trigger] r@[i] == (x@[i] ^ y@[i]),
{
    let n = if x.len() <= y.len() {
        x.len()
    } else {
        y.len()
    };
    let mut out: Vec<u8> = Vec::new();
    let mut i: usize = 0;
    while i < n
        invariant
            n <= x@.len(),
            n <= y@.len(),
            i <= n,
            out@.len() == i,
            forall|j: int| 0 <= j < i ==> #[trigger] out@[j] == (x@[j] ^ y@[j]),
        decreases n - i,
    {
        out.push(x[i] ^ y[i]);
        i += 1;
    }
    out
}

/// The updated authenticated share after an opened offset `eps`:
/// player zero absorbs `eps` into its value share, every player adds
/// `eps · alpha_i` to its MAC share; both modulo `p`.
pub open spec fn input_update(me: int, angle: (int, int), eps: int, alpha: int, p: int) -> (
    int,
    int,
) {
    if me == 0 {
        ((angle.0 + eps) % p, (angle.1 + eps * alpha) % p)
    } else {
        (angle.0 % p, (angle.1 + eps * alpha) % p)
    }
}

/// The share `sh` is the input update of `angle` under offset `eps`.
pub open spec fn is_input_update(sh: (int, int), me: int, angle: (int, int), eps: int, alpha: int, p: int) -> bool {
    sh == input_update(me, angle, eps, alpha, p)
}

/// The share `sh` is the input update of `angle` for own input `x`
/// masked by the opened value `r_opened`.
pub open spec fn is_masked_input_update(
    sh: (int, int),
    me: int,
    angle: (int, int),
    x: int,
    r_opened: int,
    alpha: int,
    p: int,
) -> bool {
    sh == input_update(me, angle, (x - r_opened) % p, alpha, p)
}

/// For some player index and opened masking value, the share `sh` is
/// the input update of `angle` for own input `x`.
pub open spec fn some_masked_input_update(sh: (int, int), angle: (int, int), x: int, alpha: int, p: int) -> bool {
    exists|me: int, r_opened: int| is_masked_input_update(sh, me, angle, x, r_opened, alpha, p)
}

/// For some player index and opened offset, the share `sh` is the
/// input update of `angle`.
pub open spec fn some_input_update(sh: (int, int), angle: (int, int), alpha: int, p: int) -> bool {
    exists|me: int, eps: int| is_input_update(sh, me, angle, eps, alpha, p)
}

/// Apply an opened input offset to this player's authenticated share.
pub fn input_share_update(
    params: &Parameters,
    me: usize,
    r_angle: AngleShare,
    eps: &num::BigInt,
    alpha_i: &num::BigInt,
) -> (res: AngleShare)
    requires
        params.wf(),
    ensures
        (int_of(res.0), int_of(res.1)) == input_update(
            me as int,
            (int_of(r_angle.0), int_of(r_angle.1)),
            int_of(*eps),
            int_of(*alpha_i),
            params.pp(),
        ),
{
    let mac = bigint_rem_euc(&bigint_add(&r_angle.1, &bigint_mul(eps, alpha_i)), &params.p);
    if me == 0 {
        let val = bigint_rem_euc(&bigint_add(&r_angle.0, eps), &params.p);
        (val, mac)
    } else {
        let val = bigint_rem_euc(&r_angle.0, &params.p);
        (val, mac)
    }
}

/// Provide the input `x_i`: announce the input round, open the masking
/// pair's value `r` to this player, send the offset
/// `eps = x_i - r mod p` to every other player, and update the pair's
/// authenticated share. The result is this player's authenticated
/// share of `x_i`.
pub fn give_input<F: Facilitator>(
    params: &Parameters,
    x_i: num::BigInt,
    r_pair: (num::BigInt, AngleShare),
    state: &PlayerState<F>,
) -> (res: Result<AngleShare, MpcError>)
    requires
        params.wf(),
    ensures
        res matches Ok(sh) ==> some_masked_input_update(
            (int_of(sh.0), int_of(sh.1)),
            (int_of(r_pair.1.0), int_of(r_pair.1.1)),
            int_of(x_i),
            int_of(state.alpha_i),
            params.pp(),
        ),
{
    let amount_of_players = state.facilitator.player_count();
    let player_number = state.facilitator.player_number();

    let mut j: usize = 0;
    while j < amount_of_players
        decreases amount_of_players - j,
    {
        if j != player_number {
            state.facilitator.send(j, &OnlineMessage::BeginInput);
        }
        j += 1;
    }

    let (r_share, r_angle) = r_pair;
    state.facilitator.send(player_number, &OnlineMessage::ShareInteger(r_share));

    let msgs = state.facilitator.receive_many(amount_of_players);
    let mut r_shares: Vec<num::BigInt> = Vec::new();
    let mut i: usize = 0;
    while i < msgs.len()
        invariant
            i <= msgs@.len(),
        decreases msgs@.len() - i,
    {
        match &msgs[i].1 {
            OnlineMessage::ShareInteger(r_sh) => {
                r_shares.push(bigint_clone(r_sh));
            },
            other => {
                return Err(MpcError::BadMessage(MessageKind::ShareInteger, other.kind()));
            },
        }
        i += 1;
    }
    let r = open_shares(params, r_shares);

    let eps = bigint_rem_euc(&bigint_sub(&x_i, &r), &params.p);
    let mut j: usize = 0;
    while j < amount_of_players
        decreases amount_of_players - j,
    {
        if j != player_number {
            state.facilitator.send(j, &OnlineMessage::ShareInteger(bigint_clone(&eps)));
        }
        j += 1;
    }

    let share = input_share_update(params, player_number, r_angle, &eps, &state.alpha_i);
    proof {
        assert(some_masked_input_update(
            (int_of(share.0), int_of(share.1)),
            (int_of(r_pair.1.0), int_of(r_pair.1.1)),
            int_of(x_i),
            int_of(state.alpha_i),
            params.pp(),
        )) by {
            assert(is_masked_input_update(
                (int_of(share.0), int_of(share.1)),
                player_number as int,
                (int_of(r_pair.1.0), int_of(r_pair.1.1)),
                int_of(x_i),
                int_of(r),
                int_of(state.alpha_i),
                params.pp(),
            ));
        }
    }
    Ok(share)
}

/// Take part in another player's input: send this player's share of
/// the masking pair to the input player, receive the broadcast offset,
/// and update the pair's authenticated share.
pub fn receive_input<F: Facilitator>(
    r_pair: (num::BigInt, AngleShare),
    params: &Parameters,
    state: &PlayerState<F>,
) -> (res: Result<AngleShare, MpcError>)
    requires
        params.wf(),
    ensures
        res matches Ok(sh) ==> some_input_update(
            (int_of(sh.0), int_of(sh.1)),
            (int_of(r_pair.1.0), int_of(r_pair.1.1)),
            int_of(state.alpha_i),
            params.pp(),
        ),
{
    let (p_i, msg) = state.facilitator.receive();
    match msg {
        OnlineMessage::BeginInput => {},
        other => {
            return Err(MpcError::BadMessage(MessageKind::BeginInput, other.kind()));
        },
    }

    let (r_share, r_angle) = r_pair;
    state.facilitator.send(p_i, &OnlineMessage::ShareInteger(r_share));

    let msg = state.facilitator.receive_from(p_i);
    let eps = match msg {
        OnlineMessage::ShareInteger(eps) => eps,
        other => {
            return Err(MpcError::BadMessage(MessageKind::ShareInteger, other.kind()));
        },
    };

    let player_number = state.facilitator.player_number();
    let share = input_share_update(params, player_number, r_angle, &eps, &state.alpha_i);
    proof {
        assert(some_input_update(
            (int_of(share.0), int_of(share.1)),
            (int_of(r_pair.1.0), int_of(r_pair.1.1)),
            int_of(state.alpha_i),
            params.pp(),
        )) by {
            assert(is_input_update(
                (int_of(share.0), int_of(share.1)),
                player_number as int,
                (int_of(r_pair.1.0), int_of(r_pair.1.1)),
                int_of(eps),
                int_of(state.alpha_i),
                params.pp(),
            ));
        }
    }
    Ok(share)
}

/// Local addition of two authenticated shares: coordinate-wise, with
/// no communication.
pub fn add(x: &AngleShare, y: &AngleShare) -> (res: AngleShare)
    ensures
        int_of(res.0) == int_of(x.0) + int_of(y.0),
        int_of(res.1) == int_of(x.1) + int_of(y.1),
{
    (bigint_add(&x.0, &y.0), bigint_add(&x.1, &y.1))
}

/// Open an additively shared value toward player zero, who sums the
/// shares and broadcasts the result.
pub fn partial_opening<F: Facilitator>(
    params: &Parameters,
    to_share: num::BigInt,
    state: &PlayerState<F>,
) -> (res: Result<num::BigInt, MpcError>)
    requires
        params.wf(),
    ensures
        res matches Err(e) ==> (e matches MpcError::BadMessage(_, _) || e
            matches MpcError::TransportError),
{
    let amount_of_players = state.facilitator.player_count();
    state.facilitator.send(0, &OnlineMessage::ShareInteger(to_share));
    if state.facilitator.player_number() == 0 {
        let messages = state.facilitator.receive_many(amount_of_players);
        let mut shares: Vec<num::BigInt> = Vec::new();
        let mut i: usize = 0;
        while i < messages.len()
            invariant
                i <= messages@.len(),
            decreases messages@.len() - i,
        {
            match &messages[i].1 {
                OnlineMessage::ShareInteger(received_share) => {
                    shares.push(bigint_clone(received_share));
                },
                other => {
                    return Err(MpcError::BadMessage(MessageKind::ShareInteger, other.kind()));
                },
            }
            i += 1;
        }
        let result = open_shares(params, shares);
        state.facilitator.broadcast(&OnlineMessage::ShareInteger(result));
    }

    let msg = state.facilitator.receive_from(0);
    match msg {
        OnlineMessage::ShareInteger(received) => Ok(received),
        other => Err(MpcError::BadMessage(MessageKind::ShareInteger, other.kind())),
    }
}

fn clone_pairs(v: &Vec<(num::BigInt, num::BigInt)>) -> (r: Vec<(num::BigInt, num::BigInt)>)
    ensures
        r@.len() == v@.len(),
        forall|i: int|
            0 <= i < v@.len() ==> int_of((#[trigger] r@[i]).0) == int_of(v@[i].0) && int_of(
                r@[i].1,
            ) == int_of(v@[i].1),
{
    let mut out: Vec<(num::BigInt, num::BigInt)> = Vec::new();
    let mut i: usize = 0;
    while i < v.len()
        invariant
            i <= v@.len(),
            out@.len() == i,
            forall|j: int|
                0 <= j < i ==> int_of((#[trigger] out@[j]).0) == int_of(v@[j].0) && int_of(
                    out@[j].1,
                ) == int_of(v@[j].1),
        decreases v@.len() - i,
    {
        let pair = (bigint_clone(&v[i].0), bigint_clone(&v[i].1));
        out.push(pair);
        i += 1;
    }
    out
}

/// The opened values of a log of (value, MAC share) pairs.
pub open spec fn log_values(log: Seq<(num::BigInt, num::BigInt)>) -> Seq<int> {
    Seq::new(log.len(), |j: int| int_of(log[j].0))
}

/// The MAC shares of a log of (value, MAC share) pairs.
pub open spec fn log_macs(log: Seq<(num::BigInt, num::BigInt)>) -> Seq<int> {
    Seq::new(log.len(), |j: int| int_of(log[j].1))
}

/// The linear combination `sum r_j · v_j` over the first `n` entries.
pub open spec fn dot(r: Seq<int>, v: Seq<int>, n: int) -> int
    decreases n,
{
    if n <= 0 {
        0
    } else {
        dot(r, v, n - 1) + r[n - 1] * v[n - 1]
    }
}

/// This player's sigma value for the drawn challenge coefficients:
/// the challenge combination of the MAC shares, minus this player's
/// MAC key share times the challenge combination of the opened values,
/// modulo `p`.
pub fn sigma_share(
    params: &Parameters,
    rs: &Vec<num::BigInt>,
    to_check: &Vec<(num::BigInt, num::BigInt)>,
    alpha_i: &num::BigInt,
) -> (res: num::BigInt)
    requires
        params.wf(),
        rs@.len() == to_check@.len(),
    ensures
        int_of(res) == (dot(ints_of(rs@), log_macs(to_check@), to_check@.len() as int) - int_of(
            *alpha_i,
        ) * dot(ints_of(rs@), log_values(to_check@), to_check@.len() as int)) % params.pp(),
        0 <= int_of(res) < params.pp(),
{
    let t = to_check.len();
    let ghost rv = ints_of(rs@);
    let ghost vals = log_values(to_check@);
    let ghost macs = log_macs(to_check@);

    let mut a = bigint_from(0);
    proof {
        vstd::arithmetic::div_mod::lemma_small_mod(0, params.pp() as nat);
    }
    let mut j: usize = 0;
    while j < t
        invariant
            params.wf(),
            t == to_check@.len(),
            rs@.len() == t,
            rv == ints_of(rs@),
            vals == log_values(to_check@),
            j <= t,
            int_of(a) == dot(rv, vals, j as int) % params.pp(),
            0 <= int_of(a) < params.pp(),
        decreases t - j,
    {
        let next = bigint_rem_euc(&bigint_add(&a, &bigint_mul(&rs[j], &to_check[j].0)), &params.p);
        proof {
            vstd::arithmetic::div_mod::lemma_add_mod_noop_right(
                rv[j as int] * vals[j as int],
                dot(rv, vals, j as int),
                params.pp(),
            );
        }
        a = next;
        j += 1;
    }

    let mut gamma_i = bigint_from(0);
    proof {
        vstd::arithmetic::div_mod::lemma_small_mod(0, params.pp() as nat);
    }
    let mut j: usize = 0;
    while j < t
        invariant
            params.wf(),
            t == to_check@.len(),
            rs@.len() == t,
            rv == ints_of(rs@),
            macs == log_macs(to_check@),
            j <= t,
            int_of(gamma_i) == dot(rv, macs, j as int) % params.pp(),
            0 <= int_of(gamma_i) < params.pp(),
        decreases t - j,
    {
        let next = bigint_rem_euc(
            &bigint_add(&gamma_i, &bigint_mul(&rs[j], &to_check[j].1)),
            &params.p,
        );
        proof {
            vstd::arithmetic::div_mod::lemma_add_mod_noop_right(
                rv[j as int] * macs[j as int],
                dot(rv, macs, j as int),
                params.pp(),
            );
        }
        gamma_i = next;
        j += 1;
    }

    let res = bigint_rem_euc(&bigint_sub(&gamma_i, &bigint_mul(alpha_i, &a)), &params.p);
    proof {
        let pp = params.pp();
        let big_a = dot(rv, vals, t as int);
        let big_g = dot(rv, macs, t as int);
        let al = int_of(*alpha_i);
        vstd::arithmetic::div_mod::lemma_sub_mod_noop_right(big_g % pp, al * (big_a % pp), pp);
        vstd::arithmetic::div_mod::lemma_mul_mod_noop_right(al, big_a, pp);
        vstd::arithmetic::div_mod::lemma_sub_mod_noop(big_g, al * big_a, pp);
        vstd::arithmetic::div_mod::lemma_mod_bound(big_g - al * big_a, pp);
    }
    res
}

/// The decision of a MAC check: the opened sigma values are accepted
/// exactly when they sum to zero modulo `p`; otherwise the error
/// carries the nonzero sum.
pub fn maccheck_verdict(params: &Parameters, sigmas: Vec<num::BigInt>) -> (res: Result<
    (),
    MpcError,
>)
    requires
        params.wf(),
    ensures
        match res {
            Ok(()) => sum_ints(ints_of(sigmas@)) % params.pp() == 0,
            Err(MpcError::MACCheckNonZero(s)) => int_of(s) == sum_ints(ints_of(sigmas@))
                % params.pp() && int_of(s) != 0,
            Err(_) => false,
        },
{
    let total = open_shares(params, sigmas);
    if crate::bigint::bigint_eq(&total, &bigint_from(0)) {
        Ok(())
    } else {
        Err(MpcError::MACCheckNonZero(total))
    }
}

/// The MAC check over a log of opened values with their MAC shares.
///
/// A commit-reveal coin toss yields a shared seed; a seeded generator
/// draws one coefficient per opened value; each player commits to and
/// then opens `sigma_i = sum r_j·gamma_{j,i} - alpha_i · sum r_j·a_j
/// mod p`; the check passes exactly when the opened sigmas sum to zero
/// modulo `p`.
pub fn maccheck<F: Facilitator>(
    params: &Parameters,
    to_check: Vec<(num::BigInt, num::BigInt)>,
    state: &PlayerState<F>,
) -> (res: Result<(), MpcError>)
    requires
        params.wf(),
    ensures
        match res {
            Ok(()) => true,
            Err(MpcError::MACCheckNonZero(s)) => int_of(s) != 0 && 0 <= int_of(s) < params.pp(),
            Err(_) => true,
        },
{
    let amount_of_players = state.facilitator.player_count();
    if amount_of_players < 1 {
        return Err(MpcError::TransportError);
    }
    let t = to_check.len();

    // Coin toss: commit to a random seed, then open every commitment.
    let s_i = random_bytes_32();
    let r = random_bytes_32();
    commit(clone_bytes(&s_i), clone_bytes(&r), state);

    let mut commitments: Vec<Vec<u8>> = Vec::new();
    let mut i: usize = 0;
    while i < amount_of_players
        invariant
            i <= amount_of_players,
            commitments@.len() == i,
        decreases amount_of_players - i,
    {
        commitments.push(Vec::new());
        i += 1;
    }
    let commit_msgs = state.facilitator.receive_many(amount_of_players);
    let mut i: usize = 0;
    while i < commit_msgs.len()
        invariant
            i <= commit_msgs@.len(),
            commitments@.len() == amount_of_players,
        decreases commit_msgs@.len() - i,
    {
        let p_i = commit_msgs[i].0;
        if p_i >= amount_of_players {
            return Err(MpcError::TransportError);
        }
        match &commit_msgs[i].1 {
            OnlineMessage::ShareCommitment(commitment_i) => {
                commitments.set(p_i, clone_bytes(commitment_i));
            },
            other => {
                return Err(MpcError::BadMessage(MessageKind::ShareCommitment, other.kind()));
            },
        }
        i += 1;
    }

    let mut o: Vec<u8> = Vec::new();
    crate::bytes::append_bytes(&mut o, &s_i);
    crate::bytes::append_bytes(&mut o, &r);
    state.facilitator.broadcast(&OnlineMessage::ShareCommitOpen(o));

    let mut seeds: Vec<Vec<u8>> = Vec::new();
    let mut i: usize = 0;
    while i < amount_of_players
        invariant
            i <= amount_of_players,
            seeds@.len() == i,
            forall|j: int| 0 <= j < i ==> (#[trigger] seeds@[j])@.len() == 32,
        decreases amount_of_players - i,
    {
        seeds.push(zero_bytes32());
        i += 1;
    }
    let open_msgs = state.facilitator.receive_many(amount_of_players);
    let mut i: usize = 0;
    while i < open_msgs.len()
        invariant
            i <= open_msgs@.len(),
            commitments@.len() == amount_of_players,
            seeds@.len() == amount_of_players,
            forall|j: int| 0 <= j < amount_of_players ==> (#[trigger] seeds@[j])@.len() == 32,
        decreases open_msgs@.len() - i,
    {
        let p_i = open_msgs[i].0;
        if p_i >= amount_of_players {
            return Err(MpcError::TransportError);
        }
        match &open_msgs[i].1 {
            OnlineMessage::ShareCommitOpen(o_i) => {
                let committed = clone_bytes(&commitments[p_i]);
                match open(committed, clone_bytes(o_i)) {
                    Ok(opened) => {
                        if opened.len() < 32 {
                            return Err(MpcError::CommitmentMismatch(p_i));
                        }
                        let seed = crate::bytes::take_bytes(&opened, 32);
                        seeds.set(p_i, seed);
                    },
                    Err(_) => {
                        return Err(MpcError::CommitmentMismatch(p_i));
                    },
                }
            },
            other => {
                return Err(MpcError::BadMessage(MessageKind::ShareCommitOpen, other.kind()));
            },
        }
        i += 1;
    }

    // The joint seed is the exclusive or of everyone's seed.
    let mut s: Vec<u8> = clone_bytes(&seeds[0]);
    let mut i: usize = 1;
    while i < amount_of_players
        invariant
            1 <= i <= amount_of_players,
            seeds@.len() == amount_of_players,
            forall|j: int| 0 <= j < amount_of_players ==> (#[trigger] seeds@[j])@.len() == 32,
            s@.len() == 32,
        decreases amount_of_players - i,
    {
        s = xor(s.as_slice(), seeds[i].as_slice());
        i += 1;
    }

    // Draw one random coefficient below p per opened value.
    let mut rng = rng_from_seed(s.as_slice());
    let mut rs: Vec<num::BigInt> = Vec::new();
    let mut j: usize = 0;
    while j < t
        invariant
            params.wf(),
            j <= t,
            rs@.len() == j,
        decreases t - j,
    {
        rs.push(sample_single_seeded(&mut rng, &params.p));
        j += 1;
    }

    let sigma_i = sigma_share(params, &rs, &to_check, &state.alpha_i);

    // Commit to sigma_i, then open every commitment.
    let sigma_i_bytes = crate::bigint::bigint_magnitude_bytes(&sigma_i);
    let r2 = random_bytes_32();
    commit(clone_bytes(&sigma_i_bytes), clone_bytes(&r2), state);

    let mut sigma_commitments: Vec<Vec<u8>> = Vec::new();
    let mut i: usize = 0;
    while i < amount_of_players
        invariant
            i <= amount_of_players,
            sigma_commitments@.len() == i,
        decreases amount_of_players - i,
    {
        sigma_commitments.push(Vec::new());
        i += 1;
    }
    let sigma_commit_msgs = state.facilitator.receive_many(amount_of_players);
    let mut i: usize = 0;
    while i < sigma_commit_msgs.len()
        invariant
            i <= sigma_commit_msgs@.len(),
            sigma_commitments@.len() == amount_of_players,
        decreases sigma_commit_msgs@.len() - i,
    {
        let p_i = sigma_commit_msgs[i].0;
        if p_i >= amount_of_players {
            return Err(MpcError::TransportError);
        }
        match &sigma_commit_msgs[i].1 {
            OnlineMessage::ShareCommitment(commitment_i) => {
                sigma_commitments.set(p_i, clone_bytes(commitment_i));
            },
            other => {
                return Err(MpcError::BadMessage(MessageKind::ShareCommitment, other.kind()));
            },
        }
        i += 1;
    }

    let mut o2: Vec<u8> = Vec::new();
    crate::bytes::append_bytes(&mut o2, &sigma_i_bytes);
    crate::bytes::append_bytes(&mut o2, &r2);
    state.facilitator.broadcast(&OnlineMessage::ShareCommitOpen(o2));

    let mut sigmas: Vec<num::BigInt> = Vec::new();
    let sigma_open_msgs = state.facilitator.receive_many(amount_of_players);
    let mut i: usize = 0;
    while i < sigma_open_msgs.len()
        invariant
            params.wf(),
            i <= sigma_open_msgs@.len(),
            sigma_commitments@.len() == amount_of_players,
        decreases sigma_open_msgs@.len() - i,
    {
        let p_i = sigma_open_msgs[i].0;
        if p_i >= amount_of_players {
            return Err(MpcError::TransportError);
        }
        match &sigma_open_msgs[i].1 {
            OnlineMessage::ShareCommitOpen(o_i) => {
                let committed = clone_bytes(&sigma_commitments[p_i]);
                match open(committed, clone_bytes(o_i)) {
                    Ok(opened) => {
                        if opened.len() < 32 {
                            return Err(MpcError::CommitmentMismatch(p_i));
                        }
                        let digits = crate::bytes::take_bytes(&opened, opened.len() - 32);
                        sigmas.push(crate::bigint::bigint_from_bytes_be(digits.as_slice()));
                    },
                    Err(_) => {
                        return Err(MpcError::CommitmentMismatch(p_i));
                    },
                }
            },
            other => {
                return Err(MpcError::BadMessage(MessageKind::ShareCommitOpen, other.kind()));
            },
        }
        i += 1;
    }

    maccheck_verdict(params, sigmas)
}

/// Relies on rand's `thread_rng`: 32 bytes drawn from an
/// operating-system-seeded generator. Nothing is promised of their
/// values.
#[verifier::external_body]
fn random_bytes_32() -> (r: Vec<u8>)
    ensures
        r@.len() == 32,
{
    let b: [u8; 32] = rand::Rng::gen(&mut rand::thread_rng());
    b.to_vec()
}

fn zero_bytes32() -> (r: Vec<u8>)
    ensures
        r@.len() == 32,
{
    let mut out: Vec<u8> = Vec::new();
    let mut i: usize = 0;
    while i < 32
        invariant
            i <= 32,
            out@.len() == i,
        decreases 32 - i,
    {
        out.push(0u8);
        i += 1;
    }
    out
}

fn clone_bytes(v: &Vec<u8>) -> (r: Vec<u8>)
    ensures
        r@ == v@,
{
    let mut out: Vec<u8> = Vec::new();
    let mut i: usize = 0;
    while i < v.len()
        invariant
            i <= v@.len(),
            out@.len() == i,
            forall|j: int| 0 <= j < i ==> #[trigger] out@[j] == v@[j],
        decreases v@.len() - i,
    {
        out.push(v[i]);
        i += 1;
    }
    proof {
        assert(out@ =~= v@);
    }
    out
}

/// The three log entries a sacrifice appends for the opened scalar
/// `t`: the openings of `rho` and `sigma` with this player's MAC
/// shares of `t·a - f` and `b - g`, then the checked value with the
/// MAC share `t·c - h - sigma·f - rho·g - sigma·rho·alpha`, where
/// `rho` and `sigma` are the two values just appended.
pub open spec fn sacrifice_log(
    old_log: Seq<(num::BigInt, num::BigInt)>,
    new_log: Seq<(num::BigInt, num::BigInt)>,
    a: (int, int),
    b: (int, int),
    c: (int, int),
    f: (int, int),
    g: (int, int),
    h: (int, int),
    alpha: int,
    t: int,
) -> bool {
    let l = old_log.len() as int;
    let rho = int_of(new_log[l].0);
    let sigma = int_of(new_log[l + 1].0);
    &&& new_log.len() == old_log.len() + 3
    &&& int_of(new_log[l].1) == t * a.1 - f.1
    &&& int_of(new_log[l + 1].1) == b.1 - g.1
    &&& int_of(new_log[l + 2].1) == t * c.1 - h.1 - sigma * f.1 - rho * g.1 - sigma * rho * alpha
}

/// For some opened scalar `t`, the log grew by the sacrifice's three
/// entries.
pub open spec fn some_sacrifice_log(
    old_log: Seq<(num::BigInt, num::BigInt)>,
    new_log: Seq<(num::BigInt, num::BigInt)>,
    a: (int, int),
    b: (int, int),
    c: (int, int),
    f: (int, int),
    g: (int, int),
    h: (int, int),
    alpha: int,
) -> bool {
    exists|t: int| sacrifice_log(old_log, new_log, a, b, c, f, g, h, alpha, t)
}

/// The sacrificial triple check: open `t`, then `rho = t·a - f` and
/// `sigma = b - g`, and verify that `t·c - h - sigma·f - rho·g -
/// sigma·rho` opens to zero. Every opened value joins the `opened`
/// log.
pub fn triple_check<F: Facilitator>(
    params: &Parameters,
    abc_triple: MulTriple,
    fgh_triple: MulTriple,
    t_share: num::BigInt,
    state: &mut PlayerState<F>,
) -> (res: Result<(), MpcError>)
    requires
        params.wf(),
    ensures
        final(state).sk_i1@ == old(state).sk_i1@,
        final(state).sk_i2@ == old(state).sk_i2@,
        final(state).pk == old(state).pk,
        final(state).alpha_i == old(state).alpha_i,
        final(state).e_alpha == old(state).e_alpha,
        final(state).facilitator == old(state).facilitator,
        final(state).opened@.len() >= old(state).opened@.len(),
        forall|j: int|
            0 <= j < old(state).opened@.len() ==> #[trigger] final(state).opened@[j] == old(
                state,
            ).opened@[j],
        (res matches Ok(()) || res matches Err(MpcError::TripleSacrificeNonZero(_)))
            ==> some_sacrifice_log(
            old(state).opened@,
            final(state).opened@,
            (int_of(abc_triple.0.0), int_of(abc_triple.0.1)),
            (int_of(abc_triple.1.0), int_of(abc_triple.1.1)),
            (int_of(abc_triple.2.0), int_of(abc_triple.2.1)),
            (int_of(fgh_triple.0.0), int_of(fgh_triple.0.1)),
            (int_of(fgh_triple.1.0), int_of(fgh_triple.1.1)),
            (int_of(fgh_triple.2.0), int_of(fgh_triple.2.1)),
            int_of(old(state).alpha_i),
        ),
        res matches Ok(()) ==> final(state).opened@.len() == old(state).opened@.len() + 3
            && int_of(final(state).opened@.last().0) == 0,
        res matches Err(MpcError::TripleSacrificeNonZero(v)) ==> final(state).opened@.len() == old(
            state,
        ).opened@.len() + 3 && int_of(final(state).opened@.last().0) == int_of(v) && int_of(v)
            != 0,
{
    let (a_angle, b_angle, c_angle) = abc_triple;
    let (f_angle, g_angle, h_angle) = fgh_triple;
    let amount_of_players = state.facilitator.player_count();

    state.facilitator.broadcast(&OnlineMessage::ShareInteger(t_share));
    let msgs = state.facilitator.receive_many(amount_of_players);
    let mut t_shares: Vec<num::BigInt> = Vec::new();
    let mut i: usize = 0;
    while i < msgs.len()
        invariant
            i <= msgs@.len(),
        decreases msgs@.len() - i,
    {
        match &msgs[i].1 {
            OnlineMessage::ShareInteger(t_sh) => {
                t_shares.push(bigint_clone(t_sh));
            },
            other => {
                return Err(MpcError::BadMessage(MessageKind::ShareInteger, other.kind()));
            },
        }
        i += 1;
    }
    let t = open_shares(params, t_shares);

    // rho = t·a - f
    let rho_share = (
        bigint_sub(&bigint_mul(&t, &a_angle.0), &f_angle.0),
        bigint_sub(&bigint_mul(&t, &a_angle.1), &f_angle.1),
    );
    let rho = match partial_opening(params, rho_share.0, state) {
        Ok(v) => v,
        Err(e) => {
            return Err(e);
        },
    };
    state.opened.push((bigint_clone(&rho), rho_share.1));

    // sigma = b - g
    let sigma_share = (
        bigint_sub(&b_angle.0, &g_angle.0),
        bigint_sub(&b_angle.1, &g_angle.1),
    );
    let sigma = match partial_opening(params, sigma_share.0, state) {
        Ok(v) => v,
        Err(e) => {
            return Err(e);
        },
    };
    state.opened.push((bigint_clone(&sigma), sigma_share.1));

    // zero = t·c - h - sigma·f - rho·g - sigma·rho
    let mut zero_val = bigint_sub(
        &bigint_sub(
            &bigint_sub(&bigint_mul(&t, &c_angle.0), &h_angle.0),
            &bigint_mul(&sigma, &f_angle.0),
        ),
        &bigint_mul(&rho, &g_angle.0),
    );
    let mut zero_mac = bigint_sub(
        &bigint_sub(
            &bigint_sub(&bigint_mul(&t, &c_angle.1), &h_angle.1),
            &bigint_mul(&sigma, &f_angle.1),
        ),
        &bigint_mul(&rho, &g_angle.1),
    );
    if state.facilitator.player_number() == 0 {
        zero_val = bigint_sub(&zero_val, &bigint_mul(&sigma, &rho));
    }
    zero_mac = bigint_sub(&zero_mac, &bigint_mul(&bigint_mul(&sigma, &rho), &state.alpha_i));

    let zero = match partial_opening(params, zero_val, state) {
        Ok(v) => v,
        Err(e) => {
            return Err(e);
        },
    };
    state.opened.push((bigint_clone(&zero), zero_mac));

    proof {
        assert(some_sacrifice_log(
            old(state).opened@,
            state.opened@,
            (int_of(abc_triple.0.0), int_of(abc_triple.0.1)),
            (int_of(abc_triple.1.0), int_of(abc_triple.1.1)),
            (int_of(abc_triple.2.0), int_of(abc_triple.2.1)),
            (int_of(fgh_triple.0.0), int_of(fgh_triple.0.1)),
            (int_of(fgh_triple.1.0), int_of(fgh_triple.1.1)),
            (int_of(fgh_triple.2.0), int_of(fgh_triple.2.1)),
            int_of(old(state).alpha_i),
        )) by {
            assert(sacrifice_log(
                old(state).opened@,
                state.opened@,
                (int_of(abc_triple.0.0), int_of(abc_triple.0.1)),
                (int_of(abc_triple.1.0), int_of(abc_triple.1.1)),
                (int_of(abc_triple.2.0), int_of(abc_triple.2.1)),
                (int_of(fgh_triple.0.0), int_of(fgh_triple.0.1)),
                (int_of(fgh_triple.1.0), int_of(fgh_triple.1.1)),
                (int_of(fgh_triple.2.0), int_of(fgh_triple.2.1)),
                int_of(old(state).alpha_i),
                int_of(t),
            ));
        }
    }
    if crate::bigint::bigint_eq(&zero, &bigint_from(0)) {
        Ok(())
    } else {
        Err(MpcError::TripleSacrificeNonZero(zero))
    }
}

/// The Beaver product share: `c + eps·b + delta·a`, with `eps·delta`
/// absorbed at player zero and `eps·delta·alpha_i` in every MAC share.
pub open spec fn beaver_share(
    me: int,
    a: (int, int),
    b: (int, int),
    c: (int, int),
    eps: int,
    delta: int,
    alpha: int,
) -> (int, int) {
    let v = c.0 + eps * b.0 + delta * a.0 + (if me == 0 {
        eps * delta
    } else {
        0
    });
    let m = c.1 + eps * b.1 + delta * a.1 + eps * delta * alpha;
    (v, m)
}

/// The two log entries of the Beaver step for player `me`: the
/// openings of `eps` and `delta` with this player's MAC shares of
/// `x - a` and `y - b`, and the result `z` is the Beaver combination
/// of the triple with the two appended openings.
pub open spec fn multiply_log(
    old_log: Seq<(num::BigInt, num::BigInt)>,
    new_log: Seq<(num::BigInt, num::BigInt)>,
    x: (int, int),
    y: (int, int),
    a: (int, int),
    b: (int, int),
    c: (int, int),
    z: (int, int),
    alpha: int,
    me: int,
) -> bool {
    let l = old_log.len() as int;
    let eps = int_of(new_log[l + 3].0);
    let delta = int_of(new_log[l + 4].0);
    &&& new_log.len() == old_log.len() + 5
    &&& int_of(new_log[l + 3].1) == x.1 - a.1
    &&& int_of(new_log[l + 4].1) == y.1 - b.1
    &&& z == beaver_share(me, a, b, c, eps, delta, alpha)
}

/// For some player index, the log grew by the sacrifice's three
/// entries and the Beaver step's two, and `z` is the combination of
/// the triple with the two appended openings.
pub open spec fn some_multiply_log(
    old_log: Seq<(num::BigInt, num::BigInt)>,
    new_log: Seq<(num::BigInt, num::BigInt)>,
    x: (int, int),
    y: (int, int),
    a: (int, int),
    b: (int, int),
    c: (int, int),
    z: (int, int),
    alpha: int,
) -> bool {
    exists|me: int| multiply_log(old_log, new_log, x, y, a, b, c, z, alpha, me)
}

/// Multiplication of two authenticated shares: sacrifice the second
/// triple against the first, open `eps = x - a` and `delta = y - b`,
/// and combine them with the first triple into a share of the product.
pub fn multiply<F: Facilitator>(
    params: &Parameters,
    x: AngleShare,
    y: AngleShare,
    abc_triple: MulTriple,
    fgh_triple: MulTriple,
    t_share: num::BigInt,
    state: &mut PlayerState<F>,
) -> (res: Result<AngleShare, MpcError>)
    requires
        params.wf(),
    ensures
        final(state).sk_i1@ == old(state).sk_i1@,
        final(state).sk_i2@ == old(state).sk_i2@,
        final(state).pk == old(state).pk,
        final(state).alpha_i == old(state).alpha_i,
        final(state).e_alpha == old(state).e_alpha,
        final(state).facilitator == old(state).facilitator,
        final(state).opened@.len() >= old(state).opened@.len(),
        forall|j: int|
            0 <= j < old(state).opened@.len() ==> #[trigger] final(state).opened@[j] == old(
                state,
            ).opened@[j],
        res matches Ok(z) ==> some_multiply_log(
            old(state).opened@,
            final(state).opened@,
            (int_of(x.0), int_of(x.1)),
            (int_of(y.0), int_of(y.1)),
            (int_of(abc_triple.0.0), int_of(abc_triple.0.1)),
            (int_of(abc_triple.1.0), int_of(abc_triple.1.1)),
            (int_of(abc_triple.2.0), int_of(abc_triple.2.1)),
            (int_of(z.0), int_of(z.1)),
            int_of(old(state).alpha_i),
        ),
        res matches Ok(_) ==> some_sacrifice_log(
            old(state).opened@,
            final(state).opened@.take(old(state).opened@.len() as int + 3),
            (int_of(abc_triple.0.0), int_of(abc_triple.0.1)),
            (int_of(abc_triple.1.0), int_of(abc_triple.1.1)),
            (int_of(abc_triple.2.0), int_of(abc_triple.2.1)),
            (int_of(fgh_triple.0.0), int_of(fgh_triple.0.1)),
            (int_of(fgh_triple.1.0), int_of(fgh_triple.1.1)),
            (int_of(fgh_triple.2.0), int_of(fgh_triple.2.1)),
            int_of(old(state).alpha_i),
        ),
{
    let a_angle = (bigint_clone(&abc_triple.0.0), bigint_clone(&abc_triple.0.1));
    let b_angle = (bigint_clone(&abc_triple.1.0), bigint_clone(&abc_triple.1.1));
    let c_angle = (bigint_clone(&abc_triple.2.0), bigint_clone(&abc_triple.2.1));

    let ghost abc_ints = (
        (int_of(abc_triple.0.0), int_of(abc_triple.0.1)),
        (int_of(abc_triple.1.0), int_of(abc_triple.1.1)),
        (int_of(abc_triple.2.0), int_of(abc_triple.2.1)),
    );
    let ghost fgh_ints = (
        (int_of(fgh_triple.0.0), int_of(fgh_triple.0.1)),
        (int_of(fgh_triple.1.0), int_of(fgh_triple.1.1)),
        (int_of(fgh_triple.2.0), int_of(fgh_triple.2.1)),
    );
    match triple_check(params, abc_triple, fgh_triple, t_share, state) {
        Ok(()) => {},
        Err(e) => {
            return Err(e);
        },
    }
    let ghost mid_log = state.opened@;

    // eps = x - a, opened.
    let epsilon_share = (
        bigint_sub(&x.0, &a_angle.0),
        bigint_sub(&x.1, &a_angle.1),
    );
    let epsilon = match partial_opening(params, epsilon_share.0, state) {
        Ok(v) => v,
        Err(e) => {
            return Err(e);
        },
    };
    state.opened.push((bigint_clone(&epsilon), epsilon_share.1));

    // delta = y - b, opened.
    let delta_share = (
        bigint_sub(&y.0, &b_angle.0),
        bigint_sub(&y.1, &b_angle.1),
    );
    let delta = match partial_opening(params, delta_share.0, state) {
        Ok(v) => v,
        Err(e) => {
            return Err(e);
        },
    };
    state.opened.push((bigint_clone(&delta), delta_share.1));

    let mut z_val = bigint_add(
        &bigint_add(&c_angle.0, &bigint_mul(&epsilon, &b_angle.0)),
        &bigint_mul(&delta, &a_angle.0),
    );
    let mut z_mac = bigint_add(
        &bigint_add(&c_angle.1, &bigint_mul(&epsilon, &b_angle.1)),
        &bigint_mul(&delta, &a_angle.1),
    );
    let me = state.facilitator.player_number();
    if me == 0 {
        z_val = bigint_add(&z_val, &bigint_mul(&epsilon, &delta));
    }
    z_mac = bigint_add(&z_mac, &bigint_mul(&bigint_mul(&epsilon, &delta), &state.alpha_i));

    let z_share = (z_val, z_mac);
    proof {
        let l = old(state).opened@.len() as int;
        assert(state.opened@.take(l + 3) =~= mid_log);
        let t0 = choose|t: int|
            sacrifice_log(
                old(state).opened@,
                mid_log,
                abc_ints.0,
                abc_ints.1,
                abc_ints.2,
                fgh_ints.0,
                fgh_ints.1,
                fgh_ints.2,
                int_of(old(state).alpha_i),
                t,
            );
        assert(some_sacrifice_log(
            old(state).opened@,
            state.opened@.take(l + 3),
            abc_ints.0,
            abc_ints.1,
            abc_ints.2,
            fgh_ints.0,
            fgh_ints.1,
            fgh_ints.2,
            int_of(old(state).alpha_i),
        )) by {
            assert(sacrifice_log(
                old(state).opened@,
                state.opened@.take(l + 3),
                abc_ints.0,
                abc_ints.1,
                abc_ints.2,
                fgh_ints.0,
                fgh_ints.1,
                fgh_ints.2,
                int_of(old(state).alpha_i),
                t0,
            ));
        }
        assert(some_multiply_log(
            old(state).opened@,
            state.opened@,
            (int_of(x.0), int_of(x.1)),
            (int_of(y.0), int_of(y.1)),
            (int_of(abc_triple.0.0), int_of(abc_triple.0.1)),
            (int_of(abc_triple.1.0), int_of(abc_triple.1.1)),
            (int_of(abc_triple.2.0), int_of(abc_triple.2.1)),
            (int_of(z_share.0), int_of(z_share.1)),
            int_of(old(state).alpha_i),
        )) by {
            assert(multiply_log(
                old(state).opened@,
                state.opened@,
                (int_of(x.0), int_of(x.1)),
                (int_of(y.0), int_of(y.1)),
                (int_of(abc_triple.0.0), int_of(abc_triple.0.1)),
                (int_of(abc_triple.1.0), int_of(abc_triple.1.1)),
                (int_of(abc_triple.2.0), int_of(abc_triple.2.1)),
                (int_of(z_share.0), int_of(z_share.1)),
                int_of(old(state).alpha_i),
                me as int,
            ));
        }
    }
    Ok(z_share)
}

/// Output a shared value: MAC-check the log of opened values (clearing
/// it on success), open the value by broadcasting the shares and
/// summing them modulo `p`, and MAC-check the reconstructed value
/// itself before returning it.
pub fn output<F: Facilitator>(
    params: &Parameters,
    y_angle: AngleShare,
    state: &mut PlayerState<F>,
) -> (res: Result<num::BigInt, MpcError>)
    requires
        params.wf(),
    ensures
        match res {
            Ok(v) => 0 <= int_of(v) < params.pp() && final(state).opened@.len() == 0,
            Err(_) => true,
        },
{
    let amount_of_players = state.facilitator.player_count();

    let log = clone_pairs(&state.opened);
    match maccheck(params, log, state) {
        Ok(()) => {},
        Err(e) => {
            return Err(e);
        },
    }
    state.opened = Vec::new();

    let (y_share, y_mac) = y_angle;
    state.facilitator.broadcast(&OnlineMessage::ShareInteger(y_share));

    let msgs = state.facilitator.receive_many(amount_of_players);
    let mut y_shares: Vec<num::BigInt> = Vec::new();
    let mut i: usize = 0;
    while i < msgs.len()
        invariant
            i <= msgs@.len(),
            state.opened@.len() == 0,
        decreases msgs@.len() - i,
    {
        match &msgs[i].1 {
            OnlineMessage::ShareInteger(y_sh) => {
                y_shares.push(bigint_clone(y_sh));
            },
            other => {
                return Err(MpcError::BadMessage(MessageKind::ShareInteger, other.kind()));
            },
        }
        i += 1;
    }
    let y = open_shares(params, y_shares);

    let mut singleton: Vec<(num::BigInt, num::BigInt)> = Vec::new();
    singleton.push((bigint_clone(&y), y_mac));
    match maccheck(params, singleton, state) {
        Ok(()) => {},
        Err(e) => {
            return Err(e);
        },
    }
    Ok(y)
}

} // verus!
