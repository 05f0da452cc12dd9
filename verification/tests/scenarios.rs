use homomorphic_encryption_project::bigint::bigint_clone;
use homomorphic_encryption_project::encryption::{
    decode, decrypt, encode, generate_key_pair, secure_params, Parameters,
};
use homomorphic_encryption_project::mpc::online::{
    add, give_input, maccheck, multiply, output, receive_input,
};
use homomorphic_encryption_project::mpc::prep::{initialize, pair, triple};
use homomorphic_encryption_project::mpc::PlayerState;
use homomorphic_encryption_project::protocol::{
    Facilitator, KeyMaterial, MpcError, OnlineMessage,
};
use num::BigInt;

/// An in-process transport: one unbounded channel per directed edge.
struct ChannelFacilitator {
    me: usize,
    out_txs: Vec<crossbeam::channel::Sender<OnlineMessage>>,
    in_rxs: Vec<crossbeam::channel::Receiver<OnlineMessage>>,
}

fn make_facilitators(n: usize) -> Vec<ChannelFacilitator> {
    let mut txs: Vec<Vec<crossbeam::channel::Sender<OnlineMessage>>> = (0..n).map(|_| Vec::new()).collect();
    let mut rxs: Vec<Vec<crossbeam::channel::Receiver<OnlineMessage>>> =
        (0..n).map(|_| Vec::new()).collect();
    for from in 0..n {
        for to in 0..n {
            let (tx, rx) = crossbeam::channel::unbounded();
            txs[from].push(tx);
            rxs[to].push(rx);
        }
    }
    let mut out = Vec::new();
    for (me, (out_txs, in_rxs)) in txs.into_iter().zip(rxs.into_iter()).enumerate() {
        out.push(ChannelFacilitator { me, out_txs, in_rxs });
    }
    out
}

impl Facilitator for ChannelFacilitator {
    fn player_count(&self) -> usize {
        self.out_txs.len()
    }

    fn player_number(&self) -> usize {
        self.me
    }

    fn send(&self, player: usize, msg: &OnlineMessage) {
        self.out_txs[player].send(msg.clone()).unwrap();
    }

    fn broadcast(&self, msg: &OnlineMessage) {
        for player in 0..self.player_count() {
            self.send(player, msg);
        }
    }

    fn receive(&self) -> (usize, OnlineMessage) {
        let mut sel = crossbeam::channel::Select::new();
        for rx in &self.in_rxs {
            sel.recv(rx);
        }
        loop {
            let oper = sel.select();
            let idx = oper.index();
            if let Ok(msg) = oper.recv(&self.in_rxs[idx]) {
                return (idx, msg);
            }
        }
    }

    fn receive_from(&self, player: usize) -> OnlineMessage {
        self.in_rxs[player].recv().unwrap()
    }

    fn receive_many(&self, n: usize) -> Vec<(usize, OnlineMessage)> {
        (0..n).map(|from| (from, self.in_rxs[from].recv().unwrap())).collect()
    }

    fn receive_from_all(&self) -> Vec<OnlineMessage> {
        (0..self.player_count())
            .map(|from| self.in_rxs[from].recv().unwrap())
            .collect()
    }

    fn stop(self) {}
}

fn key_materials(params: &Parameters, n: usize) -> Vec<KeyMaterial> {
    let rq = &params.quotient_ring;
    if n == 1 {
        let (pk, sk) = generate_key_pair(params);
        let sk_sq = rq.mul(&sk, &sk);
        vec![KeyMaterial {
            pk,
            sk_i1: rq.reduce(&sk),
            sk_i2: sk_sq,
        }]
    } else {
        let mut players = Vec::new();
        for _ in 0..n {
            players.push(homomorphic_encryption_project::mpc::keygen::Player::new());
        }
        let players = homomorphic_encryption_project::mpc::keygen::distribute_keys(params, players);
        players
            .into_iter()
            .map(|p| KeyMaterial {
                pk: p.pk,
                sk_i1: p.sk_i1,
                sk_i2: p.sk_i2,
            })
            .collect()
    }
}

fn single_player_state(params: &Parameters) -> PlayerState<ChannelFacilitator> {
    let km = key_materials(params, 1).remove(0);
    let fac = make_facilitators(1).remove(0);
    PlayerState::new(fac, km)
}

#[test]
fn input_round_trip() {
    let params = secure_params();
    let mut state = single_player_state(&params);
    initialize(&params, &mut state).unwrap();

    let r_pair = pair(&params, &state).unwrap();
    let x = give_input(&params, BigInt::from(42), r_pair, &state).unwrap();
    let out = output(&params, x, &mut state).unwrap();

    assert_eq!(out, BigInt::from(42));
}

#[test]
fn addition_of_two_inputs() {
    let params = secure_params();
    let mut state = single_player_state(&params);
    initialize(&params, &mut state).unwrap();

    let r1_pair = pair(&params, &state).unwrap();
    let r2_pair = pair(&params, &state).unwrap();

    let x = give_input(&params, BigInt::from(2), r1_pair, &state).unwrap();
    let y = give_input(&params, BigInt::from(7), r2_pair, &state).unwrap();

    let z = add(&x, &y);
    let out = output(&params, z, &mut state).unwrap();

    assert_eq!(out, BigInt::from(9));
}

#[test]
fn multiplication_with_triples() {
    let params = secure_params();
    let mut state = single_player_state(&params);
    initialize(&params, &mut state).unwrap();

    let triple_1 = triple(&params, &state).unwrap();
    let triple_2 = triple(&params, &state).unwrap();
    let r1_pair = pair(&params, &state).unwrap();
    let r2_pair = pair(&params, &state).unwrap();
    let (t_share, _) = pair(&params, &state).unwrap();

    let x = give_input(&params, BigInt::from(2), r1_pair, &state).unwrap();
    let y = give_input(&params, BigInt::from(7), r2_pair, &state).unwrap();

    let z = multiply(&params, x, y, triple_1, triple_2, t_share, &mut state).unwrap();
    let out = output(&params, z, &mut state).unwrap();

    assert_eq!(out, BigInt::from(14));
}

#[test]
fn alpha_share_sum_matches_encrypted_mac_key() {
    // With one player, the plaintext of E(alpha) is that player's own
    // MAC key share.
    let params = secure_params();
    let (pk, sk) = generate_key_pair(&params);
    let rq = &params.quotient_ring;
    let km = KeyMaterial {
        pk,
        sk_i1: rq.reduce(&sk),
        sk_i2: rq.mul(&sk, &sk),
    };
    let fac = make_facilitators(1).remove(0);
    let mut state = PlayerState::new(fac, km);
    initialize(&params, &mut state).unwrap();

    let mut e_alpha = Vec::new();
    for p in &state.e_alpha {
        e_alpha.push(p.cloned());
    }
    let plain = decrypt(&params, e_alpha, &sk).unwrap();
    let alpha = decode(plain);
    assert_eq!(alpha, state.alpha_i);
}

#[test]
fn triple_factors_multiply_to_product() {
    let params = secure_params();
    let mut state = single_player_state(&params);
    initialize(&params, &mut state).unwrap();

    let (a, b, c) = triple(&params, &state).unwrap();
    let lhs = (a.0 * b.0) % &params.p;
    assert_eq!(lhs, c.0);
}

#[test]
fn pair_mac_matches_alpha_times_value() {
    let params = secure_params();
    let mut state = single_player_state(&params);
    initialize(&params, &mut state).unwrap();

    let (r, r_angle) = pair(&params, &state).unwrap();
    assert_eq!(r_angle.0, r);
    let expected = (&state.alpha_i * &r) % &params.p;
    assert_eq!(r_angle.1, expected);
}

#[test]
fn maccheck_accepts_truthful_log() {
    let params = secure_params();
    let mut state = single_player_state(&params);
    initialize(&params, &mut state).unwrap();

    let a = BigInt::from(17);
    let gamma = (&state.alpha_i * &a) % &params.p;
    let log = vec![(a, gamma)];
    assert!(maccheck(&params, log, &state).is_ok());
}

#[test]
fn maccheck_rejects_flipped_value() {
    let params = secure_params();
    let mut state = single_player_state(&params);
    initialize(&params, &mut state).unwrap();

    let a = BigInt::from(17);
    let gamma = (&state.alpha_i * &a) % &params.p;
    let log = vec![(a + BigInt::from(1), gamma)];
    match maccheck(&params, log, &state) {
        Err(MpcError::MACCheckNonZero(s)) => assert_ne!(s, BigInt::from(0)),
        other => panic!("expected a MAC check failure, got {:?}", other.is_ok()),
    }
}

#[test]
fn maccheck_rejects_flipped_mac_share() {
    let params = secure_params();
    let mut state = single_player_state(&params);
    initialize(&params, &mut state).unwrap();

    let a = BigInt::from(17);
    let gamma = (&state.alpha_i * &a) % &params.p;
    let log = vec![(a, gamma + BigInt::from(1))];
    assert!(maccheck(&params, log, &state).is_err());
}

#[test]
fn corrupted_triple_is_detected() {
    let params = secure_params();
    let mut state = single_player_state(&params);
    initialize(&params, &mut state).unwrap();

    let (a, b, c) = triple(&params, &state).unwrap();
    let fgh = triple(&params, &state).unwrap();
    let r1_pair = pair(&params, &state).unwrap();
    let r2_pair = pair(&params, &state).unwrap();
    let (t_share, _) = pair(&params, &state).unwrap();

    let x = give_input(&params, BigInt::from(2), r1_pair, &state).unwrap();
    let y = give_input(&params, BigInt::from(7), r2_pair, &state).unwrap();

    // The malicious player flips a bit in its share of c.
    let corrupted = (a, b, (c.0 + BigInt::from(1), c.1));
    match multiply(&params, x, y, corrupted, fgh, t_share, &mut state) {
        Err(MpcError::TripleSacrificeNonZero(v)) => assert_ne!(v, BigInt::from(0)),
        Err(_) => {}
        Ok(z) => {
            // If the sacrifice happened to pass, the MAC check at
            // output must fail.
            assert!(output(&params, z, &mut state).is_err());
        }
    }
}

#[test]
fn tampered_opened_value_is_detected() {
    let params = secure_params();
    let mut state = single_player_state(&params);
    initialize(&params, &mut state).unwrap();

    let triple_1 = triple(&params, &state).unwrap();
    let triple_2 = triple(&params, &state).unwrap();
    let r1_pair = pair(&params, &state).unwrap();
    let r2_pair = pair(&params, &state).unwrap();
    let (t_share, _) = pair(&params, &state).unwrap();

    let x = give_input(&params, BigInt::from(2), r1_pair, &state).unwrap();
    let y = give_input(&params, BigInt::from(7), r2_pair, &state).unwrap();

    let z = multiply(&params, x, y, triple_1, triple_2, t_share, &mut state).unwrap();

    // Alter one opened value between its emission and the MAC check.
    let (v, m) = state.opened.remove(0);
    state.opened.insert(0, (v + BigInt::from(1), m));

    assert!(output(&params, z, &mut state).is_err());
}

#[test]
fn bad_message_aborts_distributed_decryption() {
    let params = secure_params();
    let state = single_player_state(&params);
    // A stray message of the wrong kind sits in the queue where a
    // polynomial share is expected.
    state.facilitator.send(0, &OnlineMessage::BeginInput);
    let (pk, _sk) = generate_key_pair(&params);
    let c = homomorphic_encryption_project::encryption::encrypt(
        &params,
        encode(BigInt::from(1)),
        &pk,
    );
    match homomorphic_encryption_project::mpc::ddec(&params, &state, c) {
        Err(MpcError::BadMessage(_, _)) => {}
        other => panic!("expected a bad-message abort, got ok={}", other.is_ok()),
    }
}

#[test]
fn invalid_zkpopk_aborts_initialize() {
    let params = secure_params();
    let mut state = single_player_state(&params);
    // Pre-inject a well-shaped ciphertext broadcast followed by a bogus
    // proof; initialize consumes them in place of its own broadcasts.
    let zero_ct = vec![
        homomorphic_encryption_project::poly::Polynomial::zero(),
        homomorphic_encryption_project::poly::Polynomial::zero(),
    ];
    state
        .facilitator
        .send(0, &OnlineMessage::ShareCiphertext(zero_ct));
    state.facilitator.send(
        0,
        &OnlineMessage::ShareZKPoPK {
            a: Vec::new(),
            z: Vec::new(),
            t: Vec::new(),
            c: Vec::new(),
        },
    );
    match initialize(&params, &mut state) {
        Err(MpcError::ZKPoPKInvalid(_, _)) => {}
        other => panic!("expected a proof failure, got ok={}", other.is_ok()),
    }
}

#[test]
fn opened_log_is_cleared_by_output() {
    let params = secure_params();
    let mut state = single_player_state(&params);
    initialize(&params, &mut state).unwrap();

    let triple_1 = triple(&params, &state).unwrap();
    let triple_2 = triple(&params, &state).unwrap();
    let r1_pair = pair(&params, &state).unwrap();
    let r2_pair = pair(&params, &state).unwrap();
    let (t_share, _) = pair(&params, &state).unwrap();

    let x = give_input(&params, BigInt::from(3), r1_pair, &state).unwrap();
    let y = give_input(&params, BigInt::from(4), r2_pair, &state).unwrap();
    let z = multiply(&params, x, y, triple_1, triple_2, t_share, &mut state).unwrap();
    assert!(!state.opened.is_empty());

    let out = output(&params, z, &mut state).unwrap();
    assert_eq!(out, BigInt::from(12));
    assert!(state.opened.is_empty());
}

fn run_product_plus_input(providers: [usize; 3]) -> Vec<BigInt> {
    // Three players jointly compute x1·x2 + x3 for inputs 3, 4, 5.
    // The modulus 2^61 - 1 keeps a wide noise margin while staying a
    // single machine word, so the three concurrent players finish
    // quickly even unoptimized.
    let params = Parameters::new(
        BigInt::from(2305843009213693951i64),
        10,
        20,
        4,
        BigInt::from(127),
    );
    let inputs = [BigInt::from(3), BigInt::from(4), BigInt::from(5)];
    let kms = key_materials(&params, 3);
    let facs = make_facilitators(3);

    let mut outputs: Vec<(usize, BigInt)> = Vec::new();
    crossbeam::thread::scope(|scope| {
        let mut handles = Vec::new();
        for (fac, km) in facs.into_iter().zip(kms.into_iter()) {
            let params = &params;
            let inputs = &inputs;
            let providers = &providers;
            handles.push(scope.spawn(move |_| {
                let me = fac.player_number();
                let mut state = PlayerState::new(fac, km);
                initialize(params, &mut state).unwrap();

                let mut pairs = Vec::new();
                for _ in 0..4 {
                    pairs.push(pair(params, &state).unwrap());
                }
                let triple_1 = triple(params, &state).unwrap();
                let triple_2 = triple(params, &state).unwrap();

                let mut shares = Vec::new();
                for j in 0..3 {
                    let r_pair = pairs.remove(0);
                    let share = if providers[j] == me {
                        give_input(params, bigint_clone(&inputs[j]), r_pair, &state).unwrap()
                    } else {
                        receive_input(r_pair, params, &state).unwrap()
                    };
                    shares.push(share);
                }
                let (t_share, _) = pairs.remove(0);

                let x3 = shares.pop().unwrap();
                let x2 = shares.pop().unwrap();
                let x1 = shares.pop().unwrap();
                let prod = multiply(params, x1, x2, triple_1, triple_2, t_share, &mut state)
                    .unwrap();
                let s = add(&prod, &x3);
                let out = output(params, s, &mut state).unwrap();
                (me, out)
            }));
        }
        for h in handles {
            outputs.push(h.join().unwrap());
        }
    })
    .unwrap();

    outputs.sort_by_key(|(me, _)| *me);
    outputs.into_iter().map(|(_, v)| v).collect()
}

#[test]
fn three_party_product_plus_input() {
    let outs = run_product_plus_input([0, 1, 2]);
    // 3·4 + 5 = 17, below p = 127.
    for out in outs {
        assert_eq!(out, BigInt::from(17));
    }
}

#[test]
fn three_party_roles_reordered() {
    let outs = run_product_plus_input([1, 2, 0]);
    for out in outs {
        assert_eq!(out, BigInt::from(17));
    }
}
