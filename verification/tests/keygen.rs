use homomorphic_encryption_project::encryption::{decrypt, encrypt, generate_key_pair, Parameters};
use homomorphic_encryption_project::mpc::keygen::{ddec, distribute_keys, Player};
use homomorphic_encryption_project::poly::Polynomial;
use num::BigInt;

fn poly(coeffs: &[i64]) -> Polynomial {
    Polynomial::new(coeffs.iter().map(|&c| BigInt::from(c)).collect())
}

fn fresh_players(n: usize) -> Vec<Player> {
    let mut players = Vec::new();
    for _ in 0..n {
        players.push(Player::new());
    }
    players
}

#[test]
fn test_all_players_pk_are_equal() {
    let player_array = fresh_players(5);
    let params = Parameters::default();
    let player_array = distribute_keys(&params, player_array);

    let pk = &player_array[0].pk;
    for player in &player_array {
        assert_eq!(player.pk, *pk);
    }
}

#[test]
fn test_sk_shares_are_correct() {
    let players = fresh_players(5);
    let params = Parameters::default();
    let rq = &params.quotient_ring;

    let players = distribute_keys(&params, players);

    let mut s = poly(&[0]);
    for player in &players {
        s = rq.add(&s, &player.sk_i1);
    }

    let pk = (players[0].pk.0.cloned(), players[0].pk.1.cloned());

    let msg = poly(&[0]);
    let cipher = encrypt(&params, msg, &pk);
    let decrypted = decrypt(&params, cipher, &s);

    assert_eq!(decrypted.unwrap(), poly(&[0]));
    // At this point the summed shares act as the secret key.

    let s_mul_s = rq.mul(&s, &s);

    let mut s_mul_s_from_players = poly(&[0]);
    for player in &players {
        s_mul_s_from_players = rq.add(&s_mul_s_from_players, &player.sk_i2);
    }

    assert_eq!(s_mul_s, s_mul_s_from_players);
}

#[test]
fn test_distributed_decryption_works() {
    let player_array = fresh_players(5);
    let params = Parameters::default();
    let player_array = distribute_keys(&params, player_array);

    let pk = (player_array[0].pk.0.cloned(), player_array[0].pk.1.cloned());

    let msg = poly(&[0]);
    let cipher = encrypt(&params, msg, &pk);
    let decrypted = ddec(&params, player_array, cipher).unwrap();

    assert_eq!(decrypted, poly(&[0]));
}

#[test]
fn send_correct_pk() {
    let params = Parameters::default();
    let players = distribute_keys(&params, fresh_players(2));

    let pk = &players[0].pk;
    for player in &players {
        assert_eq!(player.pk, *pk);
    }
}

#[test]
fn send_correct_sk_shares() {
    let params = Parameters::default();
    let rq = &params.quotient_ring;
    let players = distribute_keys(&params, fresh_players(2));

    let pk = (players[0].pk.0.cloned(), players[0].pk.1.cloned());

    let mut s = poly(&[0]);
    for player in &players {
        s = rq.add(&s, &player.sk_i1);
    }

    let msg = poly(&[0]);
    let cipher = encrypt(&params, msg, &pk);
    let decrypted = decrypt(&params, cipher, &s);

    assert_eq!(decrypted.unwrap(), poly(&[0]));
    // At this point the summed shares act as the secret key.

    let s_mul_s = rq.mul(&s, &s);

    let mut s_mul_s_from_players = poly(&[0]);
    for player in &players {
        s_mul_s_from_players = rq.add(&s_mul_s_from_players, &player.sk_i2);
    }

    assert_eq!(s_mul_s, s_mul_s_from_players);
}

#[test]
fn generated_public_key_has_ring_shape() {
    let params = Parameters::default();
    let (pk, sk) = generate_key_pair(&params);
    assert_eq!(pk.0.len(), params.n);
    assert_eq!(sk.len(), params.n);
}
