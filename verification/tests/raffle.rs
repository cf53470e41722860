use charity_raffle::model::AccountId;
use charity_raffle::model::Error;
use charity_raffle::model::Payout;
use charity_raffle::model::COUNTDOWN_DURATION;
use charity_raffle::model::MAX_DEPOSIT;
use charity_raffle::model::MIN_DEPOSIT;
use charity_raffle::raffle::CharityRaffle;
use charity_raffle::raffle::Played;

fn acct(id: u64) -> AccountId {
    AccountId { id }
}

/// Five participants, each depositing `MIN_DEPOSIT`, entering at time 0.
fn five_player_raffle(beneficiary: AccountId) -> CharityRaffle {
    let mut raffle = CharityRaffle::new(beneficiary, 0);
    for id in 1..=5 {
        let r = raffle.play(acct(id), MIN_DEPOSIT);
        assert!(r.is_ok());
    }
    raffle
}

#[test]
fn default_works() {
    let raffle = CharityRaffle::default(0);
    assert_eq!(raffle.beneficiary(), acct(0));
    assert_eq!(raffle.winners(), (None, None));
    assert_eq!(raffle.participant_count(), 0);
}

#[test]
fn it_works() {
    let mut raffle = CharityRaffle::new(acct(7), 0);
    assert_eq!(raffle.beneficiary(), acct(7));
    let first = raffle.play(acct(1), MIN_DEPOSIT);
    assert_eq!(first, Ok(Played { who: acct(1), balance: MIN_DEPOSIT }));
    let again = raffle.play(acct(1), MIN_DEPOSIT);
    assert_eq!(again, Err(Error::HasPlayed));
    assert_eq!(raffle.participant_count(), 1);
}

#[test]
fn deposit_bounds_are_inclusive() {
    let mut raffle = CharityRaffle::new(acct(9), 0);
    assert_eq!(
        raffle.play(acct(1), MIN_DEPOSIT - 1),
        Err(Error::InvalidDepositAmount)
    );
    assert_eq!(
        raffle.play(acct(2), MAX_DEPOSIT + 1),
        Err(Error::InvalidDepositAmount)
    );
    assert_eq!(raffle.play(acct(3), 0), Err(Error::InvalidDepositAmount));
    assert_eq!(raffle.participant_count(), 0);
    assert_eq!(
        raffle.play(acct(4), MIN_DEPOSIT),
        Ok(Played { who: acct(4), balance: MIN_DEPOSIT })
    );
    assert_eq!(
        raffle.play(acct(5), MAX_DEPOSIT),
        Ok(Played { who: acct(5), balance: MAX_DEPOSIT })
    );
    assert_eq!(raffle.participant_count(), 2);
}

#[test]
fn duplicate_entry_rejected_and_state_kept() {
    let mut raffle = CharityRaffle::new(acct(9), 0);
    assert!(raffle.play(acct(1), MIN_DEPOSIT).is_ok());
    assert_eq!(raffle.play(acct(1), MAX_DEPOSIT), Err(Error::HasPlayed));
    assert_eq!(raffle.participant_count(), 1);
    assert_eq!(raffle.candidate_count(), 1);
}

#[test]
fn draw_fails_without_enough_players() {
    let beneficiary = acct(50);
    let mut raffle = CharityRaffle::new(beneficiary, 0);
    let rand = vec![0u8; 4];
    // No players at all, long after the countdown.
    assert_eq!(
        raffle.draw(COUNTDOWN_DURATION * 10, &rand),
        Err(Error::NotEnoughPlayer)
    );
    // Four players are still one short, whatever the time.
    for id in 1..=4 {
        assert!(raffle.play(acct(id), MIN_DEPOSIT).is_ok());
    }
    assert_eq!(
        raffle.draw(COUNTDOWN_DURATION * 10, &rand),
        Err(Error::NotEnoughPlayer)
    );
    assert_eq!(raffle.candidate_count(), 4);
    assert_eq!(raffle.winners(), (None, None));
}

#[test]
fn draw_respects_countdown_regardless_of_player_count() {
    let mut raffle = five_player_raffle(acct(50));
    let rand = vec![0u8; 4];
    assert_eq!(raffle.draw(0, &rand), Err(Error::InDrawCountdown));
    assert_eq!(
        raffle.draw(COUNTDOWN_DURATION - 1, &rand),
        Err(Error::InDrawCountdown)
    );
    assert_eq!(raffle.winners(), (None, None));
    assert_eq!(raffle.candidate_count(), 5);
    // The bound is inclusive: at exactly the countdown's end the draw runs.
    assert!(raffle.draw(COUNTDOWN_DURATION, &rand).is_ok());
}

#[test]
fn full_raffle_scenario() {
    let beneficiary = acct(1000);
    let mut raffle = five_player_raffle(beneficiary);

    // Before the countdown elapses the draw is rejected.
    assert_eq!(
        raffle.draw(COUNTDOWN_DURATION - 1, &vec![0u8; 4]),
        Err(Error::InDrawCountdown)
    );

    // First draw: bytes [0,0,0,0] select index 0 of [1,2,3,4,5].
    let first = raffle.draw(COUNTDOWN_DURATION, &vec![0u8; 4]).unwrap();
    assert_eq!(first.winner, acct(1));
    assert_eq!(first.payout, None);
    assert_eq!(raffle.winners(), (Some(acct(1)), None));
    assert_eq!(raffle.candidate_count(), 4);

    // Second draw: bytes [1,0,0,0] select index 1 of [5,2,3,4], and the
    // payout of all five deposits is owed to the beneficiary.
    let second = raffle
        .draw(COUNTDOWN_DURATION, &vec![1u8, 0, 0, 0])
        .unwrap();
    assert_eq!(second.winner, acct(2));
    assert_eq!(
        second.payout,
        Some(Payout { to: beneficiary, amount: 5 * MIN_DEPOSIT })
    );
    assert_eq!(raffle.winners(), (Some(acct(1)), Some(acct(2))));
    assert_eq!(raffle.candidate_count(), 3);

    // The raffle is finished: every further call is rejected.
    assert_eq!(
        raffle.draw(COUNTDOWN_DURATION + 1, &vec![0u8; 4]),
        Err(Error::Finished)
    );
    assert_eq!(raffle.play(acct(6), MIN_DEPOSIT), Err(Error::Finished));
    assert_eq!(raffle.winners(), (Some(acct(1)), Some(acct(2))));
}

#[test]
fn winners_are_distinct_entrants() {
    let mut raffle = five_player_raffle(acct(50));
    let rand = vec![0u8; 4];
    // Both draws ask for index 0; the swap-and-truncate removal makes the
    // second index 0 a different identity: [1,2,3,4,5] -> [5,2,3,4].
    let w1 = raffle.draw(COUNTDOWN_DURATION, &rand).unwrap().winner;
    let w2 = raffle.draw(COUNTDOWN_DURATION, &rand).unwrap().winner;
    assert_eq!(w1, acct(1));
    assert_eq!(w2, acct(5));
    assert_ne!(w1, w2);
    assert!((1..=5).any(|id| acct(id) == w1));
    assert!((1..=5).any(|id| acct(id) == w2));
}

#[test]
fn random_bytes_reduce_as_little_endian_prefix() {
    let mut raffle = CharityRaffle::new(acct(50), 0);
    for id in 1..=6 {
        assert!(raffle.play(acct(id), MIN_DEPOSIT).is_ok());
    }
    // [1,1,0,0] reads as 257 little-endian; 257 % 6 == 5, so the sixth
    // entrant wins. (A big-endian reading would pick index 2, an XOR fold
    // index 0.)
    let outcome = raffle
        .draw(COUNTDOWN_DURATION, &vec![1u8, 1, 0, 0])
        .unwrap();
    assert_eq!(outcome.winner, acct(6));
}

#[test]
fn only_first_four_random_bytes_matter() {
    let mut raffle = five_player_raffle(acct(50));
    let mut rand = vec![2u8, 0, 0, 0];
    rand.extend_from_slice(&[0xff; 28]);
    // 2 % 5 == 2: the third entrant wins, whatever the trailing bytes.
    let outcome = raffle.draw(COUNTDOWN_DURATION, &rand).unwrap();
    assert_eq!(outcome.winner, acct(3));
}

#[test]
fn payout_sums_all_deposits_exactly_once() {
    let beneficiary = acct(77);
    let mut raffle = CharityRaffle::new(beneficiary, 0);
    let deposits = [
        MIN_DEPOSIT,
        MIN_DEPOSIT + 7,
        2 * MIN_DEPOSIT,
        MAX_DEPOSIT,
        MIN_DEPOSIT,
    ];
    let mut expected_total = 0u128;
    for (i, deposit) in deposits.iter().enumerate() {
        assert!(raffle.play(acct(i as u64 + 1), *deposit).is_ok());
        expected_total += *deposit;
    }
    let first = raffle.draw(COUNTDOWN_DURATION, &vec![3u8, 0, 0, 0]).unwrap();
    assert_eq!(first.payout, None);
    let second = raffle.draw(COUNTDOWN_DURATION, &vec![0u8; 4]).unwrap();
    assert_eq!(
        second.payout,
        Some(Payout { to: beneficiary, amount: expected_total })
    );
}

#[test]
fn draw_seed_distinguishes_draws_at_the_same_time() {
    let mut raffle = five_player_raffle(acct(50));
    let t = COUNTDOWN_DURATION;
    assert_eq!(raffle.draw_seed(t), t * 10);
    assert!(raffle.draw(t, &vec![0u8; 4]).is_ok());
    assert_eq!(raffle.draw_seed(t), t * 10 + 1);
    assert!(raffle.draw(t, &vec![0u8; 4]).is_ok());
    assert_eq!(raffle.draw_seed(t), t * 10 + 2);
}

#[test]
fn draw_digest_hashes_the_seed() {
    let raffle = five_player_raffle(acct(50));
    let t = COUNTDOWN_DURATION;
    // The digest is BLAKE2b-128 of the seed's eight little-endian bytes: a
    // sixteen-byte value, not the seed bytes handed back unchanged.
    let digest = raffle.draw_digest(t);
    assert_eq!(digest.len(), 16);
    assert_ne!(digest, (t * 10).to_le_bytes().to_vec());
    // Deterministic per seed: the same state and time give the same digest.
    assert_eq!(digest, raffle.draw_digest(t));
    // Distinct seeds give distinct digests.
    assert_ne!(digest, raffle.draw_digest(t + 1));
}

#[test]
fn draw_digest_changes_after_each_draw() {
    let mut raffle = five_player_raffle(acct(50));
    let t = COUNTDOWN_DURATION;
    let before = raffle.draw_digest(t);
    assert!(raffle.draw(t, &vec![0u8; 4]).is_ok());
    // The winners count enters the seed, so the second draw in the same
    // time unit is keyed differently.
    assert_ne!(before, raffle.draw_digest(t));
}

#[test]
fn failed_calls_leave_the_raffle_unchanged() {
    let mut raffle = five_player_raffle(acct(50));
    assert_eq!(raffle.draw(0, &vec![0u8; 4]), Err(Error::InDrawCountdown));
    assert_eq!(raffle.play(acct(1), MIN_DEPOSIT), Err(Error::HasPlayed));
    assert_eq!(
        raffle.play(acct(9), MAX_DEPOSIT + 1),
        Err(Error::InvalidDepositAmount)
    );
    assert_eq!(raffle.participant_count(), 5);
    assert_eq!(raffle.candidate_count(), 5);
    assert_eq!(raffle.winners(), (None, None));
}
