use guessing_game::round::{GuessOutcome, Round};
use guessing_game::tier::DifficultyTier;
use std::time::Instant;

fn round_with(tier: DifficultyTier, secret: u32) -> Round {
    Round::new(tier, secret, Instant::now()).expect("secret lies in the tier's range")
}

#[test]
fn start_draws_secret_in_range_of_each_tier() {
    for tier in [DifficultyTier::Easy, DifficultyTier::Medium, DifficultyTier::Hard] {
        for _ in 0..500 {
            let round = Round::start(tier);
            assert!(round.secret() >= 1);
            assert!(round.secret() <= tier.bound());
            assert_eq!(round.tier(), tier);
            assert_eq!(round.attempts(), 0);
            assert!(!round.is_won());
            assert_eq!(round.win_elapsed(), 0);
        }
    }
}

#[test]
fn start_does_not_always_draw_the_bound() {
    let mut below_bound = false;
    let mut distinct = std::collections::BTreeSet::new();
    for _ in 0..400 {
        let secret = Round::start(DifficultyTier::Hard).secret();
        if secret != 200 {
            below_bound = true;
        }
        distinct.insert(secret);
    }
    assert!(below_bound);
    assert!(distinct.len() > 1);
}

#[test]
fn new_refuses_secret_outside_range() {
    let now = Instant::now();
    assert!(Round::new(DifficultyTier::Easy, 0, now).is_none());
    assert!(Round::new(DifficultyTier::Easy, 51, now).is_none());
    assert!(Round::new(DifficultyTier::Medium, 101, now).is_none());
    assert!(Round::new(DifficultyTier::Hard, 201, now).is_none());
    assert!(Round::new(DifficultyTier::Easy, 1, now).is_some());
    assert!(Round::new(DifficultyTier::Easy, 50, now).is_some());
    assert!(Round::new(DifficultyTier::Hard, 200, now).is_some());
}

#[test]
fn new_keeps_what_it_is_given() {
    let now = Instant::now();
    let round = Round::new(DifficultyTier::Hard, 137, now).unwrap();
    assert_eq!(round.secret(), 137);
    assert_eq!(round.tier(), DifficultyTier::Hard);
    assert_eq!(round.started_at(), now);
    assert_eq!(round.attempts(), 0);
    assert!(!round.is_won());
}

#[test]
fn guess_abc_on_fresh_round_is_invalid_format() {
    let mut round = round_with(DifficultyTier::Medium, 42);
    assert_eq!(round.submit_guess("abc"), GuessOutcome::InvalidFormat);
    assert_eq!(round.attempts(), 0);
    assert!(!round.is_won());
    assert_eq!(round.secret(), 42);
}

#[test]
fn guess_150_on_medium_is_out_of_range_and_charged() {
    let mut round = round_with(DifficultyTier::Medium, 42);
    assert_eq!(round.submit_guess("150"), GuessOutcome::OutOfRange);
    assert_eq!(round.attempts(), 1);
    assert!(!round.is_won());
}

#[test]
fn guess_zero_is_out_of_range_and_charged() {
    let mut round = round_with(DifficultyTier::Easy, 7);
    assert_eq!(round.submit_guess_at("0", 5), GuessOutcome::OutOfRange);
    assert_eq!(round.attempts(), 1);
    assert_eq!(round.submit_guess_at("51", 5), GuessOutcome::OutOfRange);
    assert_eq!(round.attempts(), 2);
    assert_eq!(round.submit_guess_at("50", 5), GuessOutcome::TooHigh);
    assert_eq!(round.attempts(), 3);
}

#[test]
fn low_and_high_guesses_are_told_apart() {
    let mut round = round_with(DifficultyTier::Medium, 42);
    assert_eq!(round.submit_guess_at("41", 1), GuessOutcome::TooLow);
    assert_eq!(round.submit_guess_at("1", 2), GuessOutcome::TooLow);
    assert_eq!(round.submit_guess_at("43", 3), GuessOutcome::TooHigh);
    assert_eq!(round.submit_guess_at("100", 4), GuessOutcome::TooHigh);
    assert_eq!(round.attempts(), 4);
    assert!(!round.is_won());
    assert_eq!(round.win_elapsed(), 0);
}

#[test]
fn the_secret_wins_with_attempts_and_time() {
    let mut round = round_with(DifficultyTier::Medium, 42);
    assert_eq!(round.submit_guess_at("50", 1_000), GuessOutcome::TooHigh);
    assert_eq!(round.submit_guess_at("nope", 2_000), GuessOutcome::InvalidFormat);
    assert_eq!(round.submit_guess_at("25", 3_000), GuessOutcome::TooLow);
    assert_eq!(
        round.submit_guess_at("42", 12_500_000_000),
        GuessOutcome::Correct { attempts: 3, elapsed_nanos: 12_500_000_000 }
    );
    assert!(round.is_won());
    assert_eq!(round.attempts(), 3);
    assert_eq!(round.win_elapsed(), 12_500_000_000);
    assert_eq!(round.secret(), 42);
}

#[test]
fn the_secret_wins_for_every_secret_of_every_tier() {
    for tier in [DifficultyTier::Easy, DifficultyTier::Medium, DifficultyTier::Hard] {
        for secret in 1..=tier.bound() {
            let mut round = round_with(tier, secret);
            if secret > 1 {
                assert_eq!(round.submit_guess_at("1", 10), GuessOutcome::TooLow);
            }
            let expected = if secret > 1 { 2 } else { 1 };
            assert_eq!(
                round.submit_guess_at(&secret.to_string(), 77),
                GuessOutcome::Correct { attempts: expected, elapsed_nanos: 77 }
            );
            assert!(round.is_won());
            assert_eq!(round.secret(), secret);
        }
    }
}

#[test]
fn attempts_count_the_numbers_submitted() {
    let mut round = round_with(DifficultyTier::Hard, 200);
    let mut charged = 0;
    for guess in 1..200u32 {
        assert_eq!(round.submit_guess_at(&guess.to_string(), 0), GuessOutcome::TooLow);
        charged += 1;
        assert_eq!(round.attempts(), charged);
        assert_eq!(round.submit_guess_at("", 0), GuessOutcome::InvalidFormat);
        assert_eq!(round.submit_guess_at("x1", 0), GuessOutcome::InvalidFormat);
        assert_eq!(round.submit_guess_at("1.5", 0), GuessOutcome::InvalidFormat);
        assert_eq!(round.attempts(), charged);
    }
    assert_eq!(round.attempts(), 199);
    assert_eq!(
        round.submit_guess_at("200", 5),
        GuessOutcome::Correct { attempts: 200, elapsed_nanos: 5 }
    );
}

#[test]
fn a_won_round_repeats_its_verdict_and_stays_as_it_is() {
    let mut round = round_with(DifficultyTier::Easy, 9);
    assert_eq!(round.submit_guess_at("3", 10), GuessOutcome::TooLow);
    let won = GuessOutcome::Correct { attempts: 2, elapsed_nanos: 20 };
    assert_eq!(round.submit_guess_at("9", 20), won);
    assert_eq!(round.submit_guess_at("9", 30), won);
    assert_eq!(round.submit_guess_at("4", 40), won);
    assert_eq!(round.submit_guess_at("999", 50), won);
    assert_eq!(round.submit_guess_at("what", 60), GuessOutcome::InvalidFormat);
    assert_eq!(round.attempts(), 2);
    assert_eq!(round.win_elapsed(), 20);
    assert!(round.is_won());
}

#[test]
fn text_that_is_no_integer_is_never_charged() {
    let mut round = round_with(DifficultyTier::Medium, 42);
    for text in ["", " ", "abc", "4 2", " 42", "42 ", "42\n", "4.2", "0x2A", "+", "-", "++1",
        "--1", "+-1", "-+1", "1-", "- 1", "4-2", "٤٢", "４２", "−5", "1e2", "4294967296x"]
    {
        assert!(round.can_take(text));
        assert_eq!(round.submit_guess(text), GuessOutcome::InvalidFormat, "{:?}", text);
        assert_eq!(round.attempts(), 0);
        assert!(!round.is_won());
        assert_eq!(round.secret(), 42);
    }
}

#[test]
fn guess_minus_five_on_medium_is_out_of_range_and_charged() {
    let mut round = round_with(DifficultyTier::Medium, 42);
    assert_eq!(round.submit_guess("-5"), GuessOutcome::OutOfRange);
    assert_eq!(round.attempts(), 1);
    assert!(!round.is_won());
    assert_eq!(round.secret(), 42);
    assert_eq!(round.tier(), DifficultyTier::Medium);
}

#[test]
fn integers_of_any_sign_and_size_are_judged_and_charged() {
    let mut round = round_with(DifficultyTier::Hard, 42);
    let mut charged = 0;
    for text in ["-1", "-42", "-0", "0", "+0", "201", "4294967295", "4294967296", "+4294967296",
        "99999999999999999999", "-99999999999999999999999999999999", "-4294967296",
        "000000000000000000000000000000000000000201", "18446744073709551616"]
    {
        assert!(round.can_take(text));
        assert_eq!(round.submit_guess_at(text, 3), GuessOutcome::OutOfRange, "{:?}", text);
        charged += 1;
        assert_eq!(round.attempts(), charged);
        assert!(!round.is_won());
        assert_eq!(round.secret(), 42);
    }
    assert_eq!(round.submit_guess_at("0000000000000000000000000000000000041", 3), GuessOutcome::TooLow);
    assert_eq!(
        round.submit_guess_at("+00000000000000000000000000000000042", 9),
        GuessOutcome::Correct { attempts: charged + 2, elapsed_nanos: 9 }
    );
}

#[test]
fn a_round_with_room_takes_every_guess() {
    let mut round = round_with(DifficultyTier::Easy, 9);
    for text in ["", "x", "1", "-1", "99999999999999999999"] {
        assert!(round.can_take(text));
    }
    round.submit_guess_at("9", 1);
    assert!(round.is_won());
    for text in ["", "x", "1", "-1", "99999999999999999999"] {
        assert!(round.can_take(text));
    }
}

#[test]
fn a_plus_sign_and_leading_zeros_are_read() {
    let mut round = round_with(DifficultyTier::Medium, 42);
    assert_eq!(round.submit_guess_at("+41", 0), GuessOutcome::TooLow);
    assert_eq!(round.submit_guess_at("0043", 0), GuessOutcome::TooHigh);
    assert_eq!(round.submit_guess_at("4294967295", 0), GuessOutcome::OutOfRange);
    assert_eq!(round.submit_guess_at("+000", 0), GuessOutcome::OutOfRange);
    assert_eq!(
        round.submit_guess_at("+0042", 8),
        GuessOutcome::Correct { attempts: 5, elapsed_nanos: 8 }
    );
}

#[test]
fn submit_guess_times_the_win_by_the_clock() {
    let mut round = round_with(DifficultyTier::Easy, 5);
    assert_eq!(round.submit_guess("4"), GuessOutcome::TooLow);
    let waiting = Instant::now();
    while waiting.elapsed() < std::time::Duration::from_millis(20) {}
    match round.submit_guess("5") {
        GuessOutcome::Correct { attempts, elapsed_nanos } => {
            assert_eq!(attempts, 2);
            assert!(elapsed_nanos >= 20_000_000);
            assert_eq!(round.win_elapsed(), elapsed_nanos);
        }
        other => panic!("expected a win, got {:?}", other),
    }
    assert!(round.is_won());
}
