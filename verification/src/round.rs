//! One round of the game: a secret number, the guesses made at it, and the
//! verdict on each guess.

use crate::clock::{elapsed_since, instant_now, whole_nanos};
use crate::number::{integer_text, parse_integer, ParsedInteger};
use crate::random::generate_secret_number;
use crate::tier::DifficultyTier;
use std::time::Instant;
use vstd::prelude::*;

verus! {

/// What the engine says of one guess.
#[derive(Clone, Copy, Debug, PartialEq, Eq)]
pub enum GuessOutcome {
    /// The text is not written as an integer. No attempt is charged.
    InvalidFormat,
    /// The integer lies outside the tier's range, by however much. The
    /// attempt is charged.
    OutOfRange,
    /// The secret is higher than the guess.
    TooLow,
    /// The secret is lower than the guess.
    TooHigh,
    /// The guess is the secret: the round is won, after `attempts` charged
    /// guesses and `elapsed_nanos` nanoseconds of play.
    Correct { attempts: u32, elapsed_nanos: u128 },
}

/// A round as the contracts see it.
pub struct RoundState {
    pub tier: DifficultyTier,
    pub secret: u32,
    pub attempts: nat,
    pub won: bool,
    /// The playing time measured at the winning guess; zero until then.
    pub win_elapsed: u128,
    pub started_at: Instant,
}

impl RoundState {
    /// The secret lies in the tier's range, and an unfinished round has no
    /// winning time yet.
    pub open spec fn wf(self) -> bool {
        &&& 1 <= self.secret <= self.tier.spec_bound()
        &&& self.attempts <= u32::MAX
        &&& !self.won ==> self.win_elapsed == 0
    }

    /// A round that has just begun.
    pub open spec fn fresh(tier: DifficultyTier, secret: u32, started_at: Instant) -> RoundState {
        RoundState { tier, secret, attempts: 0, won: false, win_elapsed: 0, started_at }
    }

    /// Whether `guess` lies in the range that the secret was drawn from.
    pub open spec fn in_range(self, guess: int) -> bool {
        1 <= guess <= self.tier.spec_bound()
    }

    /// The verdict on the guess `input`, made `elapsed` nanoseconds into the
    /// round.
    ///
    /// Text that is not written as an integer is rejected before anything
    /// else is looked at. Every integer is judged, whatever its sign and
    /// size. On a round that is already won every integer is answered with
    /// the verdict of the winning guess.
    pub open spec fn outcome_of(self, input: Seq<char>, elapsed: u128) -> GuessOutcome {
        match integer_text(input) {
            None => GuessOutcome::InvalidFormat,
            Some(guess) => if self.won {
                GuessOutcome::Correct {
                    attempts: self.attempts as u32,
                    elapsed_nanos: self.win_elapsed,
                }
            } else if !self.in_range(guess) {
                GuessOutcome::OutOfRange
            } else if guess < self.secret {
                GuessOutcome::TooLow
            } else if guess > self.secret {
                GuessOutcome::TooHigh
            } else {
                GuessOutcome::Correct {
                    attempts: (self.attempts + 1) as u32,
                    elapsed_nanos: elapsed,
                }
            },
        }
    }

    /// The round after the guess `input`, made `elapsed` nanoseconds into it.
    ///
    /// Every integer is charged as an attempt while the round is open, in
    /// range or not. Text that is not written as an integer changes nothing,
    /// and neither does any guess at a round that is won.
    pub open spec fn after_guess(self, input: Seq<char>, elapsed: u128) -> RoundState {
        match integer_text(input) {
            None => self,
            Some(guess) => if self.won {
                self
            } else if guess == self.secret {
                RoundState { attempts: self.attempts + 1, won: true, win_elapsed: elapsed, ..self }
            } else {
                RoundState { attempts: self.attempts + 1, ..self }
            },
        }
    }

    /// Whether the round can take the guess `input`: the guess charges no
    /// attempt, or the counter of attempts has room for one more.
    pub open spec fn can_take(self, input: Seq<char>) -> bool {
        self.won || self.attempts < u32::MAX || integer_text(input) is None
    }
}

/// One guess as a round meets it: the text, and the clock's reading when the
/// guess was made.
pub struct Guess {
    pub text: Seq<char>,
    pub elapsed: u128,
}

impl RoundState {
    /// The round after the guesses of `guesses`, made in order.
    pub open spec fn after_guesses(self, guesses: Seq<Guess>) -> RoundState
        decreases guesses.len(),
    {
        if guesses.len() == 0 {
            self
        } else {
            self.after_guesses(guesses.drop_last()).after_guess(
                guesses.last().text,
                guesses.last().elapsed,
            )
        }
    }

    /// Whether none of `guesses` names the secret.
    pub open spec fn all_miss(self, guesses: Seq<Guess>) -> bool {
        forall|i: int|
            0 <= i < guesses.len() ==> integer_text(#[trigger] guesses[i].text) != Some(
                self.secret as int,
            )
    }
}

/// How many of `guesses` are written as integers.
pub open spec fn integers_among(guesses: Seq<Guess>) -> nat
    decreases guesses.len(),
{
    if guesses.len() == 0 {
        0
    } else {
        integers_among(guesses.drop_last()) + if integer_text(guesses.last().text) is Some {
            1nat
        } else {
            0nat
        }
    }
}

/// Whether every one of `guesses` is an integer in the range of `tier`.
pub open spec fn all_accepted(tier: DifficultyTier, guesses: Seq<Guess>) -> bool {
    forall|i: int|
        0 <= i < guesses.len() ==> (integer_text(#[trigger] guesses[i].text) matches Some(g)
            && 1 <= g <= tier.spec_bound())
}

/// No guess changes the secret, the tier or the start of the round, whatever
/// the state and the text, and text that is not written as an integer
/// changes nothing at all.
pub proof fn lemma_guess_keeps_secret(state: RoundState, text: Seq<char>, elapsed: u128)
    ensures
        state.after_guess(text, elapsed).secret == state.secret,
        state.after_guess(text, elapsed).tier == state.tier,
        state.after_guess(text, elapsed).started_at == state.started_at,
        integer_text(text) is None ==> state.after_guess(text, elapsed) == state,
        integer_text(text) is None ==> state.outcome_of(text, elapsed)
            == GuessOutcome::InvalidFormat,
        integer_text(text) is None ==> state.can_take(text),
{
}

/// No sequence of guesses changes the secret, the tier or the start of the
/// round.
pub proof fn lemma_guesses_keep_secret(state: RoundState, guesses: Seq<Guess>)
    ensures
        state.after_guesses(guesses).secret == state.secret,
        state.after_guesses(guesses).tier == state.tier,
        state.after_guesses(guesses).started_at == state.started_at,
    decreases guesses.len(),
{
    if guesses.len() > 0 {
        lemma_guesses_keep_secret(state, guesses.drop_last());
    }
}

/// A guess that names the secret is always judged correct and leaves the
/// round won.
pub proof fn lemma_secret_wins(state: RoundState, text: Seq<char>, elapsed: u128)
    requires
        state.wf(),
        integer_text(text) == Some(state.secret as int),
    ensures
        state.outcome_of(text, elapsed) is Correct,
        state.after_guess(text, elapsed).won,
        !state.won ==> state.outcome_of(text, elapsed) == (GuessOutcome::Correct {
            attempts: (state.attempts + 1) as u32,
            elapsed_nanos: elapsed,
        }),
{
}

/// Whatever was guessed before, a guess that names the secret the round began
/// with is judged correct and leaves the round won.
pub proof fn lemma_secret_wins_after_any_guesses(
    state: RoundState,
    guesses: Seq<Guess>,
    text: Seq<char>,
    elapsed: u128,
)
    requires
        state.wf(),
        integer_text(text) == Some(state.secret as int),
    ensures
        state.after_guesses(guesses).outcome_of(text, elapsed) is Correct,
        state.after_guesses(guesses).after_guess(text, elapsed).won,
{
    lemma_guesses_keep_secret(state, guesses);
}

/// While nobody names the secret the round stays open, and its attempts grow
/// by the number of guesses that are integers: text that is not written as
/// an integer is never charged.
pub proof fn lemma_misses_charge_integers(state: RoundState, guesses: Seq<Guess>)
    requires
        !state.won,
        state.all_miss(guesses),
    ensures
        !state.after_guesses(guesses).won,
        state.after_guesses(guesses).attempts == state.attempts + integers_among(guesses),
    decreases guesses.len(),
{
    if guesses.len() > 0 {
        let before = guesses.drop_last();
        assert(state.all_miss(before)) by {
            assert forall|i: int| 0 <= i < before.len() implies integer_text(
                #[trigger] before[i].text,
            ) != Some(state.secret as int) by {
                assert(before[i] == guesses[i]);
            }
        }
        lemma_misses_charge_integers(state, before);
        lemma_guesses_keep_secret(state, before);
        assert(integer_text(guesses[guesses.len() - 1].text) != Some(state.secret as int));
    }
}

/// In an open round where only the last guess may name the secret, the
/// attempts grow by the number of guesses that are integers.
pub proof fn lemma_attempts_count_integers(state: RoundState, guesses: Seq<Guess>)
    requires
        !state.won,
        guesses.len() > 0 ==> state.all_miss(guesses.drop_last()),
    ensures
        state.after_guesses(guesses).attempts == state.attempts + integers_among(guesses),
{
    if guesses.len() > 0 {
        lemma_misses_charge_integers(state, guesses.drop_last());
        lemma_guesses_keep_secret(state, guesses.drop_last());
    }
}

/// Every guess in a run of accepted guesses is an integer.
pub proof fn lemma_accepted_are_integers(tier: DifficultyTier, guesses: Seq<Guess>)
    requires
        all_accepted(tier, guesses),
    ensures
        integers_among(guesses) == guesses.len(),
    decreases guesses.len(),
{
    if guesses.len() > 0 {
        let before = guesses.drop_last();
        assert(all_accepted(tier, before)) by {
            assert forall|i: int| 0 <= i < before.len() implies (integer_text(
                #[trigger] before[i].text,
            ) matches Some(g) && 1 <= g <= tier.spec_bound()) by {
                assert(before[i] == guesses[i]);
            }
        }
        lemma_accepted_are_integers(tier, before);
        assert(integer_text(guesses[guesses.len() - 1].text) is Some);
    }
}

/// A round that has just begun, after any number of accepted guesses of which
/// only the last may name the secret, has charged exactly that many attempts.
pub proof fn lemma_attempts_equal_accepted_guesses(
    tier: DifficultyTier,
    secret: u32,
    started_at: Instant,
    guesses: Seq<Guess>,
)
    requires
        all_accepted(tier, guesses),
        guesses.len() > 0 ==> RoundState::fresh(tier, secret, started_at).all_miss(
            guesses.drop_last(),
        ),
    ensures
        RoundState::fresh(tier, secret, started_at).after_guesses(guesses).attempts
            == guesses.len(),
{
    lemma_attempts_count_integers(RoundState::fresh(tier, secret, started_at), guesses);
    lemma_accepted_are_integers(tier, guesses);
}

/// One round of play.
pub struct Round {
    tier: DifficultyTier,
    secret: u32,
    attempts: u32,
    won: bool,
    win_elapsed: u128,
    started_at: Instant,
}

impl View for Round {
    type V = RoundState;

    closed spec fn view(&self) -> RoundState {
        RoundState {
            tier: self.tier,
            secret: self.secret,
            attempts: self.attempts as nat,
            won: self.won,
            win_elapsed: self.win_elapsed,
            started_at: self.started_at,
        }
    }
}

impl Round {
    #[verifier::type_invariant]
    spec fn inv(self) -> bool {
        self@.wf()
    }

    /// Begins a round in `tier` with a secret drawn at random from the tier's
    /// range, timed from now.
    pub fn start(tier: DifficultyTier) -> (round: Round)
        ensures
            round@ == RoundState::fresh(tier, round@.secret, round@.started_at),
            1 <= round@.secret <= tier.spec_bound(),
            round@.wf(),
    {
        let secret: u32 = generate_secret_number(tier.bound());
        let started_at = instant_now();
        Round { tier, secret, attempts: 0, won: false, win_elapsed: 0, started_at }
    }

    /// Begins a round in `tier` with the given secret, timed from
    /// `started_at`. A secret outside the tier's range makes no round.
    pub fn new(tier: DifficultyTier, secret: u32, started_at: Instant) -> (round: Option<Round>)
        ensures
            round is Some <==> 1 <= secret <= tier.spec_bound(),
            round matches Some(r) ==> r@ == RoundState::fresh(tier, secret, started_at) && r@.wf(),
    {
        if 1 <= secret && secret <= tier.bound() {
            Some(Round { tier, secret, attempts: 0, won: false, win_elapsed: 0, started_at })
        } else {
            None
        }
    }

    /// The tier that the round is played in.
    pub fn tier(&self) -> (tier: DifficultyTier)
        ensures
            tier == self@.tier,
    {
        self.tier
    }

    /// The number to be guessed.
    pub fn secret(&self) -> (secret: u32)
        ensures
            secret == self@.secret,
            1 <= secret <= self@.tier.spec_bound(),
    {
        proof {
            use_type_invariant(self);
        }
        self.secret
    }

    /// The guesses charged so far.
    pub fn attempts(&self) -> (attempts: u32)
        ensures
            attempts == self@.attempts,
    {
        self.attempts
    }

    /// Whether the secret has been guessed.
    pub fn is_won(&self) -> (won: bool)
        ensures
            won == self@.won,
    {
        self.won
    }

    /// The playing time measured at the winning guess; zero while the round
    /// is open.
    pub fn win_elapsed(&self) -> (elapsed_nanos: u128)
        ensures
            elapsed_nanos == self@.win_elapsed,
            !self@.won ==> elapsed_nanos == 0,
    {
        proof {
            use_type_invariant(self);
        }
        self.win_elapsed
    }

    /// The instant at which the round began.
    pub fn started_at(&self) -> (started_at: Instant)
        ensures
            started_at == self@.started_at,
    {
        self.started_at
    }

    /// Whether the round can take the guess `raw_input`: the guess charges
    /// no attempt, or the counter of attempts has room for one more.
    pub fn can_take(&self, raw_input: &str) -> (b: bool)
        ensures
            b == self@.can_take(raw_input@),
    {
        self.won || self.attempts < u32::MAX || parse_integer(raw_input)
            == ParsedInteger::Malformed
    }

    /// Judges the guess `raw_input`, made `elapsed_nanos` nanoseconds into the
    /// round, and moves the round on.
    ///
    /// A guess that is charged needs room in the counter of attempts. Text
    /// that is not written as an integer is taken at any count, and so is any
    /// guess at a round that is won.
    pub fn submit_guess_at(&mut self, raw_input: &str, elapsed_nanos: u128) -> (outcome:
        GuessOutcome)
        requires
            old(self)@.can_take(raw_input@),
        ensures
            outcome == old(self)@.outcome_of(raw_input@, elapsed_nanos),
            final(self)@ == old(self)@.after_guess(raw_input@, elapsed_nanos),
            final(self)@.wf(),
    {
        proof {
            use_type_invariant(&*self);
        }
        let guess: ParsedInteger = parse_integer(raw_input);
        if guess == ParsedInteger::Malformed {
            return GuessOutcome::InvalidFormat;
        }
        if self.won {
            return GuessOutcome::Correct {
                attempts: self.attempts,
                elapsed_nanos: self.win_elapsed,
            };
        }
        self.attempts = self.attempts + 1;
        match guess {
            ParsedInteger::Value(number) => {
                if number < 1 || number > self.tier.bound() {
                    GuessOutcome::OutOfRange
                } else if number < self.secret {
                    GuessOutcome::TooLow
                } else if number > self.secret {
                    GuessOutcome::TooHigh
                } else {
                    self.won = true;
                    self.win_elapsed = elapsed_nanos;
                    GuessOutcome::Correct { attempts: self.attempts, elapsed_nanos }
                }
            },
            _ => GuessOutcome::OutOfRange,
        }
    }

    /// Judges the guess `raw_input` and moves the round on, timing a winning
    /// guess by the clock.
    ///
    /// The verdict and the new state are those of [`Round::submit_guess_at`]
    /// for the clock's reading, whatever that reading is.
    pub fn submit_guess(&mut self, raw_input: &str) -> (outcome: GuessOutcome)
        requires
            old(self)@.can_take(raw_input@),
        ensures
            exists|elapsed: u128|
                outcome == #[trigger] old(self)@.outcome_of(raw_input@, elapsed) && final(self)@
                    == old(self)@.after_guess(raw_input@, elapsed),
            final(self)@.wf(),
    {
        let elapsed: u128 = whole_nanos(&elapsed_since(&self.started_at));
        self.submit_guess_at(raw_input, elapsed)
    }
}

} // verus!
