//! The durable leaderboard: what to make of what was read from storage, what
//! to write back after a win, and what to report when writing fails.
//!
//! Reading and writing are the caller's part. The caller hands in what the
//! read gave and whether the write went through; every decision is made here.

use crate::leaderboard::{
    in_ranking_order, insertion_point, place, ranked, top, Leaderboard, CAPACITY,
};
use crate::leaderboard::{lemma_ranked_is_idempotent, lemma_ranked_is_ranked, lemma_ranked_push};
use crate::round::Round;
use crate::score::ScoreRecord;
use vstd::prelude::*;

verus! {

/// What a read of the durable leaderboard gave.
pub enum StoreRead {
    /// Nothing has been stored yet.
    Missing,
    /// The records that are stored, in their stored order.
    Entries(Vec<ScoreRecord>),
    /// Something is stored, but it is not a list of records.
    Malformed,
    /// The storage could not be read.
    Unreadable,
}

/// Why the durable leaderboard could not be used.
#[derive(Clone, Copy, Debug, PartialEq, Eq, Structural)]
pub enum StoreError {
    /// What is stored is not a list of records.
    CorruptStore,
    /// The storage could not be read.
    Unreadable,
    /// The new leaderboard could not be written.
    PersistFailed,
}

/// The leaderboard that a read stands for, or the reason why there is none.
/// Storage that holds nothing yet stands for the empty leaderboard.
pub open spec fn loaded(read: StoreRead) -> Result<Seq<ScoreRecord>, StoreError> {
    match read {
        StoreRead::Missing => Ok(Seq::empty()),
        StoreRead::Entries(entries) => Ok(ranked(entries@)),
        StoreRead::Malformed => Err(StoreError::CorruptStore),
        StoreRead::Unreadable => Err(StoreError::Unreadable),
    }
}

/// The leaderboard to store after `score` has been won on top of what was
/// read: the newcomer put in at its place, behind its ties, and the result
/// cut to five. A read that gave no leaderboard gives none here either.
pub open spec fn recorded(read: StoreRead, score: ScoreRecord) -> Result<
    Seq<ScoreRecord>,
    StoreError,
> {
    match loaded(read) {
        Ok(board) => Ok(top(place(board, score), CAPACITY as nat)),
        Err(e) => Err(e),
    }
}

/// A result as the contracts see it: the leaderboard by its records.
pub open spec fn result_view(result: Result<Leaderboard, StoreError>) -> Result<
    Seq<ScoreRecord>,
    StoreError,
> {
    match result {
        Ok(board) => Ok(board@),
        Err(e) => Err(e),
    }
}

/// Makes the leaderboard of what was read from storage.
pub fn load(read: &StoreRead) -> (result: Result<Leaderboard, StoreError>)
    ensures
        result_view(result) == loaded(*read),
{
    match read {
        StoreRead::Missing => Ok(Leaderboard::new()),
        StoreRead::Entries(entries) => Ok(Leaderboard::from_entries(entries)),
        StoreRead::Malformed => Err(StoreError::CorruptStore),
        StoreRead::Unreadable => Err(StoreError::Unreadable),
    }
}

/// The leaderboard to show when nothing better can be had: the one that was
/// read, or the empty one where the read gave none.
pub fn load_or_empty(read: &StoreRead) -> (board: Leaderboard)
    ensures
        board@ == (match loaded(*read) {
            Ok(records) => records,
            Err(_) => Seq::empty(),
        }),
{
    match load(read) {
        Ok(board) => board,
        Err(_) => Leaderboard::new(),
    }
}

/// Makes the leaderboard that is to be stored after `score` has been won, on
/// top of what was read from storage.
pub fn record(read: &StoreRead, score: ScoreRecord) -> (result: Result<Leaderboard, StoreError>)
    ensures
        result_view(result) == recorded(*read, score),
        result matches Ok(board) ==> board@.len() <= CAPACITY && in_ranking_order(board@),
{
    match load(read) {
        Ok(board) => Ok(board.with_score(score)),
        Err(e) => Err(e),
    }
}

/// Makes the leaderboard that is to be stored after the round `round` has
/// been won, dated now by the local clock. An open round records nothing.
pub fn record_win(round: &Round, read: &StoreRead) -> (result: Option<
    Result<Leaderboard, StoreError>,
>)
    ensures
        result is Some <==> round@.won,
        result matches Some(r) ==> exists|score: ScoreRecord|
            round@.score_record(score.recorded_at) == Some(score) && result_view(r)
                == #[trigger] recorded(*read, score),
{
    match round.score_record() {
        Some(score) => Some(record(read, score)),
        None => None,
    }
}

/// What a caller is told after a win has been recorded.
pub struct RecordReport {
    /// The leaderboard with the win on it, stored or not.
    pub leaderboard: Leaderboard,
    /// `Some(StoreError::PersistFailed)` where the leaderboard could not be
    /// written, `None` where it is stored.
    pub warning: Option<StoreError>,
}

/// Reports a recorded win. The leaderboard is handed on whether or not it
/// could be written; a failed write is a warning beside it.
pub fn report(leaderboard: Leaderboard, write_succeeded: bool) -> (r: RecordReport)
    ensures
        r.leaderboard@ == leaderboard@,
        r.warning == (if write_succeeded {
            None
        } else {
            Some(StoreError::PersistFailed)
        }),
{
    RecordReport {
        leaderboard,
        warning: if write_succeeded {
            None
        } else {
            Some(StoreError::PersistFailed)
        },
    }
}

/// Recording a win on stored records is appending it to them, sorting the
/// whole into ranking order with ties in their order of arrival, and keeping
/// the best five.
pub proof fn lemma_record_appends_sorts_cuts(entries: Vec<ScoreRecord>, score: ScoreRecord)
    ensures
        recorded(StoreRead::Entries(entries), score) == Ok::<Seq<ScoreRecord>, StoreError>(
            ranked(entries@.push(score)),
        ),
{
    lemma_ranked_push(entries@, score);
}

/// The first win ever recorded is the whole leaderboard.
pub proof fn lemma_first_record_stands_alone(score: ScoreRecord)
    ensures
        recorded(StoreRead::Missing, score) == Ok::<Seq<ScoreRecord>, StoreError>(seq![score]),
{
    let none = Seq::<ScoreRecord>::empty();
    assert(insertion_point(none, score) == 0);
    assert(top(place(none, score), CAPACITY as nat) =~= seq![score]);
}

/// Whatever is recorded is a leaderboard: in ranking order, five records at
/// most.
pub proof fn lemma_recorded_is_ranked(read: StoreRead, score: ScoreRecord)
    ensures
        recorded(read, score) matches Ok(board) ==> board.len() <= CAPACITY && in_ranking_order(
            board,
        ),
{
    match read {
        StoreRead::Missing => {
            lemma_first_record_stands_alone(score);
            assert(in_ranking_order(seq![score]));
        },
        StoreRead::Entries(entries) => {
            lemma_record_appends_sorts_cuts(entries, score);
            lemma_ranked_is_ranked(entries@.push(score));
        },
        _ => {},
    }
}

/// Two loads of the same stored state give the same leaderboard, or fail
/// for the same reason.
pub proof fn lemma_load_is_repeatable(
    read: StoreRead,
    first: Result<Leaderboard, StoreError>,
    second: Result<Leaderboard, StoreError>,
)
    requires
        result_view(first) == loaded(read),
        result_view(second) == loaded(read),
    ensures
        result_view(first) == result_view(second),
{
}

/// A leaderboard that was stored loads back as it was stored: where `stored`
/// holds the leaderboard of `entries`, the leaderboard of `stored` is the
/// same.
pub proof fn lemma_stored_leaderboard_loads_back(
    entries: Vec<ScoreRecord>,
    stored: Vec<ScoreRecord>,
)
    requires
        stored@ == ranked(entries@),
    ensures
        loaded(StoreRead::Entries(stored)) == Ok::<Seq<ScoreRecord>, StoreError>(stored@),
{
    lemma_ranked_is_idempotent(entries@);
}

} // verus!
