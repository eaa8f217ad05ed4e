//! The record of a won round, and the order in which records rank.

use crate::clock::{local_now, LocalTimestamp};
use crate::round::{Round, RoundState};
use crate::tier::DifficultyTier;
use vstd::prelude::*;

verus! {

/// The lasting outcome of one won round.
#[derive(Clone, Copy, Debug, PartialEq, Eq, Structural)]
pub struct ScoreRecord {
    /// The guesses that the round took.
    pub attempts: u32,
    /// The playing time, in nanoseconds.
    pub elapsed_nanos: u128,
    /// The tier that the round was played in.
    pub difficulty: DifficultyTier,
    /// When the round was won, in local time.
    pub recorded_at: LocalTimestamp,
}

/// Whether `a` ranks no later than `b`: fewer attempts rank first, and among
/// equal attempts the shorter time.
pub open spec fn ranks_no_later(a: ScoreRecord, b: ScoreRecord) -> bool {
    a.attempts < b.attempts || (a.attempts == b.attempts && a.elapsed_nanos <= b.elapsed_nanos)
}

/// Whether `a` and `b` tie: the same attempts in the same time.
pub open spec fn ties(a: ScoreRecord, b: ScoreRecord) -> bool {
    a.attempts == b.attempts && a.elapsed_nanos == b.elapsed_nanos
}

impl ScoreRecord {
    /// Whether this record ranks no later than `other`.
    pub fn ranks_no_later_than(&self, other: &ScoreRecord) -> (b: bool)
        ensures
            b == ranks_no_later(*self, *other),
    {
        self.attempts < other.attempts || (self.attempts == other.attempts && self.elapsed_nanos
            <= other.elapsed_nanos)
    }
}

/// The ranking order is total, transitive and reflexive, and two records rank
/// no later than each other exactly when they tie.
pub proof fn lemma_ranking_is_total_preorder(a: ScoreRecord, b: ScoreRecord, c: ScoreRecord)
    ensures
        ranks_no_later(a, a),
        ranks_no_later(a, b) || ranks_no_later(b, a),
        ranks_no_later(a, b) && ranks_no_later(b, c) ==> ranks_no_later(a, c),
        ranks_no_later(a, b) && ranks_no_later(b, a) <==> ties(a, b),
{
}

impl RoundState {
    /// The record of this round, dated `recorded_at`, if the round is won.
    pub open spec fn score_record(self, recorded_at: LocalTimestamp) -> Option<ScoreRecord> {
        if self.won {
            Some(
                ScoreRecord {
                    attempts: self.attempts as u32,
                    elapsed_nanos: self.win_elapsed,
                    difficulty: self.tier,
                    recorded_at,
                },
            )
        } else {
            None
        }
    }
}

impl Round {
    /// The record of this round, dated `recorded_at`. An open round has no
    /// record.
    pub fn score_record_at(&self, recorded_at: LocalTimestamp) -> (record: Option<ScoreRecord>)
        ensures
            record == self@.score_record(recorded_at),
    {
        if self.is_won() {
            Some(
                ScoreRecord {
                    attempts: self.attempts(),
                    elapsed_nanos: self.win_elapsed(),
                    difficulty: self.tier(),
                    recorded_at,
                },
            )
        } else {
            None
        }
    }

    /// The record of this round, dated now by the local clock. An open round
    /// has no record.
    pub fn score_record(&self) -> (record: Option<ScoreRecord>)
        ensures
            record is Some <==> self@.won,
            record matches Some(r) ==> self@.score_record(r.recorded_at) == record,
    {
        if self.is_won() {
            self.score_record_at(local_now())
        } else {
            None
        }
    }
}

} // verus!
