//! The leaderboard: the five best records, best first.

use crate::score::{ranks_no_later, ties, ScoreRecord};
use vstd::prelude::*;

verus! {

/// The number of records that a leaderboard keeps.
pub const CAPACITY: usize = 5;

/// Whether `s` is in ranking order: no record ranks later than one behind it.
pub open spec fn in_ranking_order(s: Seq<ScoreRecord>) -> bool {
    forall|i: int, j: int| 0 <= i <= j < s.len() ==> ranks_no_later(s[i], s[j])
}

/// The place of a new record `x` in `s`: behind the leading records that rank
/// no later than `x`, so that among ties the newcomer is last.
pub open spec fn insertion_point(s: Seq<ScoreRecord>, x: ScoreRecord) -> nat
    decreases s.len(),
{
    if s.len() == 0 || !ranks_no_later(s[0], x) {
        0
    } else {
        1 + insertion_point(s.drop_first(), x)
    }
}

/// `s` with `x` put in at its place.
pub open spec fn place(s: Seq<ScoreRecord>, x: ScoreRecord) -> Seq<ScoreRecord> {
    s.insert(insertion_point(s, x) as int, x)
}

/// The records of `s` sorted into ranking order, ties kept in the order in
/// which they stand in `s`.
pub open spec fn stable_sort(s: Seq<ScoreRecord>) -> Seq<ScoreRecord>
    decreases s.len(),
{
    if s.len() == 0 {
        Seq::empty()
    } else {
        place(stable_sort(s.drop_last()), s.last())
    }
}

/// The first `n` records of `s`, or all of them where there are fewer.
pub open spec fn top(s: Seq<ScoreRecord>, n: nat) -> Seq<ScoreRecord> {
    if s.len() <= n {
        s
    } else {
        s.subrange(0, n as int)
    }
}

/// The leaderboard of the records `s`: sorted into ranking order, ties in
/// their order of arrival, and cut to the best five.
pub open spec fn ranked(s: Seq<ScoreRecord>) -> Seq<ScoreRecord> {
    top(stable_sort(s), CAPACITY as nat)
}

/// The insertion point splits a sequence in ranking order: exactly the
/// records in front of it rank no later than the newcomer.
pub proof fn lemma_insertion_point_splits(s: Seq<ScoreRecord>, x: ScoreRecord)
    ensures
        insertion_point(s, x) <= s.len(),
        forall|k: int| 0 <= k < insertion_point(s, x) ==> ranks_no_later(#[trigger] s[k], x),
        insertion_point(s, x) < s.len() ==> !ranks_no_later(s[insertion_point(s, x) as int], x),
        in_ranking_order(s) ==> forall|k: int|
            insertion_point(s, x) <= k < s.len() ==> !ranks_no_later(#[trigger] s[k], x),
    decreases s.len(),
{
    if s.len() == 0 || !ranks_no_later(s[0], x) {
        if in_ranking_order(s) {
            assert forall|k: int| 0 <= k < s.len() implies !ranks_no_later(#[trigger] s[k], x) by {
                assert(ranks_no_later(s[0], s[k]));
            }
        }
    } else {
        let rest = s.drop_first();
        lemma_insertion_point_splits(rest, x);
        let p = insertion_point(s, x);
        assert forall|k: int| 0 <= k < p implies ranks_no_later(#[trigger] s[k], x) by {
            if k > 0 {
                assert(s[k] == rest[k - 1]);
            }
        }
        if p < s.len() {
            assert(s[p as int] == rest[p - 1]);
        }
        if in_ranking_order(s) {
            assert(in_ranking_order(rest)) by {
                assert forall|i: int, j: int| 0 <= i <= j < rest.len() implies ranks_no_later(
                    rest[i],
                    rest[j],
                ) by {
                    assert(rest[i] == s[i + 1] && rest[j] == s[j + 1]);
                }
            }
            assert forall|k: int| p <= k < s.len() implies !ranks_no_later(#[trigger] s[k], x) by {
                assert(s[k] == rest[k - 1]);
            }
        }
    }
}

/// The insertion point is the only index that splits the sequence so.
pub proof fn lemma_insertion_point_is_unique(s: Seq<ScoreRecord>, x: ScoreRecord, p: int)
    requires
        0 <= p <= s.len(),
        forall|k: int| 0 <= k < p ==> ranks_no_later(#[trigger] s[k], x),
        p < s.len() ==> !ranks_no_later(s[p], x),
    ensures
        insertion_point(s, x) == p,
{
    lemma_insertion_point_splits(s, x);
    let q = insertion_point(s, x) as int;
    if q < p {
        assert(ranks_no_later(s[q], x));
    } else if p < q {
        assert(ranks_no_later(s[p], x));
    }
}

/// Putting a record in at its place keeps the ranking order.
pub proof fn lemma_place_keeps_order(s: Seq<ScoreRecord>, x: ScoreRecord)
    requires
        in_ranking_order(s),
    ensures
        in_ranking_order(place(s, x)),
        place(s, x).len() == s.len() + 1,
{
    lemma_insertion_point_splits(s, x);
    let p = insertion_point(s, x) as int;
    let t = place(s, x);
    assert forall|i: int, j: int| 0 <= i <= j < t.len() implies ranks_no_later(t[i], t[j]) by {
        if j < p {
            assert(t[i] == s[i] && t[j] == s[j]);
        } else if j == p {
            if i < p {
                assert(t[i] == s[i]);
            }
        } else {
            assert(t[j] == s[j - 1]);
            assert(!ranks_no_later(s[j - 1], x));
            if i < p {
                assert(t[i] == s[i]);
            } else if i > p {
                assert(t[i] == s[i - 1]);
            }
        }
    }
}

/// Sorting gives a sequence in ranking order, as long as the one sorted.
pub proof fn lemma_stable_sort_orders(s: Seq<ScoreRecord>)
    ensures
        in_ranking_order(stable_sort(s)),
        stable_sort(s).len() == s.len(),
    decreases s.len(),
{
    if s.len() > 0 {
        lemma_stable_sort_orders(s.drop_last());
        lemma_place_keeps_order(stable_sort(s.drop_last()), s.last());
    }
}

/// Sorting neither loses nor invents a record: each one occurs as often
/// after it as before.
pub proof fn lemma_stable_sort_permutes(s: Seq<ScoreRecord>)
    ensures
        stable_sort(s).to_multiset() == s.to_multiset(),
    decreases s.len(),
{
    broadcast use vstd::seq_lib::group_to_multiset_ensures;

    if s.len() == 0 {
        assert(stable_sort(s) =~= s);
    } else {
        let before = s.drop_last();
        let x = s.last();
        let sorted = stable_sort(before);
        lemma_stable_sort_permutes(before);
        lemma_insertion_point_splits(sorted, x);
        let p = insertion_point(sorted, x) as int;
        let t = sorted.insert(p, x);
        assert(t.remove(p) =~= sorted);
        assert(t[p] == x);
        assert(t.remove(p).to_multiset() == t.to_multiset().remove(x));
        assert(t.to_multiset() =~= sorted.to_multiset().insert(x));
        assert(before.push(x) =~= s);
    }
}

/// Sorting leaves a sequence in ranking order as it is.
pub proof fn lemma_stable_sort_fixes_ordered(s: Seq<ScoreRecord>)
    requires
        in_ranking_order(s),
    ensures
        stable_sort(s) == s,
    decreases s.len(),
{
    if s.len() == 0 {
        assert(stable_sort(s) =~= s);
    } else {
        let before = s.drop_last();
        assert(in_ranking_order(before)) by {
            assert forall|i: int, j: int| 0 <= i <= j < before.len() implies ranks_no_later(
                before[i],
                before[j],
            ) by {
                assert(before[i] == s[i] && before[j] == s[j]);
            }
        }
        lemma_stable_sort_fixes_ordered(before);
        assert forall|k: int| 0 <= k < before.len() implies ranks_no_later(
            #[trigger] before[k],
            s.last(),
        ) by {
            assert(before[k] == s[k]);
        }
        lemma_insertion_point_is_unique(before, s.last(), before.len() as int);
        assert(before.insert(before.len() as int, s.last()) =~= s);
    }
}

/// A cut of a sequence in ranking order is in ranking order.
pub proof fn lemma_top_keeps_order(s: Seq<ScoreRecord>, n: nat)
    requires
        in_ranking_order(s),
    ensures
        in_ranking_order(top(s, n)),
        top(s, n).len() <= n,
        top(s, n).len() <= s.len(),
{
    let t = top(s, n);
    assert forall|i: int, j: int| 0 <= i <= j < t.len() implies ranks_no_later(t[i], t[j]) by {
        assert(t[i] == s[i] && t[j] == s[j]);
    }
}

/// What lies behind the cut has no say in the best `n` after a newcomer:
/// placing the newcomer among the best `n` and cutting again gives the same
/// as placing it among all and cutting once.
pub proof fn lemma_place_in_top(s: Seq<ScoreRecord>, x: ScoreRecord, n: nat)
    requires
        in_ranking_order(s),
    ensures
        top(place(top(s, n), x), n) == top(place(s, x), n),
{
    if s.len() > n {
        let cut = top(s, n);
        lemma_insertion_point_splits(s, x);
        lemma_top_keeps_order(s, n);
        let p = insertion_point(s, x) as int;
        if p < n {
            assert forall|k: int| 0 <= k < p implies ranks_no_later(#[trigger] cut[k], x) by {
                assert(cut[k] == s[k]);
            }
            assert(cut[p] == s[p]);
            lemma_insertion_point_is_unique(cut, x, p);
            assert(top(place(cut, x), n) =~= top(place(s, x), n));
        } else {
            assert forall|k: int| 0 <= k < n implies ranks_no_later(#[trigger] cut[k], x) by {
                assert(cut[k] == s[k]);
            }
            lemma_insertion_point_is_unique(cut, x, n as int);
            assert(top(place(cut, x), n) =~= top(place(s, x), n));
        }
    }
}

/// The leaderboard of some records is in ranking order and holds five records
/// at most.
pub proof fn lemma_ranked_is_ranked(s: Seq<ScoreRecord>)
    ensures
        in_ranking_order(ranked(s)),
        ranked(s).len() <= CAPACITY,
        ranked(s).len() <= s.len(),
{
    lemma_stable_sort_orders(s);
    lemma_top_keeps_order(stable_sort(s), CAPACITY as nat);
}

/// Ranking a leaderboard again changes nothing.
pub proof fn lemma_ranked_is_idempotent(s: Seq<ScoreRecord>)
    ensures
        ranked(ranked(s)) == ranked(s),
{
    lemma_ranked_is_ranked(s);
    lemma_stable_sort_fixes_ordered(ranked(s));
}

/// The leaderboard after one more record is the old leaderboard with the
/// newcomer put in at its place, cut to five.
pub proof fn lemma_ranked_push(s: Seq<ScoreRecord>, x: ScoreRecord)
    ensures
        ranked(s.push(x)) == top(place(ranked(s), x), CAPACITY as nat),
{
    assert(s.push(x).drop_last() =~= s);
    assert(s.push(x).last() == x);
    lemma_stable_sort_orders(s);
    lemma_place_in_top(stable_sort(s), x, CAPACITY as nat);
}

/// Whether the record at index `i` of `s` belongs in front of the one at
/// index `j`: it ranks strictly earlier, or the two tie and it stands earlier
/// in `s`.
pub open spec fn goes_before(s: Seq<ScoreRecord>, i: int, j: int) -> bool {
    ranks_no_later(s[i], s[j]) && (!ranks_no_later(s[j], s[i]) || i < j)
}

/// The index in `stable_sort(s)` at which the record at index `i` of `s`
/// comes to stand.
pub open spec fn landing(s: Seq<ScoreRecord>, i: int) -> int
    decreases s.len(),
{
    if s.len() == 0 {
        0
    } else {
        let p = insertion_point(stable_sort(s.drop_last()), s.last()) as int;
        if i == s.len() - 1 {
            p
        } else {
            let q = landing(s.drop_last(), i);
            if q < p {
                q
            } else {
                q + 1
            }
        }
    }
}

/// Sorting is stable. Every record of `s` comes to stand at an index of its
/// own in the sorted sequence, and of any two records the one in front is
/// the one that ranks strictly earlier or, where they tie, the one that
/// stood earlier in `s`.
pub proof fn lemma_stable_sort_is_stable(s: Seq<ScoreRecord>)
    ensures
        forall|i: int|
            0 <= i < s.len() ==> 0 <= #[trigger] landing(s, i) < s.len() && stable_sort(
                s,
            )[landing(s, i)] == s[i],
        forall|i: int, j: int|
            0 <= i < s.len() && 0 <= j < s.len() && i != j ==> (#[trigger] landing(s, i)
                < #[trigger] landing(s, j) <==> goes_before(s, i, j)),
    decreases s.len(),
{
    if s.len() > 0 {
        let before = s.drop_last();
        let n = before.len() as int;
        let x = s.last();
        let sorted = stable_sort(before);
        let p = insertion_point(sorted, x) as int;
        let t = stable_sort(s);
        lemma_stable_sort_is_stable(before);
        lemma_stable_sort_orders(before);
        lemma_insertion_point_splits(sorted, x);
        assert(t == sorted.insert(p, x));
        assert forall|i: int| 0 <= i < s.len() implies 0 <= #[trigger] landing(s, i) < s.len()
            && t[landing(s, i)] == s[i] by {
            if i < n {
                let q = landing(before, i);
                assert(sorted[q] == before[i]);
                assert(before[i] == s[i]);
            }
        }
        assert forall|i: int, j: int|
            0 <= i < s.len() && 0 <= j < s.len() && i != j implies (#[trigger] landing(s, i)
            < #[trigger] landing(s, j) <==> goes_before(s, i, j)) by {
            if i < n && j < n {
                assert(before[i] == s[i] && before[j] == s[j]);
                assert(landing(before, i) < landing(before, j) <==> goes_before(before, i, j));
            } else if i < n {
                let q = landing(before, i);
                assert(sorted[q] == before[i]);
                assert(before[i] == s[i]);
            } else {
                let q = landing(before, j);
                assert(sorted[q] == before[j]);
                assert(before[j] == s[j]);
            }
        }
    }
}

/// Of two records that tie, the one that stood earlier stands earlier after
/// sorting too.
pub proof fn lemma_ties_keep_their_order(s: Seq<ScoreRecord>, i: int, j: int)
    requires
        0 <= i < j < s.len(),
        ties(s[i], s[j]),
    ensures
        0 <= landing(s, i) < landing(s, j) < s.len(),
        stable_sort(s)[landing(s, i)] == s[i],
        stable_sort(s)[landing(s, j)] == s[j],
{
    lemma_stable_sort_is_stable(s);
}

/// The five best records, best first.
pub struct Leaderboard {
    entries: Vec<ScoreRecord>,
}

impl View for Leaderboard {
    type V = Seq<ScoreRecord>;

    closed spec fn view(&self) -> Seq<ScoreRecord> {
        self.entries@
    }
}

impl Leaderboard {
    #[verifier::type_invariant]
    spec fn inv(self) -> bool {
        self.entries@.len() <= CAPACITY && in_ranking_order(self.entries@)
    }

    /// The leaderboard with no record on it.
    pub fn new() -> (board: Leaderboard)
        ensures
            board@ == Seq::<ScoreRecord>::empty(),
    {
        Leaderboard { entries: Vec::new() }
    }

    /// The leaderboard of the given records: sorted into ranking order, ties
    /// in the order given, and cut to the best five.
    pub fn from_entries(entries: &Vec<ScoreRecord>) -> (board: Leaderboard)
        ensures
            board@ == ranked(entries@),
    {
        let mut board = Leaderboard::new();
        let mut i: usize = 0;
        assert(entries@.subrange(0, 0) =~= Seq::empty());
        while i < entries.len()
            invariant
                i <= entries.len(),
                board@ == ranked(entries@.subrange(0, i as int)),
            decreases entries.len() - i,
        {
            proof {
                let seen = entries@.subrange(0, i as int);
                lemma_ranked_push(seen, entries@[i as int]);
                assert(seen.push(entries@[i as int]) =~= entries@.subrange(0, i + 1));
            }
            board = board.with_score(entries[i]);
            i = i + 1;
        }
        assert(entries@.subrange(0, i as int) =~= entries@);
        board
    }

    /// The leaderboard after `score` has been put in at its place: behind
    /// every record that ranks no later, so behind its ties. Whatever is then
    /// ranked sixth is dropped.
    pub fn with_score(self, score: ScoreRecord) -> (board: Leaderboard)
        ensures
            board@ == top(place(self@, score), CAPACITY as nat),
            board@ == ranked(self@.push(score)),
            board@.len() <= CAPACITY,
            in_ranking_order(board@),
    {
        proof {
            use_type_invariant(&self);
            lemma_place_keeps_order(self@, score);
            lemma_top_keeps_order(place(self@, score), CAPACITY as nat);
            lemma_stable_sort_fixes_ordered(self@);
            lemma_ranked_push(self@, score);
        }
        let mut entries = self.entries;
        let n: usize = entries.len();
        let mut i: usize = 0;
        while i < n && entries[i].ranks_no_later_than(&score)
            invariant
                i <= n,
                n == entries@.len(),
                forall|k: int| 0 <= k < i ==> ranks_no_later(#[trigger] entries@[k], score),
            decreases n - i,
        {
            i = i + 1;
        }
        proof {
            lemma_insertion_point_is_unique(entries@, score, i as int);
        }
        entries.insert(i, score);
        entries.truncate(CAPACITY);
        Leaderboard { entries }
    }

    /// The number of records on the leaderboard, five at most.
    pub fn len(&self) -> (n: usize)
        ensures
            n == self@.len(),
            n <= CAPACITY,
    {
        proof {
            use_type_invariant(self);
        }
        self.entries.len()
    }

    /// Whether the leaderboard holds no record.
    pub fn is_empty(&self) -> (b: bool)
        ensures
            b == (self@.len() == 0),
    {
        self.entries.len() == 0
    }

    /// The record of the given rank, counted from zero for the best.
    pub fn get(&self, rank: usize) -> (record: Option<ScoreRecord>)
        ensures
            record == (if rank < self@.len() {
                Some(self@[rank as int])
            } else {
                None
            }),
    {
        if rank < self.entries.len() {
            Some(self.entries[rank])
        } else {
            None
        }
    }

    /// The records in ranking order, best first.
    pub fn entries(&self) -> (entries: Vec<ScoreRecord>)
        ensures
            entries@ == self@,
            entries@.len() <= CAPACITY,
            in_ranking_order(entries@),
    {
        proof {
            use_type_invariant(self);
        }
        let mut out: Vec<ScoreRecord> = Vec::new();
        let mut i: usize = 0;
        while i < self.entries.len()
            invariant
                i <= self.entries@.len(),
                out@ == self.entries@.subrange(0, i as int),
            decreases self.entries@.len() - i,
        {
            out.push(self.entries[i]);
            assert(out@ =~= self.entries@.subrange(0, i + 1));
            i = i + 1;
        }
        assert(out@ =~= self.entries@);
        out
    }
}

} // verus!
