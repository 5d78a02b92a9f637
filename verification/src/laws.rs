//! What holds of every scheduler, whatever answers it has been given.

use vstd::prelude::*;

use crate::problem::{
    place_of, problem_at, Problem, ProblemStats, EASE_MASTERED, EASE_MAX, EASE_MIN,
};
use crate::spaced_rep::{table_open, EngineView};

verus! {

/// One answer as it is recorded: the problem, whether the answer was right,
/// how many milliseconds it took, and the time at which it was given.
pub struct Answer {
    pub problem: Problem,
    pub correct: bool,
    pub response_ms: u64,
    pub now: i64,
}

impl EngineView {
    /// The scheduler after `answers` were recorded one after the other.
    pub open spec fn after_answers(self, answers: Seq<Answer>) -> EngineView
        decreases answers.len(),
    {
        if answers.len() == 0 {
            self
        } else {
            let a = answers.last();
            self.after_answers(answers.drop_last()).after_answer(
                a.problem,
                a.correct,
                a.response_ms,
                a.now,
            )
        }
    }
}

/// A scheduler holds exactly 144 records, one for each ordered pair of
/// operands between 1 and 12 and none for any other problem, and `a × b`
/// and `b × a` have records of their own when `a` and `b` differ. This holds
/// of a scheduler as it is made, too.
pub proof fn lemma_one_record_per_problem(e: EngineView, now: i64)
    requires
        e.wf(),
    ensures
        EngineView::fresh(now).wf(),
        e.stats.len() == 144,
        forall|p: Problem|
            #![trigger e.stat(p)]
            p.in_range() ==> 0 <= place_of(p) < 144 && e.stat(p).problem == p,
        forall|i: int| 0 <= i < 144 ==> (#[trigger] e.stats[i]).problem.in_range(),
        forall|i: int, j: int|
            0 <= i < 144 && 0 <= j < 144 && i != j ==> (#[trigger] e.stats[i]).problem != (
            #[trigger] e.stats[j]).problem,
        forall|a: u8, b: u8|
            1 <= a <= 12 && 1 <= b <= 12 && a != b ==> #[trigger] place_of(Problem { a, b })
                != place_of(Problem { a: b, b: a }),
        forall|i: int| 0 <= i < 144 ==> place_of(#[trigger] problem_at(i)) == i,
        forall|p: Problem| p.in_range() ==> problem_at(#[trigger] place_of(p)) == p,
{
}

/// An answer leaves the ease of a record within its bounds.
pub proof fn lemma_ease_stays_in_bounds(s: ProblemStats, correct: bool, response_ms: u64, now: i64)
    requires
        s.wf(),
    ensures
        s.after_answer(correct, response_ms, now).wf(),
        EASE_MIN <= s.after_answer(correct, response_ms, now).ease_factor <= EASE_MAX,
{
}

/// A wrong answer ends the streak, so the problem is not mastered after it.
pub proof fn lemma_wrong_answer_ends_streak(s: ProblemStats, response_ms: u64, now: i64)
    ensures
        s.after_answer(false, response_ms, now).consecutive_correct == 0,
        !s.after_answer(false, response_ms, now).mastered(),
{
}

/// After three correct answers in a row the problem is mastered as soon as
/// its ease is at least 2.00; and it is, where the ease was at least 2.00
/// before the three answers, since a correct answer never lowers it.
pub proof fn lemma_three_correct_answers_master(
    s: ProblemStats,
    first: (u64, i64),
    second: (u64, i64),
    third: (u64, i64),
)
    ensures
        ({
            let after = s.after_answer(true, first.0, first.1).after_answer(
                true,
                second.0,
                second.1,
            ).after_answer(true, third.0, third.1);
            &&& after.consecutive_correct >= 3
            &&& after.ease_factor >= EASE_MASTERED ==> after.mastered()
            &&& s.ease_factor >= EASE_MASTERED ==> after.mastered()
        }),
{
}

/// One answer keeps the scheduler well formed, changes no record but that
/// of the problem answered, changes none at all where that problem is not
/// one of the 144, and opens at most one table.
pub proof fn lemma_answer_step(e: EngineView, p: Problem, correct: bool, response_ms: u64, now: i64)
    requires
        e.wf(),
    ensures
        e.after_answer(p, correct, response_ms, now).wf(),
        p.in_range() ==> e.after_answer(p, correct, response_ms, now).stat(p) == e.stat(
            p,
        ).after_answer(correct, response_ms, now),
        forall|q: Problem|
            q.in_range() && q != p ==> #[trigger] e.after_answer(p, correct, response_ms, now).stat(
                q,
            ) == e.stat(q),
        !p.in_range() ==> e.after_answer(p, correct, response_ms, now).stats == e.stats,
        e.unlocked_tables <= e.after_answer(p, correct, response_ms, now).unlocked_tables
            <= e.unlocked_tables + 1,
        e.after_answer(p, correct, response_ms, now).unlocked_tables <= 12,
{
}

/// Whatever answers are recorded, in whatever order, the scheduler stays
/// well formed: it keeps its 144 records, and the ease of every record
/// stays between 1.30 and 3.00.
pub proof fn lemma_answers_keep_ease_in_bounds(e: EngineView, answers: Seq<Answer>)
    requires
        e.wf(),
    ensures
        e.after_answers(answers).wf(),
        forall|i: int|
            0 <= i < 144 ==> EASE_MIN <= (#[trigger] e.after_answers(answers).stats[i]).ease_factor
                <= EASE_MAX,
    decreases answers.len(),
{
    if answers.len() > 0 {
        let a = answers.last();
        lemma_answers_keep_ease_in_bounds(e, answers.drop_last());
        lemma_answer_step(
            e.after_answers(answers.drop_last()),
            a.problem,
            a.correct,
            a.response_ms,
            a.now,
        );
    }
}

/// Whatever answers are recorded, the number of open tables never goes
/// down, goes up by at most one with each answer, and never goes above 12.
pub proof fn lemma_open_tables_only_grow(e: EngineView, answers: Seq<Answer>)
    requires
        e.wf(),
    ensures
        e.unlocked_tables <= e.after_answers(answers).unlocked_tables <= 12,
        e.after_answers(answers).unlocked_tables <= e.unlocked_tables + answers.len(),
        forall|t: u8|
            table_open(t, e.unlocked_tables) ==> table_open(
                t,
                e.after_answers(answers).unlocked_tables,
            ),
    decreases answers.len(),
{
    if answers.len() > 0 {
        lemma_open_tables_only_grow(e, answers.drop_last());
        lemma_answers_keep_ease_in_bounds(e, answers.drop_last());
    }
}

/// The weakest candidate among the first `n` problems, if one of them is a
/// candidate.
proof fn lemma_weakest_among_first(
    e: EngineView,
    last: Option<Problem>,
    due_at: Option<i64>,
    n: int,
) -> (best: Option<Problem>)
    requires
        e.wf(),
        0 <= n <= 144,
    ensures
        match best {
            Some(b) => {
                &&& e.candidate(b, last, due_at)
                &&& forall|j: int|
                    0 <= j < n && #[trigger] e.candidate(problem_at(j), last, due_at)
                        ==> !e.comes_before(problem_at(j), b)
            },
            None => forall|j: int| 0 <= j < n ==> !#[trigger] e.candidate(problem_at(j), last, due_at),
        },
    decreases n,
{
    if n == 0 {
        None
    } else {
        let before = lemma_weakest_among_first(e, last, due_at, n - 1);
        let p = problem_at(n - 1);
        if e.candidate(p, last, due_at) {
            match before {
                Some(b) => if e.comes_before(p, b) {
                    Some(p)
                } else {
                    Some(b)
                },
                None => Some(p),
            }
        } else {
            before
        }
    }
}

/// A problem is chosen exactly when there is a candidate, and the problem
/// chosen is the candidate that no other candidate comes before.
pub proof fn lemma_weakest_exists(e: EngineView, last: Option<Problem>, due_at: Option<i64>)
    requires
        e.wf(),
    ensures
        e.weakest(last, due_at) is None <==> forall|q: Problem| !e.candidate(q, last, due_at),
        e.weakest(last, due_at) matches Some(p) ==> e.is_weakest(p, last, due_at),
{
    let best = lemma_weakest_among_first(e, last, due_at, 144);
    assert forall|q: Problem| #[trigger] e.candidate(q, last, due_at) implies match best {
        Some(b) => !e.comes_before(q, b),
        None => false,
    } by {
        assert(e.candidate(problem_at(place_of(q)), last, due_at));
    }
    e.lemma_weakest_is(best, last, due_at);
}

/// On a scheduler as it is made, only the first table is open, so `1 × 1`
/// is the one problem that can be practised; it is due from then on, it is
/// the problem to review next, and nothing is mastered.
pub proof fn lemma_fresh_scheduler(created: i64, now: i64)
    requires
        created <= now,
    ensures
        forall|p: Problem|
            #[trigger] EngineView::fresh(created).is_unlocked(p) <==> p == (Problem { a: 1, b: 1 }),
        EngineView::fresh(created).unlocked_count() == 1,
        EngineView::fresh(created).due_count(now) == 1,
        EngineView::fresh(created).mastered_count() == 0,
        EngineView::fresh(created).next_due(None, now) == Some(Problem { a: 1, b: 1 }),
{
    let e = EngineView::fresh(created);
    let one = Problem { a: 1, b: 1 };
    assert(forall|p: Problem| #[trigger] e.is_unlocked(p) <==> p == one);
    lemma_count_one(e.stats, e.unlocked_pred(), 144);
    lemma_count_one(e.stats, e.due_pred(now), 144);
    lemma_count_none(e.stats, e.mastered_pred(), 144);
    assert(e.stats.take(144) =~= e.stats);
    e.lemma_weakest_is(Some(one), None, Some(now));
}

/// Where only the first entry of `s` meets `pred`, one entry of each
/// beginning of `s` does.
proof fn lemma_count_one<A>(s: Seq<A>, pred: spec_fn(A) -> bool, n: int)
    requires
        1 <= n <= s.len(),
        pred(s[0]),
        forall|i: int| 1 <= i < s.len() ==> !pred(#[trigger] s[i]),
    ensures
        s.take(n).filter(pred).len() == 1,
    decreases n,
{
    reveal(Seq::filter);
    assert(s.take(n).drop_last() =~= s.take(n - 1));
    if n > 1 {
        lemma_count_one(s, pred, n - 1);
    }
}

/// Where no entry of `s` meets `pred`, none of any beginning of `s` does.
proof fn lemma_count_none<A>(s: Seq<A>, pred: spec_fn(A) -> bool, n: int)
    requires
        0 <= n <= s.len(),
        forall|i: int| 0 <= i < s.len() ==> !pred(#[trigger] s[i]),
    ensures
        s.take(n).filter(pred).len() == 0,
    decreases n,
{
    reveal(Seq::filter);
    if n > 0 {
        assert(s.take(n).drop_last() =~= s.take(n - 1));
        lemma_count_none(s, pred, n - 1);
    }
}

/// The problem to review next after `f` is never `f` itself; and there is
/// one whenever some problem other than `f` can be practised and is due.
pub proof fn lemma_next_due_never_repeats(e: EngineView, f: Problem, now: i64)
    requires
        e.wf(),
    ensures
        e.next_due(Some(f), now) != Some(f),
        forall|q: Problem|
            q != f && q.in_range() && #[trigger] e.is_unlocked(q) && e.stat(q).due_at(now)
                ==> e.next_due(Some(f), now) is Some,
{
    lemma_weakest_exists(e, Some(f), Some(now));
    assert forall|q: Problem|
        q != f && q.in_range() && #[trigger] e.is_unlocked(q) && e.stat(q).due_at(
            now,
        ) implies e.next_due(Some(f), now) is Some by {
        assert(e.candidate(q, Some(f), Some(now)));
    }
}

/// There is always a problem to show: extra practice with nothing left out
/// always finds one, so the last resort `1 × 1` is never needed, and the
/// problem shown is one that can be practised. The problem shown is `last`
/// again only where `last` is the one problem that can be practised.
pub proof fn lemma_fallback_always_yields(e: EngineView, last: Option<Problem>, now: i64)
    requires
        e.wf(),
    ensures
        e.extra_practice(None) is Some,
        e.pick(last, now).in_range(),
        e.is_unlocked(e.pick(last, now)),
        Some(e.pick(last, now)) == last ==> forall|q: Problem|
            q.in_range() && #[trigger] e.is_unlocked(q) ==> Some(q) == last,
{
    let one = Problem { a: 1, b: 1 };
    assert(e.candidate(one, None, None));
    lemma_weakest_exists(e, last, None);
    lemma_weakest_exists(e, None, None);
    if Some(e.pick(last, now)) == last {
        assert forall|q: Problem| q.in_range() && #[trigger] e.is_unlocked(q) implies Some(q)
            == last by {
            if Some(q) != last {
                assert(e.candidate(q, last, None));
            }
        }
    }
}

/// Taking the state out of a scheduler and making a scheduler from it again
/// gives the same scheduler: the same records, the same open tables, and so
/// the same counts.
pub proof fn lemma_restore_round_trip(e: EngineView, now: i64)
    requires
        e.wf(),
    ensures
        EngineView::storable(e.stats, e.unlocked_tables),
        EngineView::restored(e.stats, e.unlocked_tables) == Some(e),
        ({
            let back = EngineView::restored(e.stats, e.unlocked_tables).unwrap();
            &&& back.unlocked_count() == e.unlocked_count()
            &&& back.mastered_count() == e.mastered_count()
            &&& back.due_count(now) == e.due_count(now)
            &&& back.total_correct() == e.total_correct()
            &&& back.total_wrong() == e.total_wrong()
        }),
{
    assert(EngineView::storable(e.stats, e.unlocked_tables));
    let back = EngineView::restored(e.stats, e.unlocked_tables).unwrap();
    assert(back.stats =~= e.stats);
}

/// The counts depend on the records, the open tables and the time alone:
/// asked again of the same scheduler at the same time, each gives the same
/// number.
pub proof fn lemma_counts_repeat(first: EngineView, second: EngineView, now: i64)
    requires
        first == second,
    ensures
        first.unlocked_count() == second.unlocked_count(),
        first.mastered_count() == second.mastered_count(),
        first.due_count(now) == second.due_count(now),
{
}

} // verus!
