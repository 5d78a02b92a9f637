//! The scheduler: one record for each of the 144 problems, the choice of the
//! problem to practise next, and the rule that opens the tables one by one.

use vstd::prelude::*;

use crate::clock::unix_now;
use crate::decimal::{append_decimal, decimal};
use crate::problem::{
    generate_all_problems, place_of, problem_at, Problem, ProblemStats, EASE_MAX,
    EASE_MIN, MAX_OPERAND, PROBLEM_COUNT, TABLE_ORDER,
};

verus! {

/// Whether table `t` is among the first `unlocked` tables of the order.
pub open spec fn table_open(t: u8, unlocked: nat) -> bool {
    exists|i: int| 0 <= i < unlocked && i < 12 && #[trigger] TABLE_ORDER[i] == t
}

/// What a scheduler holds: the records of the 144 problems, listed by `a`
/// and then by `b`, and the number of tables that are open.
#[verifier::ext_equal]
pub struct EngineView {
    pub stats: Seq<ProblemStats>,
    pub unlocked_tables: nat,
}

impl EngineView {
    /// There is one record for each problem, each at the place of its
    /// problem and with its ease within bounds, and between 1 and 12 tables
    /// are open.
    pub open spec fn wf(self) -> bool {
        &&& self.stats.len() == 144
        &&& forall|i: int|
            0 <= i < 144 ==> (#[trigger] self.stats[i]).problem == problem_at(i) && self.stats[i].wf()
        &&& 1 <= self.unlocked_tables <= 12
    }

    /// The scheduler as it is made at `now`: nothing answered, every problem
    /// due, the first table open.
    pub open spec fn fresh(now: i64) -> EngineView {
        EngineView {
            stats: Seq::new(144, |i: int| ProblemStats::fresh(problem_at(i), now)),
            unlocked_tables: 1,
        }
    }

    /// The record of problem `p`.
    pub open spec fn stat(self, p: Problem) -> ProblemStats {
        self.stats[place_of(p)]
    }

    /// A problem can be practised when the tables of both its operands are
    /// open.
    pub open spec fn is_unlocked(self, p: Problem) -> bool {
        table_open(p.a, self.unlocked_tables) && table_open(p.b, self.unlocked_tables)
    }

    /// What the count of problems that can be practised looks for in a
    /// record.
    pub open spec fn unlocked_pred(self) -> spec_fn(ProblemStats) -> bool {
        |s: ProblemStats| self.is_unlocked(s.problem)
    }

    /// What the count of mastered problems looks for in a record.
    pub open spec fn mastered_pred(self) -> spec_fn(ProblemStats) -> bool {
        |s: ProblemStats| self.is_unlocked(s.problem) && s.mastered()
    }

    /// What the count of due problems looks for in a record.
    pub open spec fn due_pred(self, now: i64) -> spec_fn(ProblemStats) -> bool {
        |s: ProblemStats| self.is_unlocked(s.problem) && s.due_at(now)
    }

    /// Number of problems that can be practised.
    pub open spec fn unlocked_count(self) -> nat {
        self.stats.filter(self.unlocked_pred()).len()
    }

    /// Number of problems that can be practised and are mastered.
    pub open spec fn mastered_count(self) -> nat {
        self.stats.filter(self.mastered_pred()).len()
    }

    /// Number of problems that can be practised and are due at `now`.
    pub open spec fn due_count(self, now: i64) -> nat {
        self.stats.filter(self.due_pred(now)).len()
    }

    /// Correct answers over all problems, open or not.
    pub open spec fn total_correct(self) -> int {
        self.stats.fold_left(0int, |sum: int, s: ProblemStats| sum + s.times_correct)
    }

    /// Wrong answers over all problems, open or not.
    pub open spec fn total_wrong(self) -> int {
        self.stats.fold_left(0int, |sum: int, s: ProblemStats| sum + s.times_wrong)
    }

    /// Whether the next table opens: not all tables are open yet, and at
    /// least three quarters of the problems that can be practised are
    /// mastered.
    pub open spec fn opens_next(self) -> bool {
        &&& self.unlocked_tables < 12
        &&& self.unlocked_count() > 0
        &&& self.mastered_count() * 4 >= self.unlocked_count() * 3
    }

    /// The scheduler after the unlock rule was applied: one more table is
    /// open if `opens_next` holds, and nothing else changes.
    pub open spec fn after_unlock_check(self) -> EngineView {
        if self.opens_next() {
            EngineView { stats: self.stats, unlocked_tables: self.unlocked_tables + 1 }
        } else {
            self
        }
    }

    /// The scheduler after an answer to `p` given at `now`: the record of
    /// `p` takes the answer if `p` is one of the 144 problems, and then the
    /// unlock rule is applied, whether or not `p` is one of them.
    pub open spec fn after_answer(
        self,
        p: Problem,
        correct: bool,
        response_ms: u64,
        now: i64,
    ) -> EngineView {
        EngineView {
            stats: if p.in_range() {
                self.stats.update(place_of(p), self.stat(p).after_answer(correct, response_ms, now))
            } else {
                self.stats
            },
            unlocked_tables: self.unlocked_tables,
        }.after_unlock_check()
    }

    /// Whether `p` may be chosen: it is one of the 144 problems, it can be
    /// practised, it is not `last`, and, where `due_at` names a time, it is
    /// due at that time.
    pub open spec fn candidate(self, p: Problem, last: Option<Problem>, due_at: Option<i64>) -> bool {
        &&& p.in_range()
        &&& self.is_unlocked(p)
        &&& last != Some(p)
        &&& due_at matches Some(now) ==> self.stat(p).due_at(now)
    }

    /// Whether `p` comes before `q` in the order of choice: by ease, the
    /// lower first, then by `a`, then by `b`.
    pub open spec fn comes_before(self, p: Problem, q: Problem) -> bool {
        let (ep, eq) = (self.stat(p).ease_factor, self.stat(q).ease_factor);
        ep < eq || (ep == eq && (p.a < q.a || (p.a == q.a && p.b < q.b)))
    }

    /// Whether `p` is the candidate that no other candidate comes before.
    pub open spec fn is_weakest(self, p: Problem, last: Option<Problem>, due_at: Option<i64>) -> bool {
        &&& self.candidate(p, last, due_at)
        &&& forall|q: Problem| #[trigger] self.candidate(q, last, due_at) ==> !self.comes_before(q, p)
    }

    /// The candidate that no other candidate comes before, if there is a
    /// candidate at all.
    pub open spec fn weakest(self, last: Option<Problem>, due_at: Option<i64>) -> Option<Problem> {
        if exists|p: Problem| self.is_weakest(p, last, due_at) {
            Some(choose|p: Problem| self.is_weakest(p, last, due_at))
        } else {
            None
        }
    }

    /// The problem to review next at `now`: the weakest of those that can
    /// be practised, are due and are not `last`.
    pub open spec fn next_due(self, last: Option<Problem>, now: i64) -> Option<Problem> {
        self.weakest(last, Some(now))
    }

    /// The problem for extra practice: the weakest of those that can be
    /// practised and are not `last`, due or not.
    pub open spec fn extra_practice(self, last: Option<Problem>) -> Option<Problem> {
        self.weakest(last, None)
    }

    /// The problem to show next at `now`, after `last` was shown: the
    /// problem to review next if there is one, else the one for extra
    /// practice; if `last` is all there is, the same two tried again with
    /// nothing left out; and `1 × 1` if even that gives nothing.
    pub open spec fn pick(self, last: Option<Problem>, now: i64) -> Problem {
        if let Some(p) = self.next_due(last, now) {
            p
        } else if let Some(p) = self.extra_practice(last) {
            p
        } else if let Some(p) = self.next_due(None, now) {
            p
        } else if let Some(p) = self.extra_practice(None) {
            p
        } else {
            Problem { a: 1, b: 1 }
        }
    }

    /// The tables that are open, in the order in which they opened.
    pub open spec fn open_tables(self) -> Seq<u8> {
        TABLE_ORDER@.take(self.unlocked_tables as int)
    }

    /// The table that opens next, if one is still closed.
    pub open spec fn next_table(self) -> Option<u8> {
        if self.unlocked_tables < 12 {
            Some(TABLE_ORDER[self.unlocked_tables as int])
        } else {
            None
        }
    }

    /// Whether `records` and `unlocked_tables` can be the state of a
    /// scheduler: 144 records of 144 different problems, each with its ease
    /// within bounds, and between 1 and 12 open tables.
    pub open spec fn storable(records: Seq<ProblemStats>, unlocked_tables: nat) -> bool {
        &&& records.len() == 144
        &&& 1 <= unlocked_tables <= 12
        &&& forall|i: int|
            0 <= i < 144 ==> (#[trigger] records[i]).problem.in_range() && records[i].wf()
        &&& forall|i: int, j: int|
            0 <= i < j < 144 ==> (#[trigger] records[i]).problem != (#[trigger] records[j]).problem
    }

    /// The scheduler whose state is `records`, in whatever order they come,
    /// and `unlocked_tables`; `None` where they are not the state of a
    /// scheduler.
    pub open spec fn restored(records: Seq<ProblemStats>, unlocked_tables: nat) -> Option<EngineView> {
        if Self::storable(records, unlocked_tables) {
            Some(
                EngineView {
                    stats: Seq::new(144, |k: int| records[record_of(records, problem_at(k))]),
                    unlocked_tables,
                },
            )
        } else {
            None
        }
    }

    /// At most one problem is the weakest candidate, so `weakest` names it;
    /// and where no problem is a candidate, `weakest` is `None`.
    pub proof fn lemma_weakest_is(self, chosen: Option<Problem>, last: Option<Problem>, due_at: Option<i64>)
        requires
            match chosen {
                Some(p) => self.is_weakest(p, last, due_at),
                None => forall|q: Problem| !self.candidate(q, last, due_at),
            },
        ensures
            self.weakest(last, due_at) == chosen,
    {
        if let Some(p) = chosen {
            let c = choose|c: Problem| self.is_weakest(c, last, due_at);
            assert(!self.comes_before(c, p) && !self.comes_before(p, c));
        }
    }
}

/// The problem that `last` refers to, if it refers to one.
pub open spec fn shown(last: Option<&Problem>) -> Option<Problem> {
    match last {
        Some(p) => Some(*p),
        None => None,
    }
}

/// The place in `records` of the record of problem `p`.
pub open spec fn record_of(records: Seq<ProblemStats>, p: Problem) -> int {
    choose|i: int| 0 <= i < records.len() && (#[trigger] records[i]).problem == p
}

/// The numbers of `tables` in decimal, with a comma and a space between
/// each two.
pub open spec fn comma_list(tables: Seq<u8>) -> Seq<char>
    decreases tables.len(),
{
    if tables.len() == 0 {
        Seq::empty()
    } else if tables.len() == 1 {
        decimal(tables[0] as nat)
    } else {
        comma_list(tables.drop_last()) + seq![',', ' '] + decimal(tables.last() as nat)
    }
}

/// The scheduler.
#[derive(Debug)]
pub struct SpacedRepetition {
    stats: Vec<ProblemStats>,
    unlocked_tables: usize,
}

impl View for SpacedRepetition {
    type V = EngineView;

    closed spec fn view(&self) -> EngineView {
        EngineView { stats: self.stats@, unlocked_tables: self.unlocked_tables as nat }
    }
}

/// Number of open tables of a stored state that does not say how many are
/// open.
pub fn default_unlocked() -> (n: usize)
    ensures
        n == 1,
{
    1
}

/// The place of the record of `problem`, or `None` where the problem is not
/// one of the 144.
fn place(problem: &Problem) -> (place: Option<usize>)
    ensures
        place == if problem.in_range() {
            Some(place_of(*problem) as usize)
        } else {
            None
        },
        problem.in_range() ==> 0 <= place_of(*problem) < 144,
{
    if 1 <= problem.a && problem.a <= MAX_OPERAND && 1 <= problem.b && problem.b <= MAX_OPERAND {
        Some((problem.a as usize - 1) * 12 + (problem.b as usize - 1))
    } else {
        None
    }
}

/// Whether table `t` is among the first `unlocked` tables of the order.
fn is_table_open(t: u8, unlocked: usize) -> (open: bool)
    ensures
        open == table_open(t, unlocked as nat),
{
    let mut i: usize = 0;
    while i < unlocked && i < 12
        invariant
            i <= 12,
            forall|j: int| 0 <= j < i ==> TABLE_ORDER[j] != t,
        decreases 12 - i,
    {
        if TABLE_ORDER[i] == t {
            return true;
        }
        i += 1;
    }
    false
}

impl SpacedRepetition {
    /// The scheduler holds what `EngineView::wf` asks for. Every scheduler
    /// that the functions of this module hand out is well formed, and the
    /// fields are private, so no other scheduler can be made.
    pub open spec fn wf(&self) -> bool {
        self@.wf()
    }

    /// A scheduler with nothing answered, every problem due from the
    /// current time on, and the first table open.
    pub fn new() -> (sr: Self)
        ensures
            sr.wf(),
            exists|now: i64| sr@ == EngineView::fresh(now),
    {
        Self::new_at(unix_now())
    }

    /// A scheduler with nothing answered, every problem due from `now` on,
    /// and the first table open.
    pub fn new_at(now: i64) -> (sr: Self)
        ensures
            sr.wf(),
            sr@ == EngineView::fresh(now),
    {
        let problems = generate_all_problems();
        let mut stats: Vec<ProblemStats> = Vec::new();
        let mut i: usize = 0;
        while i < PROBLEM_COUNT
            invariant
                i <= 144,
                problems@.len() == 144,
                forall|j: int| 0 <= j < 144 ==> problems@[j] == problem_at(j),
                stats@.len() == i,
                forall|j: int| 0 <= j < i ==> stats@[j] == ProblemStats::fresh(problem_at(j), now),
            decreases 144 - i,
        {
            stats.push(ProblemStats::new_at(problems[i], now));
            i += 1;
        }
        let sr = Self { stats, unlocked_tables: 1 };
        sr
    }

    /// Whether `problem` can be practised: the tables of both its operands
    /// are open.
    pub fn is_problem_unlocked(&self, problem: &Problem) -> (open: bool)
        ensures
            open == self@.is_unlocked(*problem),
    {
        let (a, b) = problem.tables_required();
        is_table_open(a, self.unlocked_tables) && is_table_open(b, self.unlocked_tables)
    }

    /// Number of problems that can be practised.
    pub fn unlocked_problems(&self) -> (n: usize)
        requires
            self.wf(),
        ensures
            n == self@.unlocked_count(),
    {
        let mut n: usize = 0;
        let mut i: usize = 0;
        while i < PROBLEM_COUNT
            invariant
                self.wf(),
                i <= 144,
                n <= i,
                n == self@.stats.take(i as int).filter(self@.unlocked_pred()).len(),
            decreases 144 - i,
        {
            proof {
                lemma_count_step(self@.stats, self@.unlocked_pred(), i as int);
            }
            if self.is_problem_unlocked(&self.stats[i].problem) {
                n += 1;
            }
            i += 1;
        }
        assert(self@.stats.take(144) =~= self@.stats);
        n
    }

    /// Number of problems that can be practised and are mastered.
    pub fn mastered_count(&self) -> (n: usize)
        requires
            self.wf(),
        ensures
            n == self@.mastered_count(),
    {
        let mut n: usize = 0;
        let mut i: usize = 0;
        while i < PROBLEM_COUNT
            invariant
                self.wf(),
                i <= 144,
                n <= i,
                n == self@.stats.take(i as int).filter(self@.mastered_pred()).len(),
            decreases 144 - i,
        {
            proof {
                lemma_count_step(self@.stats, self@.mastered_pred(), i as int);
            }
            if self.is_problem_unlocked(&self.stats[i].problem) && self.stats[i].is_mastered() {
                n += 1;
            }
            i += 1;
        }
        assert(self@.stats.take(144) =~= self@.stats);
        n
    }

    /// Number of problems that can be practised and are due at the current
    /// time.
    pub fn due_count(&self) -> (n: usize)
        requires
            self.wf(),
        ensures
            exists|now: i64| n == self@.due_count(now),
    {
        self.due_count_at(unix_now())
    }

    /// Number of problems that can be practised and are due at `now`.
    pub fn due_count_at(&self, now: i64) -> (n: usize)
        requires
            self.wf(),
        ensures
            n == self@.due_count(now),
    {
        let mut n: usize = 0;
        let mut i: usize = 0;
        while i < PROBLEM_COUNT
            invariant
                self.wf(),
                i <= 144,
                n <= i,
                n == self@.stats.take(i as int).filter(self@.due_pred(now)).len(),
            decreases 144 - i,
        {
            proof {
                lemma_count_step(self@.stats, self@.due_pred(now), i as int);
            }
            if self.is_problem_unlocked(&self.stats[i].problem) && self.stats[i].is_due_at(now) {
                n += 1;
            }
            i += 1;
        }
        assert(self@.stats.take(144) =~= self@.stats);
        n
    }

    /// Correct answers over all problems, open or not.
    pub fn total_correct(&self) -> (total: u64)
        requires
            self.wf(),
        ensures
            total == self@.total_correct(),
    {
        let mut total: u64 = 0;
        let mut i: usize = 0;
        while i < PROBLEM_COUNT
            invariant
                self.wf(),
                i <= 144,
                total <= i * u32::MAX,
                total == self@.stats.take(i as int).fold_left(
                    0int,
                    |sum: int, s: ProblemStats| sum + s.times_correct,
                ),
            decreases 144 - i,
        {
            assert(self@.stats.take(i + 1).drop_last() =~= self@.stats.take(i as int));
            total += self.stats[i].times_correct as u64;
            i += 1;
        }
        total
    }

    /// Wrong answers over all problems, open or not.
    pub fn total_wrong(&self) -> (total: u64)
        requires
            self.wf(),
        ensures
            total == self@.total_wrong(),
    {
        let mut total: u64 = 0;
        let mut i: usize = 0;
        while i < PROBLEM_COUNT
            invariant
                self.wf(),
                i <= 144,
                total <= i * u32::MAX,
                total == self@.stats.take(i as int).fold_left(
                    0int,
                    |sum: int, s: ProblemStats| sum + s.times_wrong,
                ),
            decreases 144 - i,
        {
            assert(self@.stats.take(i + 1).drop_last() =~= self@.stats.take(i as int));
            total += self.stats[i].times_wrong as u64;
            i += 1;
        }
        total
    }

    /// The weakest candidate: the scan keeps the first record of least ease,
    /// and the records stand in the order of `a`, then `b`.
    fn select(&self, last: Option<&Problem>, due_at: Option<i64>) -> (chosen: Option<Problem>)
        requires
            self.wf(),
        ensures
            chosen == self@.weakest(shown(last), due_at),
            match chosen {
                Some(p) => self@.is_weakest(p, shown(last), due_at),
                None => forall|q: Problem| !self@.candidate(q, shown(last), due_at),
            },
    {
        let ghost last_shown = shown(last);
        let mut best: Option<ProblemStats> = None;
        let mut i: usize = 0;
        while i < PROBLEM_COUNT
            invariant
                self.wf(),
                i <= 144,
                last_shown == shown(last),
                match best {
                    Some(b) => {
                        &&& 0 <= place_of(b.problem) < i
                        &&& b == self@.stat(b.problem)
                        &&& self@.candidate(b.problem, last_shown, due_at)
                        &&& forall|j: int|
                            0 <= j < i && #[trigger] self@.candidate(problem_at(j), last_shown, due_at)
                                ==> !self@.comes_before(problem_at(j), b.problem)
                    },
                    None => forall|j: int|
                        0 <= j < i ==> !#[trigger] self@.candidate(problem_at(j), last_shown, due_at),
                },
            decreases 144 - i,
        {
            let stats = self.stats[i];
            let problem = stats.problem;
            let repeats = match last {
                Some(l) => *l == problem,
                None => false,
            };
            let due = match due_at {
                Some(now) => stats.is_due_at(now),
                None => true,
            };
            if !repeats && due && self.is_problem_unlocked(&problem) {
                let better = match best {
                    Some(b) => stats.ease_factor < b.ease_factor,
                    None => true,
                };
                if better {
                    best = Some(stats);
                }
            }
            i += 1;
        }
        let chosen = match best {
            Some(b) => Some(b.problem),
            None => None,
        };
        proof {
            assert forall|q: Problem| #[trigger] self@.candidate(q, last_shown, due_at) implies match best {
                Some(b) => !self@.comes_before(q, b.problem),
                None => false,
            } by {
                assert(self@.candidate(problem_at(place_of(q)), last_shown, due_at));
            }
            self@.lemma_weakest_is(chosen, last_shown, due_at);
        }
        chosen
    }

    /// The problem to review next at the current time: the weakest of those
    /// that can be practised, are due and are not `last`, or `None` where
    /// there is none.
    pub fn get_next_problem(&self, last: Option<&Problem>) -> (chosen: Option<Problem>)
        requires
            self.wf(),
        ensures
            exists|now: i64| chosen == self@.next_due(shown(last), now),
            chosen != shown(last) || chosen is None,
    {
        self.get_next_problem_at(last, unix_now())
    }

    /// The problem to review next at `now`: among the problems that can be
    /// practised, are due at `now` and are not `last`, the one of least
    /// ease, and among those of least ease the first by `a`, then by `b`;
    /// `None` where there is no such problem.
    pub fn get_next_problem_at(&self, last: Option<&Problem>, now: i64) -> (chosen: Option<Problem>)
        requires
            self.wf(),
        ensures
            chosen == self@.next_due(shown(last), now),
            match chosen {
                Some(p) => self@.is_weakest(p, shown(last), Some(now)),
                None => forall|q: Problem| !self@.candidate(q, shown(last), Some(now)),
            },
    {
        self.select(last, Some(now))
    }

    /// The problem for extra practice: among the problems that can be
    /// practised and are not `last`, due or not, the one of least ease, and
    /// among those of least ease the first by `a`, then by `b`; `None` where
    /// there is no such problem.
    pub fn get_extra_practice_problem(&self, last: Option<&Problem>) -> (chosen: Option<Problem>)
        requires
            self.wf(),
        ensures
            chosen == self@.extra_practice(shown(last)),
            match chosen {
                Some(p) => self@.is_weakest(p, shown(last), None),
                None => forall|q: Problem| !self@.candidate(q, shown(last), None),
            },
    {
        self.select(last, None)
    }

    /// The open tables in the order in which they opened, as `1, 10, 5`.
    pub fn unlocked_tables_display(&self) -> (text: String)
        requires
            self.wf(),
        ensures
            text@ == comma_list(self@.open_tables()),
    {
        let mut text = String::new();
        let mut i: usize = 0;
        while i < self.unlocked_tables
            invariant
                self.wf(),
                i <= self.unlocked_tables,
                text@ == comma_list(TABLE_ORDER@.take(i as int)),
            decreases self.unlocked_tables - i,
        {
            if i > 0 {
                text.append(", ");
            }
            append_decimal(&mut text, TABLE_ORDER[i]);
            proof {
                reveal_strlit(", ");
                assert(TABLE_ORDER@.take(i + 1).drop_last() =~= TABLE_ORDER@.take(i as int));
            }
            i += 1;
        }
        text
    }

    /// The table that opens next, or `None` when all twelve are open.
    pub fn next_table_to_unlock(&self) -> (table: Option<u8>)
        requires
            self.wf(),
        ensures
            table == self@.next_table(),
    {
        if self.unlocked_tables < TABLE_ORDER.len() {
            Some(TABLE_ORDER[self.unlocked_tables])
        } else {
            None
        }
    }

    /// Number of tables that are open.
    pub fn unlocked_tables(&self) -> (n: usize)
        ensures
            n == self@.unlocked_tables,
    {
        self.unlocked_tables
    }

    /// The record of `problem`, or `None` where it is not one of the 144
    /// problems.
    pub fn stats_for(&self, problem: &Problem) -> (stats: Option<ProblemStats>)
        requires
            self.wf(),
        ensures
            stats == if problem.in_range() {
                Some(self@.stat(*problem))
            } else {
                None
            },
    {
        match place(problem) {
            Some(place) => Some(self.stats[place]),
            None => None,
        }
    }

    /// All records, listed by `a` and then by `b`. Together with the number
    /// of open tables they are the whole state, from which `restore` makes
    /// the scheduler again.
    pub fn records(&self) -> (records: Vec<ProblemStats>)
        ensures
            records@ == self@.stats,
    {
        let mut records: Vec<ProblemStats> = Vec::new();
        let mut i: usize = 0;
        while i < self.stats.len()
            invariant
                i <= self.stats@.len(),
                records@ == self.stats@.take(i as int),
            decreases self.stats@.len() - i,
        {
            records.push(self.stats[i]);
            i += 1;
        }
        records
    }

    /// The scheduler whose state is `records` and `unlocked_tables`.
    ///
    /// The records may come in any order. The result is `None` unless there
    /// are 144 of them, of 144 different problems with operands between 1
    /// and 12, each with its ease within bounds, and between 1 and 12 tables
    /// are open.
    pub fn restore(records: Vec<ProblemStats>, unlocked_tables: usize) -> (restored: Option<Self>)
        ensures
            restored is Some <==> EngineView::storable(records@, unlocked_tables as nat),
            restored matches Some(sr) ==> {
                &&& sr.wf()
                &&& sr@.unlocked_tables == unlocked_tables
                &&& forall|i: int|
                    0 <= i < 144 ==> sr@.stat((#[trigger] records@[i]).problem) == records@[i]
            },
            (match restored {
                Some(sr) => Some(sr@),
                None => None,
            }) == EngineView::restored(records@, unlocked_tables as nat),
    {
        if records.len() != PROBLEM_COUNT || unlocked_tables < 1 || unlocked_tables > TABLE_ORDER.len() {
            return None;
        }
        let mut stats = Self::new_at(0).stats;
        let mut seen: Vec<bool> = vec![false; 144];
        let ghost mut source: Seq<int> = Seq::new(144, |k: int| 0int);
        let ghost mut filled: Set<int> = Set::empty();
        let mut i: usize = 0;
        while i < PROBLEM_COUNT
            invariant
                i <= 144,
                records@.len() == 144,
                stats@.len() == 144,
                seen@.len() == 144,
                source.len() == 144,
                forall|j: int|
                    0 <= j < i ==> (#[trigger] records@[j]).problem.in_range() && records@[j].wf(),
                forall|j: int, l: int|
                    0 <= j < l < i ==> (#[trigger] records@[j]).problem != (
                    #[trigger] records@[l]).problem,
                forall|k: int|
                    0 <= k < 144 ==> (#[trigger] stats@[k]).problem == problem_at(k) && stats@[k].wf(),
                forall|k: int|
                    0 <= k < 144 && #[trigger] seen@[k] ==> 0 <= source[k] < i && records@[source[k]].problem
                        == problem_at(k) && stats@[k] == records@[source[k]],
                forall|j: int| 0 <= j < i ==> seen@[place_of((#[trigger] records@[j]).problem)],
                forall|k: int| filled.contains(k) <==> 0 <= k < 144 && seen@[k],
                filled.finite(),
                filled.len() == i,
            decreases 144 - i,
        {
            let record = records[i];
            if record.ease_factor < EASE_MIN || record.ease_factor > EASE_MAX {
                return None;
            }
            let place = match place(&record.problem) {
                Some(place) => place,
                None => {
                    return None;
                },
            };
            if seen[place] {
                return None;
            }
            seen.set(place, true);
            stats.set(place, record);
            proof {
                source = source.update(place as int, i as int);
                filled = filled.insert(place as int);
            }
            i += 1;
        }
        proof {
            vstd::set_lib::lemma_int_range(0, 144);
            vstd::set_lib::lemma_subset_equality(filled, vstd::set_lib::set_int_range(0, 144));
            assert forall|k: int| 0 <= k < 144 implies seen@[k] by {
                assert(vstd::set_lib::set_int_range(0, 144).contains(k));
            }
            assert forall|k: int| 0 <= k < 144 implies stats@[k] == records@[record_of(
                records@,
                problem_at(k),
            )] by {
                assert(seen@[k]);
            }
        }
        Some(Self { stats, unlocked_tables })
    }

    /// Opens the next table if at least three quarters of the problems that
    /// can be practised are mastered.
    fn check_unlock_next_table(&mut self)
        requires
            old(self).wf(),
        ensures
            final(self).wf(),
            final(self)@ == old(self)@.after_unlock_check(),
    {
        if self.unlocked_tables >= TABLE_ORDER.len() {
            return;
        }
        let total = self.unlocked_problems();
        if total == 0 {
            return;
        }
        let mastered = self.mastered_count();
        if mastered * 4 >= total * 3 {
            self.unlocked_tables += 1;
        }
    }

    /// Records an answer to `problem` given at the current time, then
    /// applies the unlock rule.
    pub fn record_answer(&mut self, problem: &Problem, correct: bool, response_ms: u64)
        requires
            old(self).wf(),
        ensures
            final(self).wf(),
            exists|now: i64| final(self)@ == old(self)@.after_answer(*problem, correct, response_ms, now),
    {
        self.record_answer_at(problem, correct, response_ms, unix_now());
    }

    /// Records an answer to `problem` given at `now` that took
    /// `response_ms` milliseconds, then applies the unlock rule. A problem
    /// that is not one of the 144 leaves the records as they are; the unlock
    /// rule is applied all the same.
    pub fn record_answer_at(&mut self, problem: &Problem, correct: bool, response_ms: u64, now: i64)
        requires
            old(self).wf(),
        ensures
            final(self).wf(),
            final(self)@ == old(self)@.after_answer(*problem, correct, response_ms, now),
    {
        if let Some(place) = place(problem) {
            let mut stats = self.stats[place];
            stats.record_answer_at(correct, response_ms, now);
            self.stats.set(place, stats);
        }
        self.check_unlock_next_table();
    }
}

impl Clone for SpacedRepetition {
    fn clone(&self) -> (copy: Self)
        ensures
            copy@ == self@,
    {
        Self { stats: self.records(), unlocked_tables: self.unlocked_tables }
    }
}

impl Default for SpacedRepetition {
    fn default() -> (sr: Self)
        ensures
            sr.wf(),
            exists|now: i64| sr@ == EngineView::fresh(now),
    {
        Self::new()
    }
}

/// The problem to show next at the current time, after `last` was shown.
pub fn pick_problem(sr: &SpacedRepetition, last: Option<&Problem>) -> (p: Problem)
    requires
        sr.wf(),
    ensures
        exists|now: i64| p == sr@.pick(shown(last), now),
{
    pick_problem_at(sr, last, unix_now())
}

/// The problem to show next at `now`, after `last` was shown: the problem
/// to review next, else the one for extra practice, else the same two with
/// nothing left out, else `1 × 1`.
pub fn pick_problem_at(sr: &SpacedRepetition, last: Option<&Problem>, now: i64) -> (p: Problem)
    requires
        sr.wf(),
    ensures
        p == sr@.pick(shown(last), now),
{
    if let Some(p) = sr.get_next_problem_at(last, now) {
        return p;
    }
    if let Some(p) = sr.get_extra_practice_problem(last) {
        return p;
    }
    if let Some(p) = sr.get_next_problem_at(None, now) {
        return p;
    }
    if let Some(p) = sr.get_extra_practice_problem(None) {
        return p;
    }
    Problem::new(1, 1)
}

/// Counting the entries that meet `pred` one place further.
proof fn lemma_count_step<A>(s: Seq<A>, pred: spec_fn(A) -> bool, i: int)
    requires
        0 <= i < s.len(),
    ensures
        s.take(0).filter(pred).len() == 0,
        s.take(i + 1).filter(pred).len() == s.take(i).filter(pred).len() + if pred(s[i]) {
            1int
        } else {
            0int
        },
{
    assert(s.take(i + 1) =~= s.take(i).push(s[i]));
    s.take(i).lemma_filter_len_push(pred, s[i]);
}

} // verus!
