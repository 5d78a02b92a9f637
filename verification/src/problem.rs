//! Multiplication problems and the order in which their tables open up.

use vstd::prelude::*;

use crate::clock::unix_now;
use crate::decimal::{append_decimal, decimal};

verus! {

/// The order in which the tables are opened for practice.
pub const TABLE_ORDER: [u8; 12] = [1, 10, 5, 11, 2, 3, 9, 4, 6, 7, 8, 12];

/// Largest operand of a problem that the trainer knows.
pub const MAX_OPERAND: u8 = 12;

/// One multiplication problem, `a × b`. The pair is ordered: `2 × 3` and
/// `3 × 2` are different problems.
#[derive(Debug, Clone, Copy, PartialEq, Eq, Hash, Structural)]
pub struct Problem {
    pub a: u8,
    pub b: u8,
}

impl Problem {
    /// Whether both operands lie between 1 and 12, that is, whether the
    /// problem is one of the 144 that the trainer knows.
    pub open spec fn in_range(self) -> bool {
        1 <= self.a <= 12 && 1 <= self.b <= 12
    }

    /// The problem `a × b`. Any operands are taken; `in_range` says whether
    /// the problem is one that the trainer knows.
    pub fn new(a: u8, b: u8) -> (p: Self)
        ensures
            p == (Problem { a, b }),
    {
        Self { a, b }
    }

    /// The product of the two operands.
    pub fn answer(&self) -> (r: u32)
        ensures
            r == self.a * self.b,
    {
        assert(self.a * self.b <= 255 * 255) by (nonlinear_arith);
        self.a as u32 * self.b as u32
    }

    /// The text of `display`: both operands in decimal around ` × `, then
    /// ` = ?`.
    pub open spec fn display_text(self) -> Seq<char> {
        decimal(self.a as nat) + seq![' ', '×', ' '] + decimal(self.b as nat) + seq![' ', '=', ' ', '?']
    }

    /// The text of `key`: both operands in decimal around an `x`.
    pub open spec fn key_text(self) -> Seq<char> {
        decimal(self.a as nat) + seq!['x'] + decimal(self.b as nat)
    }

    /// The problem as it is shown to the learner: `7 × 8 = ?`.
    pub fn display(&self) -> (s: String)
        ensures
            s@ == self.display_text(),
    {
        let mut s = String::new();
        append_decimal(&mut s, self.a);
        s.append(" × ");
        append_decimal(&mut s, self.b);
        s.append(" = ?");
        proof {
            reveal_strlit(" × ");
            reveal_strlit(" = ?");
        }
        s
    }

    /// The name under which the problem's record is stored: `7x8`.
    pub fn key(&self) -> (s: String)
        ensures
            s@ == self.key_text(),
    {
        let mut s = String::new();
        append_decimal(&mut s, self.a);
        s.append("x");
        append_decimal(&mut s, self.b);
        proof {
            reveal_strlit("x");
        }
        s
    }

    /// The two tables that must be open for this problem to be practised.
    pub fn tables_required(&self) -> (r: (u8, u8))
        ensures
            r == (self.a, self.b),
    {
        (self.a, self.b)
    }
}

/// Number of problems that the trainer knows: every ordered pair of operands
/// between 1 and 12.
pub const PROBLEM_COUNT: usize = 144;

/// The problem at place `i` when the problems are listed by `a`, then by `b`.
pub open spec fn problem_at(i: int) -> Problem {
    Problem { a: (i / 12 + 1) as u8, b: (i % 12 + 1) as u8 }
}

/// The place of `p` when the problems are listed by `a`, then by `b`.
pub open spec fn place_of(p: Problem) -> int {
    (p.a - 1) * 12 + (p.b - 1)
}

/// All 144 problems, listed by `a`, then by `b`.
pub fn generate_all_problems() -> (problems: Vec<Problem>)
    ensures
        problems@.len() == 144,
        forall|i: int| 0 <= i < 144 ==> problems@[i] == problem_at(i),
{
    let mut problems: Vec<Problem> = Vec::new();
    let mut a: u8 = 1;
    while a <= MAX_OPERAND
        invariant
            1 <= a <= 13,
            problems@.len() == (a - 1) * 12,
            forall|i: int| 0 <= i < problems@.len() ==> problems@[i] == problem_at(i),
        decreases 13 - a,
    {
        let mut b: u8 = 1;
        while b <= MAX_OPERAND
            invariant
                1 <= a <= 12,
                1 <= b <= 13,
                problems@.len() == (a - 1) * 12 + (b - 1),
                forall|i: int| 0 <= i < problems@.len() ==> problems@[i] == problem_at(i),
            decreases 13 - b,
        {
            problems.push(Problem::new(a, b));
            b += 1;
        }
        a += 1;
    }
    problems
}

/// Ease of a problem that has never been answered, in hundredths.
pub const EASE_INITIAL: u32 = 250;

/// Smallest ease a record can fall to, in hundredths.
pub const EASE_MIN: u32 = 130;

/// Largest ease a record can rise to, in hundredths.
pub const EASE_MAX: u32 = 300;

/// Ease from which a problem can count as mastered, in hundredths.
pub const EASE_MASTERED: u32 = 200;

/// What a wrong answer takes from the ease, in hundredths.
pub const EASE_PENALTY: u32 = 20;

/// Number of correct answers in a row from which a problem can count as
/// mastered.
pub const STREAK_MASTERED: u32 = 3;

/// Answers given in less than this many milliseconds are fast.
pub const FAST_BELOW_MS: u64 = 3000;

/// Answers that take more than this many milliseconds are slow.
pub const SLOW_ABOVE_MS: u64 = 8000;

/// What a fast correct answer adds to the ease, in hundredths.
pub const EASE_BONUS_FAST: u32 = 15;

/// What a correct answer in ordinary time adds to the ease, in hundredths.
pub const EASE_BONUS_NORMAL: u32 = 10;

/// What a slow correct answer adds to the ease, in hundredths.
pub const EASE_BONUS_SLOW: u32 = 5;

/// Seconds in a day, the shortest interval after a correct answer.
pub const DAY_SECS: u64 = 86_400;

/// What a correct answer adds to the ease, in hundredths: 15 for an answer
/// in less than three seconds, 10 for one in three to eight seconds, 5 for
/// one that took longer.
pub open spec fn ease_bonus(response_ms: u64) -> u32 {
    if response_ms < FAST_BELOW_MS {
        EASE_BONUS_FAST
    } else if response_ms <= SLOW_ABOVE_MS {
        EASE_BONUS_NORMAL
    } else {
        EASE_BONUS_SLOW
    }
}

/// A counter one step further; a counter at the top of its range stays there.
pub open spec fn bumped(n: u32) -> u32 {
    if n < u32::MAX {
        (n + 1) as u32
    } else {
        n
    }
}

/// The interval after a correct answer: one day if it was shorter than a
/// day, else the old interval times the ease, rounded down to whole seconds
/// and held at the top of the range.
pub open spec fn grown_interval(interval_secs: u64, ease_factor: u32) -> u64 {
    if interval_secs < DAY_SECS {
        DAY_SECS
    } else if interval_secs * ease_factor / 100 <= u64::MAX {
        (interval_secs * ease_factor / 100) as u64
    } else {
        u64::MAX
    }
}

/// The time `interval_secs` after `now`, held at the top of the range.
pub open spec fn review_time(now: i64, interval_secs: u64) -> i64 {
    if now + interval_secs <= i64::MAX {
        (now + interval_secs) as i64
    } else {
        i64::MAX
    }
}

/// What the trainer has learnt about one problem.
///
/// The ease is kept in hundredths, so that 250 stands for 2.50. Times are
/// seconds since the Unix epoch, intervals are seconds.
#[derive(Debug, Clone, Copy, PartialEq, Eq, Structural)]
pub struct ProblemStats {
    pub problem: Problem,
    pub ease_factor: u32,
    pub interval_secs: u64,
    pub next_review: i64,
    pub times_correct: u32,
    pub times_wrong: u32,
    pub consecutive_correct: u32,
}

impl ProblemStats {
    /// The ease lies within its bounds.
    pub open spec fn wf(self) -> bool {
        EASE_MIN <= self.ease_factor <= EASE_MAX
    }

    /// The record of a problem that has never been answered and is due from
    /// `now` on.
    pub open spec fn fresh(problem: Problem, now: i64) -> ProblemStats {
        ProblemStats {
            problem,
            ease_factor: EASE_INITIAL,
            interval_secs: 0,
            next_review: now,
            times_correct: 0,
            times_wrong: 0,
            consecutive_correct: 0,
        }
    }

    /// Whether the problem is due for review at `now`.
    pub open spec fn due_at(self, now: i64) -> bool {
        now >= self.next_review
    }

    /// Whether the problem counts as mastered: at least three correct
    /// answers in a row and an ease of at least 2.00.
    pub open spec fn mastered(self) -> bool {
        self.consecutive_correct >= STREAK_MASTERED && self.ease_factor >= EASE_MASTERED
    }

    /// The record after an answer given at `now` that took `response_ms`
    /// milliseconds.
    ///
    /// A correct answer lengthens the interval by the ease as it was before
    /// the answer, then raises the ease by the bonus for the response time,
    /// up to 3.00. A wrong answer ends the streak, makes the problem due at
    /// once and lowers the ease by 0.20, down to 1.30.
    pub open spec fn after_answer(self, correct: bool, response_ms: u64, now: i64) -> ProblemStats {
        if correct {
            let interval = grown_interval(self.interval_secs, self.ease_factor);
            ProblemStats {
                problem: self.problem,
                ease_factor: if self.ease_factor + ease_bonus(response_ms) <= EASE_MAX {
                    (self.ease_factor + ease_bonus(response_ms)) as u32
                } else {
                    EASE_MAX
                },
                interval_secs: interval,
                next_review: review_time(now, interval),
                times_correct: bumped(self.times_correct),
                times_wrong: self.times_wrong,
                consecutive_correct: bumped(self.consecutive_correct),
            }
        } else {
            ProblemStats {
                problem: self.problem,
                ease_factor: if self.ease_factor - EASE_PENALTY >= EASE_MIN {
                    (self.ease_factor - EASE_PENALTY) as u32
                } else {
                    EASE_MIN
                },
                interval_secs: 0,
                next_review: now,
                times_correct: self.times_correct,
                times_wrong: bumped(self.times_wrong),
                consecutive_correct: 0,
            }
        }
    }

    /// A fresh record that is due from the current time on.
    pub fn new(problem: Problem) -> (s: Self)
        ensures
            s == Self::fresh(problem, s.next_review),
    {
        Self::new_at(problem, unix_now())
    }

    /// A fresh record that is due from `now` on.
    pub fn new_at(problem: Problem, now: i64) -> (s: Self)
        ensures
            s == Self::fresh(problem, now),
    {
        Self {
            problem,
            ease_factor: EASE_INITIAL,
            interval_secs: 0,
            next_review: now,
            times_correct: 0,
            times_wrong: 0,
            consecutive_correct: 0,
        }
    }

    /// Whether the problem is due at the current time.
    pub fn is_due(&self) -> (due: bool)
        ensures
            exists|now: i64| due == self.due_at(now),
    {
        self.is_due_at(unix_now())
    }

    /// Whether the problem is due at `now`: the time of its next review is
    /// reached.
    pub fn is_due_at(&self, now: i64) -> (due: bool)
        ensures
            due == self.due_at(now),
    {
        now >= self.next_review
    }

    /// Whether the problem counts as mastered: at least three correct
    /// answers in a row and an ease of at least 2.00.
    pub fn is_mastered(&self) -> (m: bool)
        ensures
            m == self.mastered(),
    {
        self.consecutive_correct >= STREAK_MASTERED && self.ease_factor >= EASE_MASTERED
    }

    /// Records an answer given at the current time that took `response_ms`
    /// milliseconds.
    pub fn record_answer(&mut self, correct: bool, response_ms: u64)
        ensures
            exists|now: i64| *final(self) == old(self).after_answer(correct, response_ms, now),
    {
        self.record_answer_at(correct, response_ms, unix_now());
    }

    /// Records an answer given at `now` that took `response_ms` milliseconds.
    pub fn record_answer_at(&mut self, correct: bool, response_ms: u64, now: i64)
        ensures
            *final(self) == old(self).after_answer(correct, response_ms, now),
    {
        if correct {
            self.times_correct = bump(self.times_correct);
            self.consecutive_correct = bump(self.consecutive_correct);
            self.interval_secs = grow_interval(self.interval_secs, self.ease_factor);
            let bonus: u32 = if response_ms < FAST_BELOW_MS {
                EASE_BONUS_FAST
            } else if response_ms <= SLOW_ABOVE_MS {
                EASE_BONUS_NORMAL
            } else {
                EASE_BONUS_SLOW
            };
            self.ease_factor = if self.ease_factor <= EASE_MAX - bonus {
                self.ease_factor + bonus
            } else {
                EASE_MAX
            };
        } else {
            self.times_wrong = bump(self.times_wrong);
            self.consecutive_correct = 0;
            self.interval_secs = 0;
            self.ease_factor = if self.ease_factor >= EASE_MIN + EASE_PENALTY {
                self.ease_factor - EASE_PENALTY
            } else {
                EASE_MIN
            };
        }
        self.next_review = time_after(now, self.interval_secs);
    }
}

/// A counter one step further, held at the top of its range.
fn bump(n: u32) -> (r: u32)
    ensures
        r == bumped(n),
{
    if n < u32::MAX {
        n + 1
    } else {
        n
    }
}

/// The interval after a correct answer.
fn grow_interval(interval_secs: u64, ease_factor: u32) -> (r: u64)
    ensures
        r == grown_interval(interval_secs, ease_factor),
{
    if interval_secs < DAY_SECS {
        DAY_SECS
    } else {
        assert(interval_secs * ease_factor <= u64::MAX * u32::MAX) by (nonlinear_arith);
        let grown: u128 = (interval_secs as u128) * (ease_factor as u128) / 100;
        if grown <= u64::MAX as u128 {
            grown as u64
        } else {
            u64::MAX
        }
    }
}

/// The time `interval_secs` after `now`, held at the top of the range.
fn time_after(now: i64, interval_secs: u64) -> (r: i64)
    ensures
        r == review_time(now, interval_secs),
{
    let at: i128 = now as i128 + interval_secs as i128;
    if at <= i64::MAX as i128 {
        at as i64
    } else {
        i64::MAX
    }
}

} // verus!
