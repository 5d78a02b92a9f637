use tt_core::problem::{Problem, ProblemStats};

fn record(ease_factor: u32, interval_secs: u64) -> ProblemStats {
    ProblemStats {
        problem: Problem::new(6, 7),
        ease_factor,
        interval_secs,
        next_review: 0,
        times_correct: 0,
        times_wrong: 0,
        consecutive_correct: 0,
    }
}

#[test]
fn fresh_record_starts_at_ease_two_and_a_half() {
    let s = ProblemStats::new_at(Problem::new(6, 7), 1_000);
    assert_eq!(s.problem, Problem::new(6, 7));
    assert_eq!(s.ease_factor, 250);
    assert_eq!(s.interval_secs, 0);
    assert_eq!(s.next_review, 1_000);
    assert_eq!(s.times_correct, 0);
    assert_eq!(s.times_wrong, 0);
    assert_eq!(s.consecutive_correct, 0);
}

#[test]
fn new_record_is_due_from_the_current_time() {
    let s = ProblemStats::new(Problem::new(2, 2));
    assert!(s.next_review > 1_600_000_000);
    assert_eq!(s, ProblemStats::new_at(Problem::new(2, 2), s.next_review));
    assert!(s.is_due());
}

#[test]
fn due_from_the_review_time_on() {
    let s = ProblemStats::new_at(Problem::new(6, 7), 500);
    assert!(!s.is_due_at(499));
    assert!(s.is_due_at(500));
    assert!(s.is_due_at(501));
}

#[test]
fn record_far_in_the_future_is_not_due_now() {
    let mut s = ProblemStats::new(Problem::new(2, 2));
    s.next_review = i64::MAX;
    assert!(!s.is_due());
}

#[test]
fn mastered_needs_streak_and_ease() {
    let mut s = record(200, 0);
    s.consecutive_correct = 3;
    assert!(s.is_mastered());
    s.consecutive_correct = 2;
    assert!(!s.is_mastered());
    s.consecutive_correct = 3;
    s.ease_factor = 199;
    assert!(!s.is_mastered());
    s.consecutive_correct = 10;
    s.ease_factor = 300;
    assert!(s.is_mastered());
}

#[test]
fn fast_answer_adds_fifteen() {
    let mut s = record(200, 0);
    s.record_answer_at(true, 0, 0);
    assert_eq!(s.ease_factor, 215);
    let mut s = record(200, 0);
    s.record_answer_at(true, 2_999, 0);
    assert_eq!(s.ease_factor, 215);
}

#[test]
fn answer_in_ordinary_time_adds_ten() {
    let mut s = record(200, 0);
    s.record_answer_at(true, 3_000, 0);
    assert_eq!(s.ease_factor, 210);
    let mut s = record(200, 0);
    s.record_answer_at(true, 8_000, 0);
    assert_eq!(s.ease_factor, 210);
}

#[test]
fn slow_answer_adds_five() {
    let mut s = record(200, 0);
    s.record_answer_at(true, 8_001, 0);
    assert_eq!(s.ease_factor, 205);
    let mut s = record(200, 0);
    s.record_answer_at(true, u64::MAX, 0);
    assert_eq!(s.ease_factor, 205);
}

#[test]
fn ease_stops_at_three() {
    let mut s = record(290, 0);
    s.record_answer_at(true, 100, 0);
    assert_eq!(s.ease_factor, 300);
    s.record_answer_at(true, 100, 0);
    assert_eq!(s.ease_factor, 300);
    let mut s = record(296, 0);
    s.record_answer_at(true, 9_000, 0);
    assert_eq!(s.ease_factor, 300);
}

#[test]
fn wrong_answer_takes_twenty_from_the_ease() {
    let mut s = record(250, 0);
    s.record_answer_at(false, 100, 0);
    assert_eq!(s.ease_factor, 230);
}

#[test]
fn ease_stops_at_one_point_three() {
    let mut s = record(151, 0);
    s.record_answer_at(false, 100, 0);
    assert_eq!(s.ease_factor, 131);
    let mut s = record(150, 0);
    s.record_answer_at(false, 100, 0);
    assert_eq!(s.ease_factor, 130);
    let mut s = record(140, 0);
    s.record_answer_at(false, 100, 0);
    assert_eq!(s.ease_factor, 130);
    s.record_answer_at(false, 100, 0);
    assert_eq!(s.ease_factor, 130);
}

#[test]
fn first_correct_answer_sets_one_day() {
    let mut s = record(250, 0);
    s.record_answer_at(true, 100, 10);
    assert_eq!(s.interval_secs, 86_400);
    assert_eq!(s.next_review, 86_410);
}

#[test]
fn interval_under_a_day_becomes_one_day() {
    let mut s = record(250, 86_399);
    s.record_answer_at(true, 100, 0);
    assert_eq!(s.interval_secs, 86_400);
    let mut s = record(250, 1);
    s.record_answer_at(true, 100, 0);
    assert_eq!(s.interval_secs, 86_400);
}

#[test]
fn interval_grows_by_the_ease_before_the_bonus() {
    let mut s = record(250, 86_400);
    s.record_answer_at(true, 100, 1_000);
    assert_eq!(s.interval_secs, 216_000);
    assert_eq!(s.ease_factor, 265);
    assert_eq!(s.next_review, 217_000);
    s.record_answer_at(true, 100, 2_000);
    assert_eq!(s.interval_secs, 572_400);
    assert_eq!(s.next_review, 574_400);
}

#[test]
fn interval_is_rounded_down_to_whole_seconds() {
    let mut s = record(133, 86_401);
    s.record_answer_at(true, 100, 0);
    assert_eq!(s.interval_secs, 114_913);
}

#[test]
fn interval_stays_at_the_top_of_its_range() {
    let mut s = record(300, u64::MAX);
    s.record_answer_at(true, 100, 5);
    assert_eq!(s.interval_secs, u64::MAX);
    assert_eq!(s.next_review, i64::MAX);
    let mut s = record(300, u64::MAX / 2);
    s.record_answer_at(true, 100, 5);
    assert_eq!(s.interval_secs, u64::MAX);
}

#[test]
fn review_time_stays_at_the_top_of_its_range() {
    let mut s = record(100, i64::MAX as u64);
    s.record_answer_at(true, 100, 1);
    assert_eq!(s.interval_secs, i64::MAX as u64);
    assert_eq!(s.next_review, i64::MAX);
    let mut s = record(100, 86_400);
    s.record_answer_at(true, 100, i64::MAX - 86_400);
    assert_eq!(s.next_review, i64::MAX);
    let mut s = record(100, 86_400);
    s.record_answer_at(true, 100, i64::MIN);
    assert_eq!(s.next_review, i64::MIN + 86_400);
}

#[test]
fn wrong_answer_makes_the_problem_due_at_once() {
    let mut s = record(250, 500_000);
    s.next_review = 9_999_999;
    s.record_answer_at(false, 100, 42);
    assert_eq!(s.interval_secs, 0);
    assert_eq!(s.next_review, 42);
    assert!(s.is_due_at(42));
}

#[test]
fn counters_follow_the_answers() {
    let mut s = record(250, 0);
    s.record_answer_at(true, 100, 0);
    s.record_answer_at(true, 100, 0);
    assert_eq!((s.times_correct, s.times_wrong, s.consecutive_correct), (2, 0, 2));
    s.record_answer_at(false, 100, 0);
    assert_eq!((s.times_correct, s.times_wrong, s.consecutive_correct), (2, 1, 0));
    s.record_answer_at(true, 100, 0);
    assert_eq!((s.times_correct, s.times_wrong, s.consecutive_correct), (3, 1, 1));
}

#[test]
fn counters_stay_at_the_top_of_their_range() {
    let mut s = record(250, 0);
    s.times_correct = u32::MAX;
    s.consecutive_correct = u32::MAX;
    s.times_wrong = u32::MAX;
    s.record_answer_at(true, 100, 0);
    assert_eq!(s.times_correct, u32::MAX);
    assert_eq!(s.consecutive_correct, u32::MAX);
    s.record_answer_at(false, 100, 0);
    assert_eq!(s.times_wrong, u32::MAX);
    assert_eq!(s.consecutive_correct, 0);
}

#[test]
fn wrong_answer_always_ends_the_streak() {
    for streak in [0u32, 1, 3, 1000, u32::MAX] {
        let mut s = record(300, 86_400);
        s.consecutive_correct = streak;
        s.record_answer_at(false, 100, 0);
        assert_eq!(s.consecutive_correct, 0);
        assert!(!s.is_mastered());
    }
}

#[test]
fn three_correct_answers_master_at_ease_two() {
    let mut s = record(200, 0);
    s.record_answer_at(true, 9_000, 0);
    assert!(!s.is_mastered());
    s.record_answer_at(true, 9_000, 0);
    assert!(!s.is_mastered());
    s.record_answer_at(true, 9_000, 0);
    assert!(s.is_mastered());
    assert_eq!(s.ease_factor, 215);
}

#[test]
fn three_correct_answers_do_not_master_below_ease_two() {
    let mut s = record(130, 0);
    for _ in 0..3 {
        s.record_answer_at(true, 100, 0);
    }
    assert_eq!(s.ease_factor, 175);
    assert_eq!(s.consecutive_correct, 3);
    assert!(!s.is_mastered());
    s.record_answer_at(true, 100, 0);
    assert_eq!(s.ease_factor, 190);
    assert!(!s.is_mastered());
    s.record_answer_at(true, 100, 0);
    assert_eq!(s.ease_factor, 205);
    assert!(s.is_mastered());
}

#[test]
fn ease_stays_in_bounds_over_many_answers() {
    let mut s = ProblemStats::new_at(Problem::new(6, 7), 0);
    let mut seed: u32 = 12345;
    for step in 0..5_000i64 {
        seed = seed.wrapping_mul(1_103_515_245).wrapping_add(12_345);
        let correct = (seed >> 16) % 3 != 0;
        let response_ms = ((seed >> 8) % 12_000) as u64;
        s.record_answer_at(correct, response_ms, step);
        assert!(130 <= s.ease_factor && s.ease_factor <= 300);
    }
}

#[test]
fn record_answer_reads_the_clock() {
    let mut s = ProblemStats::new(Problem::new(2, 2));
    let made = s.next_review;
    s.record_answer(true, 1_000);
    assert_eq!(s.interval_secs, 86_400);
    assert!(s.next_review >= made + 86_400);
    assert!(s.next_review < made + 86_400 + 3_600);
    assert!(!s.is_due());
    s.record_answer(false, 1_000);
    assert!(s.next_review >= made);
    assert!(s.next_review < made + 3_600);
    assert!(s.is_due());
    assert_eq!((s.times_correct, s.times_wrong, s.ease_factor), (1, 1, 245));
}
