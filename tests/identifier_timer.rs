use quizler::identifier::{push_symbol, random_identifier, ID_LENGTH, SYMBOLS};
use quizler::names::same_name;
use quizler::timer::GameTimer;

#[test]
fn identifier_has_requested_length_and_symbols() {
    for _ in 0..200 {
        let id = random_identifier(ID_LENGTH);
        assert_eq!(id.chars().count(), 5);
        assert!(id.chars().all(|c| SYMBOLS.contains(c)), "{}", id);
    }
}

#[test]
fn identifier_of_length_zero_is_empty() {
    assert_eq!(random_identifier(0), "");
}

#[test]
fn identifiers_vary() {
    let a: Vec<String> = (0..50).map(|_| random_identifier(5)).collect();
    assert!(a.iter().any(|x| *x != a[0]));
}

#[test]
fn push_symbol_picks_by_position() {
    let mut s = String::from("x");
    push_symbol(&mut s, 0);
    push_symbol(&mut s, 5);
    push_symbol(&mut s, 6);
    push_symbol(&mut s, 15);
    assert_eq!(s, "xAF09");
}

#[test]
fn same_name_ignores_ascii_case() {
    assert!(same_name(&String::from("Alice"), &String::from("alice")));
    assert!(same_name(&String::from("BOB-7"), &String::from("bob-7")));
    assert!(!same_name(&String::from("Alice"), &String::from("Alicia")));
    assert!(!same_name(&String::from("Alice"), &String::from("Alic")));
    assert!(same_name(&String::from(""), &String::from("")));
    assert!(!same_name(&String::from("\u{c4}b"), &String::from("\u{e4}b")));
    assert!(!same_name(&String::from("@"), &String::from("`")));
}

#[test]
fn new_timer_is_idle() {
    let t = GameTimer::new(100);
    assert_eq!(t.remaining(), 0);
    assert!(!t.need_sync);
    assert!(!t.due_for_sync(100_000));
}

#[test]
fn track_arms_and_counts_down() {
    let mut t = GameTimer::new(0);
    t.track(5000, 1000);
    assert!(t.need_sync);
    assert_eq!(t.elapsed, 0);
    assert_eq!(t.remaining(), 5000);
    t.advance(3000);
    assert_eq!(t.elapsed, 2000);
    assert_eq!(t.remaining(), 3000);
}

#[test]
fn remaining_never_increases_and_clamps_at_zero() {
    let mut t = GameTimer::new(0);
    t.track(5000, 1000);
    let mut last = t.remaining();
    for now in [1000u64, 1500, 1500, 4000, 5999, 6000, 6001, 9000, 100_000] {
        t.advance(now);
        let r = t.remaining();
        assert!(r <= last);
        last = r;
    }
    assert_eq!(last, 0);
    t.advance(2000);
    assert_eq!(t.remaining(), 0);
}

#[test]
fn clock_going_back_does_not_add_time() {
    let mut t = GameTimer::new(0);
    t.track(5000, 1000);
    t.advance(4000);
    t.advance(2000);
    assert_eq!(t.remaining(), 2000);
}

#[test]
fn sync_is_due_after_two_seconds() {
    let mut t = GameTimer::new(0);
    t.track(5000, 0);
    assert!(!t.due_for_sync(1999));
    assert!(t.due_for_sync(2000));
    t.need_sync = false;
    assert!(!t.due_for_sync(2000));
}

#[test]
fn track_rearms_a_finished_timer() {
    let mut t = GameTimer::new(0);
    t.track(1000, 0);
    t.advance(5000);
    assert_eq!(t.remaining(), 0);
    t.track(3000, 5000);
    assert_eq!(t.remaining(), 3000);
}
