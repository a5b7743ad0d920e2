//! The capture accumulator and the join operation.

use pattern_match::ast::{Expr, Lit};
use pattern_match::match_result::{join, merge, Capture, MatchResult};

#[test]
fn empty_result_has_no_captures() {
    let m = MatchResult::empty();
    assert!(m.captures.is_empty());
    assert!(m.get(&String::from("anything")).is_none());
}

#[test]
fn insert_then_get() {
    let mut m = MatchResult::empty();
    m.insert(String::from("k"), Capture::Int(7));
    assert_eq!(m.get(&String::from("k")), Some(&Capture::Int(7)));
    assert!(m.get(&String::from("other")).is_none());
}

#[test]
fn later_insert_wins() {
    let mut m = MatchResult::empty();
    m.insert(String::from("k"), Capture::Int(1));
    m.insert(String::from("k"), Capture::Int(2));
    assert_eq!(m.get(&String::from("k")), Some(&Capture::Int(2)));
}

#[test]
fn join_fails_when_either_side_failed() {
    assert!(join(None, Some(MatchResult::empty())).is_none());
    assert!(join(Some(MatchResult::empty()), None).is_none());
    assert!(join(None, None).is_none());
    assert!(join(Some(MatchResult::empty()), Some(MatchResult::empty())).is_some());
}

#[test]
fn join_overlays_later_writer_wins() {
    let mut a = MatchResult::empty();
    a.insert(String::from("shared"), Capture::Char('a'));
    a.insert(String::from("only_a"), Capture::Bool(true));
    let mut b = MatchResult::empty();
    b.insert(String::from("shared"), Capture::Char('b'));
    b.insert(String::from("only_b"), Capture::Lit(Lit::Int(9)));
    let j = join(Some(a), Some(b)).expect("both sides succeeded");
    assert_eq!(j.get(&String::from("shared")), Some(&Capture::Char('b')));
    assert_eq!(j.get(&String::from("only_a")), Some(&Capture::Bool(true)));
    assert_eq!(
        j.get(&String::from("only_b")),
        Some(&Capture::Lit(Lit::Int(9)))
    );
}

#[test]
fn merge_concatenates_capture_lists() {
    let mut a = MatchResult::empty();
    a.insert(String::from("x"), Capture::Int(1));
    let mut b = MatchResult::empty();
    b.insert(String::from("y"), Capture::Expr(Expr::Lit(Lit::Bool(false))));
    let m = merge(a, b);
    assert_eq!(m.captures.len(), 2);
    assert_eq!(m.get(&String::from("x")), Some(&Capture::Int(1)));
    assert_eq!(
        m.get(&String::from("y")),
        Some(&Capture::Expr(Expr::Lit(Lit::Bool(false))))
    );
}
