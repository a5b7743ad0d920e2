//! Construction and behaviour of the list-form patterns.

use pattern_match::matchers::{MatchSequences, MatchValues};
use pattern_match::repeat::{Repeat, RepeatRange};

#[test]
fn test_any_allow_all() {
    let m: pattern_match::matchers::MatchValues<char> =
        pattern_match::matchers::MatchValues { values: None, name: None };
    assert_eq!(m.values, None);
}

#[test]
fn test_any_allow_some() {
    let m = pattern_match::matchers::MatchValues {
        values: Some(vec!['a', 'b']),
        name: None,
    };
    assert_eq!(m.values, Some(vec!['a', 'b']));
}

#[test]
fn values_none_matches_every_char() {
    let m: MatchValues<char> = MatchValues { values: None, name: None };
    let r = m.is_match(&'x').expect("an absent alternative list admits everything");
    assert!(r.captures.is_empty());
}

#[test]
fn values_empty_list_matches_every_char() {
    let m: MatchValues<char> = MatchValues { values: Some(vec![]), name: None };
    assert!(m.is_match(&'q').is_some());
}

#[test]
fn values_some_matches_only_listed() {
    let m = MatchValues { values: Some(vec!['a', 'b']), name: None };
    assert!(m.is_match(&'a').is_some());
    assert!(m.is_match(&'b').is_some());
    assert!(m.is_match(&'c').is_none());
}

#[test]
fn values_name_records_capture() {
    let m = MatchValues { values: Some(vec!['a']), name: Some(String::from("got")) };
    let r = m.is_match(&'a').expect("the listed value matches");
    let c = r.get(&String::from("got")).expect("the capture is recorded");
    assert_eq!(*c, pattern_match::match_result::Capture::Char('a'));
}

fn rep(values: Option<Vec<char>>, start: usize, end: Option<usize>) -> Repeat<MatchValues<char>> {
    Repeat { elmt: MatchValues { values, name: None }, range: RepeatRange { start, end } }
}

#[test]
fn sequences_chunked_match() {
    // a*, b{1,3}, c over various inputs.
    let p = MatchSequences {
        seq: vec![
            rep(Some(vec!['a']), 0, None),
            rep(Some(vec!['b']), 1, Some(4)),
            rep(Some(vec!['c']), 1, Some(2)),
        ],
    };
    assert!(p.is_match(&vec!['a', 'a', 'b', 'b', 'c']));
    assert!(p.is_match(&vec!['b', 'c']));
    assert!(!p.is_match(&vec!['a', 'c']));
    assert!(!p.is_match(&vec!['a', 'b', 'b', 'b', 'b', 'c']));
    assert!(!p.is_match(&vec!['a', 'b']));
}

#[test]
fn sequences_empty_pattern_matches_only_empty_list() {
    let p: MatchSequences<MatchValues<char>> = MatchSequences { seq: vec![] };
    assert!(p.is_match(&vec![]));
    assert!(!p.is_match(&vec!['a']));
}

#[test]
fn sequences_backtracking_finds_late_split() {
    // x*, x{1,2}: the first element must give items back so that the
    // second can take its mandatory one.
    let p = MatchSequences {
        seq: vec![rep(Some(vec!['x']), 0, None), rep(Some(vec!['x']), 1, Some(3))],
    };
    assert!(p.is_match(&vec!['x']));
    assert!(p.is_match(&vec!['x', 'x', 'x', 'x']));
    assert!(!p.is_match(&vec![]));
}

#[test]
fn repeat_range_notations() {
    assert_eq!(
        RepeatRange::from_range(2..5),
        Some(RepeatRange { start: 2, end: Some(5) })
    );
    assert_eq!(
        RepeatRange::from_inclusive_range(1..=3),
        Some(RepeatRange { start: 1, end: Some(4) })
    );
    assert_eq!(RepeatRange::from(2..), RepeatRange { start: 2, end: None });
    assert_eq!(RepeatRange::from(..), RepeatRange { start: 0, end: None });
    assert_eq!(RepeatRange::from(..4), RepeatRange { start: 0, end: Some(4) });
    assert_eq!(RepeatRange::from(..=4), RepeatRange { start: 0, end: Some(5) });
    assert_eq!(RepeatRange::from(3), RepeatRange { start: 3, end: Some(4) });
}

#[test]
fn repeat_range_notations_reject_malformed() {
    // A notation denoting a malformed interval is rejected at build time.
    assert_eq!(RepeatRange::from_range(5..3), None);
    assert_eq!(RepeatRange::from_range(2..2), None);
    assert_eq!(
        RepeatRange::from_range(0..0),
        Some(RepeatRange { start: 0, end: Some(0) })
    );
    assert_eq!(RepeatRange::from_inclusive_range(5..=3), None);
    assert_eq!(
        RepeatRange::from_inclusive_range(0..=0),
        Some(RepeatRange { start: 0, end: Some(1) })
    );
}

#[test]
fn values_and_sequences_for_other_leaf_types() {
    let mb = MatchValues { values: Some(vec![true]), name: None };
    assert!(mb.is_match(&true).is_some());
    assert!(mb.is_match(&false).is_none());
    let mi = MatchValues { values: Some(vec![3u128, 5u128]), name: None };
    assert!(mi.is_match(&5u128).is_some());
    assert!(mi.is_match(&4u128).is_none());
    let pb = MatchSequences {
        seq: vec![Repeat {
            elmt: MatchValues { values: Some(vec![true]), name: None },
            range: RepeatRange { start: 1, end: Some(3) },
        }],
    };
    assert!(pb.is_match(&vec![true, true]));
    assert!(!pb.is_match(&vec![true, false]));
    assert!(!pb.is_match(&vec![]));
    let pi = MatchSequences {
        seq: vec![
            Repeat {
                elmt: MatchValues { values: Some(vec![1u128]), name: None },
                range: RepeatRange { start: 0, end: None },
            },
            Repeat {
                elmt: MatchValues { values: Some(vec![2u128]), name: None },
                range: RepeatRange { start: 1, end: Some(2) },
            },
        ],
    };
    assert!(pi.is_match(&vec![1u128, 1u128, 2u128]));
    assert!(!pi.is_match(&vec![1u128, 1u128]));
}

#[test]
fn repeat_range_contains() {
    let r = RepeatRange { start: 1, end: Some(3) };
    assert!(!r.contains(0));
    assert!(r.contains(1));
    assert!(r.contains(2));
    assert!(!r.contains(3));
    let unbounded = RepeatRange { start: 2, end: None };
    assert!(unbounded.contains(1_000_000));
    assert!(!unbounded.contains(1));
}

#[test]
fn repeat_range_rejects_malformed() {
    assert!(RepeatRange::new(3, Some(2)).is_none());
    assert!(RepeatRange::new(2, Some(2)).is_none());
    assert_eq!(
        RepeatRange::new(0, Some(0)),
        Some(RepeatRange { start: 0, end: Some(0) })
    );
    assert_eq!(
        RepeatRange::new(2, Some(5)),
        Some(RepeatRange { start: 2, end: Some(5) })
    );
    assert_eq!(RepeatRange::new(7, None), Some(RepeatRange { start: 7, end: None }));
}
