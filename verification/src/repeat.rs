//! Repetition ranges: the permitted count interval for a repeated pattern
//! element, and conversions from the usual interval notations.
//!
//! The notations that can denote a malformed interval (`a..b` and `a..=b`)
//! are built fail-fast through `from_range` and `from_inclusive_range`;
//! the remaining notations always denote a well-formed interval and keep
//! their plain `From` conversions.

use vstd::prelude::*;

verus! {

/// The permitted count interval `[start, end)` for a repeated pattern
/// element. `end == None` means the interval is unbounded above.
#[derive(Clone, Copy, Debug, PartialEq, Eq, Structural)]
pub struct RepeatRange {
    pub start: usize,
    /// Exclusive upper bound; absent means unbounded.
    pub end: Option<usize>,
}

impl RepeatRange {
    /// Which repetition counts the interval admits: `start <= n`, and `n`
    /// below the upper bound when one is present.
    pub open spec fn spec_contains(self, n: int) -> bool {
        &&& self.start <= n
        &&& match self.end {
            Some(e) => n < e,
            None => true,
        }
    }

    /// A present upper bound must lie at or above the lower bound, and the
    /// empty interval `[n, n)` is admitted only at `n == 0`.
    pub open spec fn well_formed(self) -> bool {
        match self.end {
            Some(e) => self.start <= e && (e == self.start ==> self.start == 0),
            None => true,
        }
    }

    /// Fail-fast construction: a malformed interval is rejected at build
    /// time rather than discovered during a match.
    pub fn new(start: usize, end: Option<usize>) -> (r: Option<RepeatRange>)
        ensures
            match r {
                Some(rr) => rr == (RepeatRange { start, end }) && rr.well_formed(),
                None => !(RepeatRange { start, end }).well_formed(),
            },
    {
        let ok = match end {
            Some(e) => start < e || (e == start && start == 0),
            None => true,
        };
        if ok {
            Some(RepeatRange { start, end })
        } else {
            None
        }
    }

    /// The interval `a..b` denotes the counts in `[a, b)`; a notation
    /// denoting a malformed interval is rejected fail-fast.
    pub fn from_range(range: core::ops::Range<usize>) -> (r: Option<RepeatRange>)
        ensures
            match r {
                Some(rr) => rr == (RepeatRange { start: range.start, end: Some(range.end) })
                    && rr.well_formed(),
                None => !(RepeatRange { start: range.start, end: Some(range.end) }).well_formed(),
            },
    {
        RepeatRange::new(range.start, Some(range.end))
    }

    /// The interval `a..=b` denotes the counts in `[a, b + 1)`; when `b` is
    /// the largest representable count the interval is recorded as
    /// unbounded, which admits exactly the same counts. A notation denoting
    /// a malformed interval is rejected fail-fast.
    pub fn from_inclusive_range(range: core::ops::RangeInclusive<usize>) -> (r: Option<
        RepeatRange,
    >)
        ensures
            ({
                let denoted = RepeatRange {
                    start: range@.start,
                    end: if range@.end == usize::MAX {
                        None
                    } else {
                        Some((range@.end + 1) as usize)
                    },
                };
                match r {
                    Some(rr) => rr == denoted && rr.well_formed(),
                    None => !denoted.well_formed(),
                }
            }),
    {
        let start = *range.start();
        let end = *range.end();
        if end == usize::MAX {
            RepeatRange::new(start, None)
        } else {
            RepeatRange::new(start, Some(end + 1))
        }
    }

    pub fn contains(&self, n: usize) -> (r: bool)
        ensures
            r == self.spec_contains(n as int),
    {
        n >= self.start && match self.end {
            Some(e) => n < e,
            None => true,
        }
    }
}

/// One quantified element of a sequence: a sub-pattern together with the
/// count interval its consecutive occurrences must satisfy.
pub struct Repeat<T> {
    pub elmt: T,
    pub range: RepeatRange,
}

#[verifier::external_type_specification]
#[verifier::reject_recursive_types(Idx)]
pub struct ExRangeFrom<Idx>(core::ops::RangeFrom<Idx>);

impl From<core::ops::RangeFrom<usize>> for RepeatRange {
    /// `a..` denotes the counts in `[a, unbounded)`.
    fn from(range: core::ops::RangeFrom<usize>) -> (r: RepeatRange) {
        RepeatRange { start: range.start, end: None }
    }
}

impl vstd::std_specs::convert::FromSpecImpl<core::ops::RangeFrom<usize>> for RepeatRange {
    open spec fn obeys_from_spec() -> bool {
        true
    }

    open spec fn from_spec(range: core::ops::RangeFrom<usize>) -> RepeatRange {
        RepeatRange { start: range.start, end: None }
    }
}

#[verifier::external_type_specification]
pub struct ExRangeFull(core::ops::RangeFull);

impl From<core::ops::RangeFull> for RepeatRange {
    /// `..` denotes any count at all.
    fn from(_range: core::ops::RangeFull) -> (r: RepeatRange) {
        RepeatRange { start: 0, end: None }
    }
}

impl vstd::std_specs::convert::FromSpecImpl<core::ops::RangeFull> for RepeatRange {
    open spec fn obeys_from_spec() -> bool {
        true
    }

    open spec fn from_spec(_range: core::ops::RangeFull) -> RepeatRange {
        RepeatRange { start: 0, end: None }
    }
}

#[verifier::external_type_specification]
#[verifier::reject_recursive_types(Idx)]
pub struct ExRangeTo<Idx>(core::ops::RangeTo<Idx>);

impl From<core::ops::RangeTo<usize>> for RepeatRange {
    /// `..b` denotes the counts in `[0, b)`.
    fn from(range: core::ops::RangeTo<usize>) -> (r: RepeatRange) {
        RepeatRange { start: 0, end: Some(range.end) }
    }
}

impl vstd::std_specs::convert::FromSpecImpl<core::ops::RangeTo<usize>> for RepeatRange {
    open spec fn obeys_from_spec() -> bool {
        true
    }

    open spec fn from_spec(range: core::ops::RangeTo<usize>) -> RepeatRange {
        RepeatRange { start: 0, end: Some(range.end) }
    }
}

#[verifier::external_type_specification]
#[verifier::reject_recursive_types(Idx)]
pub struct ExRangeToInclusive<Idx>(core::ops::RangeToInclusive<Idx>);

impl From<core::ops::RangeToInclusive<usize>> for RepeatRange {
    /// `..=b` denotes the counts in `[0, b + 1)`; when `b` is the largest
    /// representable count, no count lies above it and the interval is
    /// recorded as unbounded, which admits exactly the same counts.
    fn from(range: core::ops::RangeToInclusive<usize>) -> (r: RepeatRange) {
        if range.end == usize::MAX {
            RepeatRange { start: 0, end: None }
        } else {
            RepeatRange { start: 0, end: Some(range.end + 1) }
        }
    }
}

impl vstd::std_specs::convert::FromSpecImpl<core::ops::RangeToInclusive<usize>> for RepeatRange {
    open spec fn obeys_from_spec() -> bool {
        true
    }

    open spec fn from_spec(range: core::ops::RangeToInclusive<usize>) -> RepeatRange {
        if range.end == usize::MAX {
            RepeatRange { start: 0, end: None }
        } else {
            RepeatRange { start: 0, end: Some((range.end + 1) as usize) }
        }
    }
}

/// Relies on `RangeInclusive::start`: it returns the lower bound the range
/// was built with.
pub assume_specification<Idx>[ core::ops::RangeInclusive::<Idx>::start ](
    r: &core::ops::RangeInclusive<Idx>,
) -> (ret: &Idx)
    ensures
        *ret == r@.start,
;

/// Relies on `RangeInclusive::end`: it returns the upper bound the range
/// was built with.
pub assume_specification<Idx>[ core::ops::RangeInclusive::<Idx>::end ](
    r: &core::ops::RangeInclusive<Idx>,
) -> (ret: &Idx)
    ensures
        *ret == r@.end,
;

impl From<usize> for RepeatRange {
    /// A bare count `n` denotes exactly `n`: the interval `[n, n + 1)`; the
    /// largest representable count is recorded with an unbounded upper end,
    /// which admits exactly the same counts.
    fn from(n: usize) -> (r: RepeatRange) {
        if n == usize::MAX {
            RepeatRange { start: n, end: None }
        } else {
            RepeatRange { start: n, end: Some(n + 1) }
        }
    }
}

impl vstd::std_specs::convert::FromSpecImpl<usize> for RepeatRange {
    open spec fn obeys_from_spec() -> bool {
        true
    }

    open spec fn from_spec(n: usize) -> RepeatRange {
        if n == usize::MAX {
            RepeatRange { start: n, end: None }
        } else {
            RepeatRange { start: n, end: Some((n + 1) as usize) }
        }
    }
}

} // verus!
