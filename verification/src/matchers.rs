//! The pattern combinators: alternatives over a single value, sequences of
//! children, and optional slots, together with the traits that tie pattern
//! node types to the concrete values they match.

use vstd::prelude::*;

use crate::match_result::{CaptureMap, MatchResult};
use crate::repeat::{Repeat, RepeatRange};

verus! {

/// A pattern over one concrete value.
///
/// `Any` matches every value; `Elmt` delegates to a node pattern; `Alt`
/// tries its left side and falls back to the right one (first success
/// wins); `Named` records a capture of the matched value on success.
pub enum Alt<T> {
    Any,
    Elmt(Box<T>),
    Alt(Box<Alt<T>>, Box<Alt<T>>),
    Named(Box<Alt<T>>, String),
}

/// A pattern over an ordered, finite list of concrete values.
///
/// `Empty` matches only the empty list; `Any` exactly one unconstrained
/// item; `Elmt` exactly one item matching a value pattern; `Concat` splits the
/// list into a prefix for its left side and a suffix for its right side;
/// `Alt` tries its left side and falls back to the right one; `Repeat`
/// matches when every item matches the element pattern and the number of
/// items lies in the repetition range; `Named` records the whole matched
/// span on success.
pub enum Sequence<T> {
    Empty,
    Any,
    Elmt(Box<Alt<T>>),
    Repeat(Box<Alt<T>>, RepeatRange),
    Concat(Box<Sequence<T>>, Box<Sequence<T>>),
    Alt(Box<Sequence<T>>, Box<Sequence<T>>),
    Named(Box<Sequence<T>>, String),
}

/// A pattern over a concrete slot that may or may not hold a value.
///
/// `Any` requires the slot to be filled; `Elmt` requires it to be filled
/// with a value matching a node pattern; `Absent` requires it to be empty;
/// `Alt` requires both of its sides to hold of the same slot (a
/// conjunction, unlike the alternation of the value and sequence patterns);
/// `Named` records the slot's content on success.
pub enum Opt<T> {
    Any,
    Elmt(Box<T>),
    Absent,
    Alt(Box<Opt<T>>, Box<Opt<T>>),
    Named(Box<Opt<T>>, String),
}

/// A value pattern in list form: `values: None` accepts every value, while
/// `values: Some(vs)` accepts a value matching any element of `vs`; a
/// `name` records a capture on success.
pub struct MatchValues<T> {
    pub values: Option<Vec<T>>,
    pub name: Option<String>,
}

/// A sequence pattern in list form: the concrete list must split into
/// consecutive chunks, one chunk per quantified element, each chunk's
/// length lying in its element's repetition range and each of its items
/// matching that element.
pub struct MatchSequences<T> {
    pub seq: Vec<Repeat<T>>,
}

/// Implemented by every type that can stand in a pattern tree.
pub trait PatternTreeNode {}

impl PatternTreeNode for char {}

impl PatternTreeNode for u128 {}

impl PatternTreeNode for bool {}

/// Implemented by the leaf types that match by plain value equality.
pub trait IsMatchEquality: PartialEq {}

impl IsMatchEquality for char {}

impl IsMatchEquality for u128 {}

impl IsMatchEquality for bool {}

/// Implemented by every type a pattern node may descend to: pattern tree
/// nodes and the leaf value types.
pub trait Descendant {}

impl Descendant for char {}

impl Descendant for u128 {}

impl Descendant for bool {}

/// Implemented where a pattern type can be held against a concrete type.
pub trait Matches<U> {}

impl<T: PartialEq> Matches<T> for T {}

/// The matching interface: a pattern either fails on a concrete value or
/// produces the capture map its view model describes.
pub trait IsMatch<O> {
    /// The capture map this pattern produces on this value, or `None` when
    /// the match fails.
    spec fn match_view(&self, other: &O) -> Option<CaptureMap>;

    /// Decides the match; the result is exactly what `match_view`
    /// describes.
    fn is_match(&self, other: &O) -> (r: Option<MatchResult>)
        ensures
            crate::match_result::opt_result_view(r) == self.match_view(other),
    ;
}

impl IsMatch<char> for char {
    open spec fn match_view(&self, other: &char) -> Option<CaptureMap> {
        if self == other {
            Some(CaptureMap::empty())
        } else {
            None
        }
    }

    fn is_match(&self, other: &char) -> (r: Option<MatchResult>) {
        if *self == *other {
            Some(MatchResult::empty())
        } else {
            None
        }
    }
}

impl IsMatch<bool> for bool {
    open spec fn match_view(&self, other: &bool) -> Option<CaptureMap> {
        if self == other {
            Some(CaptureMap::empty())
        } else {
            None
        }
    }

    fn is_match(&self, other: &bool) -> (r: Option<MatchResult>) {
        if *self == *other {
            Some(MatchResult::empty())
        } else {
            None
        }
    }
}

impl IsMatch<u128> for u128 {
    open spec fn match_view(&self, other: &u128) -> Option<CaptureMap> {
        if self == other {
            Some(CaptureMap::empty())
        } else {
            None
        }
    }

    fn is_match(&self, other: &u128) -> (r: Option<MatchResult>) {
        if *self == *other {
            Some(MatchResult::empty())
        } else {
            None
        }
    }
}

/// What a list-form value pattern produces on a character: an absent or
/// empty alternative list accepts every value, a non-empty list accepts a
/// value equal to any of its elements, and a present name records the
/// value under it.
pub open spec fn match_values_char_m(p: MatchValues<char>, v: char) -> Option<CaptureMap> {
    let ok = match p.values {
        None => true,
        Some(vs) => vs@.len() == 0 || (exists|i: int| 0 <= i < vs@.len() && vs@[i] == v),
    };
    if ok {
        Some(
            match p.name {
                Some(n) => CaptureMap::empty().insert(
                    n@,
                    crate::match_result::CaptureView::Char(v),
                ),
                None => CaptureMap::empty(),
            },
        )
    } else {
        None
    }
}

impl MatchValues<char> {
    /// Matches a character against this list-form value pattern.
    pub fn is_match(&self, other: &char) -> (r: Option<MatchResult>)
        ensures
            crate::match_result::opt_result_view(r) == match_values_char_m(*self, *other),
    {
        let ok: bool = match &self.values {
            None => true,
            Some(vs) => {
                if vs.len() == 0 {
                    true
                } else {
                    let mut found = false;
                    let mut i: usize = 0;
                    while i < vs.len()
                        invariant
                            i <= vs@.len(),
                            found ==> (exists|j: int| 0 <= j < vs@.len() && vs@[j] == *other),
                            !found ==> (forall|j: int| 0 <= j < i ==> vs@[j] != *other),
                        decreases vs@.len() - i,
                    {
                        if vs[i] == *other {
                            found = true;
                        }
                        i = i + 1;
                    }
                    found
                }
            },
        };
        if ok {
            let mut m = MatchResult::empty();
            match &self.name {
                Some(n) => {
                    m.insert(n.clone(), crate::match_result::Capture::Char(*other));
                },
                None => {},
            }
            Some(m)
        } else {
            None
        }
    }
}

/// Whether taking a chunk of `k` items for the first quantified element
/// lets the whole list-form sequence pattern match: `k` lies in the first
/// element's range, each of the first `k` items matches the element, and
/// the remaining elements match the remaining items.
pub open spec fn seqs_char_step_ok(
    rs: Seq<Repeat<MatchValues<char>>>,
    vs: Seq<char>,
    k: int,
) -> bool
    decreases rs.len(), 0int,
{
    if rs.len() == 0 {
        false
    } else {
        &&& 0 <= k <= vs.len()
        &&& rs[0].range.spec_contains(k)
        &&& forall|j: int| 0 <= j < k ==> match_values_char_m(rs[0].elmt, #[trigger] vs[j]) is Some
        &&& match_seqs_char_m(rs.drop_first(), vs.skip(k))
    }
}

/// The chunk-size search for the first quantified element, beginning at
/// size `k` and trying larger sizes in ascending order; past the end of
/// the list the search has failed.
pub open spec fn seqs_char_from_m(rs: Seq<Repeat<MatchValues<char>>>, vs: Seq<char>, k: int) -> bool
    decreases rs.len(), vs.len() + 1 - k,
{
    if rs.len() == 0 || !(0 <= k <= vs.len()) {
        false
    } else {
        seqs_char_step_ok(rs, vs, k) || seqs_char_from_m(rs, vs, k + 1)
    }
}

/// Whether a list of characters can be split into consecutive chunks, one
/// chunk per quantified element, each chunk's length lying in its
/// element's repetition range and each of its items matching that
/// element. An empty pattern matches only the empty list.
pub open spec fn match_seqs_char_m(rs: Seq<Repeat<MatchValues<char>>>, vs: Seq<char>) -> bool
    decreases rs.len(), vs.len() + 2,
{
    if rs.len() == 0 {
        vs.len() == 0
    } else {
        seqs_char_from_m(rs, vs, 0)
    }
}

/// When no chunk size from `k` on lets the first element's chunk and the
/// remaining elements match, the search from `k` fails.
proof fn lemma_seqs_char_from_none(rs: Seq<Repeat<MatchValues<char>>>, vs: Seq<char>, k: int)
    requires
        forall|j: int| k <= j ==> !(#[trigger] seqs_char_step_ok(rs, vs, j)),
    ensures
        !seqs_char_from_m(rs, vs, k),
    decreases vs.len() + 1 - k,
{
    if rs.len() > 0 && 0 <= k <= vs.len() {
        assert(!seqs_char_step_ok(rs, vs, k));
        lemma_seqs_char_from_none(rs, vs, k + 1);
        assert(!seqs_char_from_m(rs, vs, k + 1));
        assert(seqs_char_from_m(rs, vs, k) == (seqs_char_step_ok(rs, vs, k) || seqs_char_from_m(
            rs,
            vs,
            k + 1,
        )));
    } else {
        assert(!seqs_char_from_m(rs, vs, k));
    }
}

/// The backtracking chunk search from element `ri` and item position `lo`
/// on: tries every chunk size the current element admits, in ascending
/// order, and recurses on the remaining elements.
fn match_seqs_char_range(
    rs: &Vec<Repeat<MatchValues<char>>>,
    ri: usize,
    vs: &Vec<char>,
    lo: usize,
) -> (r: bool)
    requires
        ri <= rs@.len(),
        lo <= vs@.len(),
    ensures
        r == match_seqs_char_m(rs@.skip(ri as int), vs@.skip(lo as int)),
    decreases rs@.len() - ri,
{
    let ghost grs = rs@.skip(ri as int);
    let ghost gvs = vs@.skip(lo as int);
    if ri == rs.len() {
        return lo == vs.len();
    }
    let rn = rs.len();
    let vn = vs.len();
    let rem = vn - lo;
    let mut k: usize = 0;
    loop
        invariant
            rn == rs@.len(),
            vn == vs@.len(),
            ri < rn,
            lo <= vn,
            k <= rem,
            rem == vn - lo,
            grs == rs@.skip(ri as int),
            gvs == vs@.skip(lo as int),
            grs.len() == rs@.len() - ri,
            gvs.len() == rem,
            forall|j: int| 0 <= j < k ==> match_values_char_m(grs[0].elmt, #[trigger] gvs[j]) is Some,
            seqs_char_from_m(grs, gvs, 0) == seqs_char_from_m(grs, gvs, k as int),
        decreases rem - k,
    {
        proof {
            assert(grs[0] == rs@[ri as int]);
        }
        if rs[ri].range.contains(k) {
            let rest = match_seqs_char_range(rs, ri + 1, vs, lo + k);
            proof {
                assert(rs@.skip(ri as int + 1) =~= grs.drop_first());
                assert(vs@.skip((lo + k) as int) =~= gvs.skip(k as int));
            }
            if rest {
                proof {
                    assert(seqs_char_step_ok(grs, gvs, k as int));
                    assert(seqs_char_from_m(grs, gvs, k as int));
                    assert(match_seqs_char_m(grs, gvs));
                    assert(match_seqs_char_m(rs@.skip(ri as int), vs@.skip(lo as int)));
                }
                return true;
            }
        }
        proof {
            assert(!seqs_char_step_ok(grs, gvs, k as int));
            assert(seqs_char_from_m(grs, gvs, k as int) == seqs_char_from_m(grs, gvs, k + 1));
        }
        if k == rem {
            proof {
                assert(!seqs_char_from_m(grs, gvs, rem + 1));
                assert(!match_seqs_char_m(grs, gvs));
                assert(!match_seqs_char_m(rs@.skip(ri as int), vs@.skip(lo as int)));
            }
            return false;
        }
        proof {
            assert(gvs[k as int] == vs@[(lo + k) as int]);
        }
        let extend = rs[ri].elmt.is_match(&vs[lo + k]);
        if extend.is_none() {
            proof {
                assert forall|kk: int| k as int <= kk implies !(#[trigger] seqs_char_step_ok(
                    grs,
                    gvs,
                    kk,
                )) by {
                    if kk > k && kk <= gvs.len() {
                        assert(match_values_char_m(grs[0].elmt, gvs[k as int]) is None);
                        assert(!seqs_char_step_ok(grs, gvs, kk));
                    }
                }
                lemma_seqs_char_from_none(grs, gvs, k as int);
                assert(!match_seqs_char_m(grs, gvs));
                assert(!match_seqs_char_m(rs@.skip(ri as int), vs@.skip(lo as int)));
            }
            return false;
        }
        k = k + 1;
    }
}

impl MatchSequences<MatchValues<char>> {
    /// Matches a list of characters against this list-form sequence
    /// pattern: the list must split into consecutive chunks, one per
    /// quantified element, chunk lengths within each element's range and
    /// every chunk item matching its element.
    pub fn is_match(&self, other: &Vec<char>) -> (r: bool)
        ensures
            r == match_seqs_char_m(self.seq@, other@),
    {
        let r = match_seqs_char_range(&self.seq, 0, other, 0);
        proof {
            assert(self.seq@.skip(0) =~= self.seq@);
            assert(other@.skip(0) =~= other@);
        }
        r
    }
}

/// What a list-form value pattern produces on a boolean: an absent or
/// empty alternative list accepts every value, a non-empty list accepts a
/// value equal to any of its elements, and a present name records the
/// value under it.
pub open spec fn match_values_bool_m(p: MatchValues<bool>, v: bool) -> Option<CaptureMap> {
    let ok = match p.values {
        None => true,
        Some(vs) => vs@.len() == 0 || (exists|i: int| 0 <= i < vs@.len() && vs@[i] == v),
    };
    if ok {
        Some(
            match p.name {
                Some(n) => CaptureMap::empty().insert(
                    n@,
                    crate::match_result::CaptureView::Bool(v),
                ),
                None => CaptureMap::empty(),
            },
        )
    } else {
        None
    }
}

impl MatchValues<bool> {
    /// Matches a boolean against this list-form value pattern.
    pub fn is_match(&self, other: &bool) -> (r: Option<MatchResult>)
        ensures
            crate::match_result::opt_result_view(r) == match_values_bool_m(*self, *other),
    {
        let ok: bool = match &self.values {
            None => true,
            Some(vs) => {
                if vs.len() == 0 {
                    true
                } else {
                    let mut found = false;
                    let mut i: usize = 0;
                    while i < vs.len()
                        invariant
                            i <= vs@.len(),
                            found ==> (exists|j: int| 0 <= j < vs@.len() && vs@[j] == *other),
                            !found ==> (forall|j: int| 0 <= j < i ==> vs@[j] != *other),
                        decreases vs@.len() - i,
                    {
                        if vs[i] == *other {
                            found = true;
                        }
                        i = i + 1;
                    }
                    found
                }
            },
        };
        if ok {
            let mut m = MatchResult::empty();
            match &self.name {
                Some(n) => {
                    m.insert(n.clone(), crate::match_result::Capture::Bool(*other));
                },
                None => {},
            }
            Some(m)
        } else {
            None
        }
    }
}

/// Whether taking a chunk of `k` items for the first quantified element
/// lets the whole list-form sequence pattern match: `k` lies in the first
/// element's range, each of the first `k` items matches the element, and
/// the remaining elements match the remaining items.
pub open spec fn seqs_bool_step_ok(
    rs: Seq<Repeat<MatchValues<bool>>>,
    vs: Seq<bool>,
    k: int,
) -> bool
    decreases rs.len(), 0int,
{
    if rs.len() == 0 {
        false
    } else {
        &&& 0 <= k <= vs.len()
        &&& rs[0].range.spec_contains(k)
        &&& forall|j: int| 0 <= j < k ==> match_values_bool_m(rs[0].elmt, #[trigger] vs[j]) is Some
        &&& match_seqs_bool_m(rs.drop_first(), vs.skip(k))
    }
}

/// The chunk-size search for the first quantified element, beginning at
/// size `k` and trying larger sizes in ascending order; past the end of
/// the list the search has failed.
pub open spec fn seqs_bool_from_m(rs: Seq<Repeat<MatchValues<bool>>>, vs: Seq<bool>, k: int) -> bool
    decreases rs.len(), vs.len() + 1 - k,
{
    if rs.len() == 0 || !(0 <= k <= vs.len()) {
        false
    } else {
        seqs_bool_step_ok(rs, vs, k) || seqs_bool_from_m(rs, vs, k + 1)
    }
}

/// Whether a list of booleans can be split into consecutive chunks, one
/// chunk per quantified element, each chunk's length lying in its
/// element's repetition range and each of its items matching that
/// element. An empty pattern matches only the empty list.
pub open spec fn match_seqs_bool_m(rs: Seq<Repeat<MatchValues<bool>>>, vs: Seq<bool>) -> bool
    decreases rs.len(), vs.len() + 2,
{
    if rs.len() == 0 {
        vs.len() == 0
    } else {
        seqs_bool_from_m(rs, vs, 0)
    }
}

/// When no chunk size from `k` on lets the first element's chunk and the
/// remaining elements match, the search from `k` fails.
proof fn lemma_seqs_bool_from_none(rs: Seq<Repeat<MatchValues<bool>>>, vs: Seq<bool>, k: int)
    requires
        forall|j: int| k <= j ==> !(#[trigger] seqs_bool_step_ok(rs, vs, j)),
    ensures
        !seqs_bool_from_m(rs, vs, k),
    decreases vs.len() + 1 - k,
{
    if rs.len() > 0 && 0 <= k <= vs.len() {
        assert(!seqs_bool_step_ok(rs, vs, k));
        lemma_seqs_bool_from_none(rs, vs, k + 1);
        assert(!seqs_bool_from_m(rs, vs, k + 1));
        assert(seqs_bool_from_m(rs, vs, k) == (seqs_bool_step_ok(rs, vs, k) || seqs_bool_from_m(
            rs,
            vs,
            k + 1,
        )));
    } else {
        assert(!seqs_bool_from_m(rs, vs, k));
    }
}

/// The backtracking chunk search from element `ri` and item position `lo`
/// on: tries every chunk size the current element admits, in ascending
/// order, and recurses on the remaining elements.
fn match_seqs_bool_range(
    rs: &Vec<Repeat<MatchValues<bool>>>,
    ri: usize,
    vs: &Vec<bool>,
    lo: usize,
) -> (r: bool)
    requires
        ri <= rs@.len(),
        lo <= vs@.len(),
    ensures
        r == match_seqs_bool_m(rs@.skip(ri as int), vs@.skip(lo as int)),
    decreases rs@.len() - ri,
{
    let ghost grs = rs@.skip(ri as int);
    let ghost gvs = vs@.skip(lo as int);
    if ri == rs.len() {
        return lo == vs.len();
    }
    let rn = rs.len();
    let vn = vs.len();
    let rem = vn - lo;
    let mut k: usize = 0;
    loop
        invariant
            rn == rs@.len(),
            vn == vs@.len(),
            ri < rn,
            lo <= vn,
            k <= rem,
            rem == vn - lo,
            grs == rs@.skip(ri as int),
            gvs == vs@.skip(lo as int),
            grs.len() == rs@.len() - ri,
            gvs.len() == rem,
            forall|j: int| 0 <= j < k ==> match_values_bool_m(grs[0].elmt, #[trigger] gvs[j]) is Some,
            seqs_bool_from_m(grs, gvs, 0) == seqs_bool_from_m(grs, gvs, k as int),
        decreases rem - k,
    {
        proof {
            assert(grs[0] == rs@[ri as int]);
        }
        if rs[ri].range.contains(k) {
            let rest = match_seqs_bool_range(rs, ri + 1, vs, lo + k);
            proof {
                assert(rs@.skip(ri as int + 1) =~= grs.drop_first());
                assert(vs@.skip((lo + k) as int) =~= gvs.skip(k as int));
            }
            if rest {
                proof {
                    assert(seqs_bool_step_ok(grs, gvs, k as int));
                    assert(seqs_bool_from_m(grs, gvs, k as int));
                    assert(match_seqs_bool_m(grs, gvs));
                    assert(match_seqs_bool_m(rs@.skip(ri as int), vs@.skip(lo as int)));
                }
                return true;
            }
        }
        proof {
            assert(!seqs_bool_step_ok(grs, gvs, k as int));
            assert(seqs_bool_from_m(grs, gvs, k as int) == seqs_bool_from_m(grs, gvs, k + 1));
        }
        if k == rem {
            proof {
                assert(!seqs_bool_from_m(grs, gvs, rem + 1));
                assert(!match_seqs_bool_m(grs, gvs));
                assert(!match_seqs_bool_m(rs@.skip(ri as int), vs@.skip(lo as int)));
            }
            return false;
        }
        proof {
            assert(gvs[k as int] == vs@[(lo + k) as int]);
        }
        let extend = rs[ri].elmt.is_match(&vs[lo + k]);
        if extend.is_none() {
            proof {
                assert forall|kk: int| k as int <= kk implies !(#[trigger] seqs_bool_step_ok(
                    grs,
                    gvs,
                    kk,
                )) by {
                    if kk > k && kk <= gvs.len() {
                        assert(match_values_bool_m(grs[0].elmt, gvs[k as int]) is None);
                        assert(!seqs_bool_step_ok(grs, gvs, kk));
                    }
                }
                lemma_seqs_bool_from_none(grs, gvs, k as int);
                assert(!match_seqs_bool_m(grs, gvs));
                assert(!match_seqs_bool_m(rs@.skip(ri as int), vs@.skip(lo as int)));
            }
            return false;
        }
        k = k + 1;
    }
}

impl MatchSequences<MatchValues<bool>> {
    /// Matches a list of booleans against this list-form sequence
    /// pattern: the list must split into consecutive chunks, one per
    /// quantified element, chunk lengths within each element's range and
    /// every chunk item matching its element.
    pub fn is_match(&self, other: &Vec<bool>) -> (r: bool)
        ensures
            r == match_seqs_bool_m(self.seq@, other@),
    {
        let r = match_seqs_bool_range(&self.seq, 0, other, 0);
        proof {
            assert(self.seq@.skip(0) =~= self.seq@);
            assert(other@.skip(0) =~= other@);
        }
        r
    }
}

/// What a list-form value pattern produces on an integer: an absent or
/// empty alternative list accepts every value, a non-empty list accepts a
/// value equal to any of its elements, and a present name records the
/// value under it.
pub open spec fn match_values_int_m(p: MatchValues<u128>, v: u128) -> Option<CaptureMap> {
    let ok = match p.values {
        None => true,
        Some(vs) => vs@.len() == 0 || (exists|i: int| 0 <= i < vs@.len() && vs@[i] == v),
    };
    if ok {
        Some(
            match p.name {
                Some(n) => CaptureMap::empty().insert(
                    n@,
                    crate::match_result::CaptureView::Int(v),
                ),
                None => CaptureMap::empty(),
            },
        )
    } else {
        None
    }
}

impl MatchValues<u128> {
    /// Matches an integer against this list-form value pattern.
    pub fn is_match(&self, other: &u128) -> (r: Option<MatchResult>)
        ensures
            crate::match_result::opt_result_view(r) == match_values_int_m(*self, *other),
    {
        let ok: bool = match &self.values {
            None => true,
            Some(vs) => {
                if vs.len() == 0 {
                    true
                } else {
                    let mut found = false;
                    let mut i: usize = 0;
                    while i < vs.len()
                        invariant
                            i <= vs@.len(),
                            found ==> (exists|j: int| 0 <= j < vs@.len() && vs@[j] == *other),
                            !found ==> (forall|j: int| 0 <= j < i ==> vs@[j] != *other),
                        decreases vs@.len() - i,
                    {
                        if vs[i] == *other {
                            found = true;
                        }
                        i = i + 1;
                    }
                    found
                }
            },
        };
        if ok {
            let mut m = MatchResult::empty();
            match &self.name {
                Some(n) => {
                    m.insert(n.clone(), crate::match_result::Capture::Int(*other));
                },
                None => {},
            }
            Some(m)
        } else {
            None
        }
    }
}

/// Whether taking a chunk of `k` items for the first quantified element
/// lets the whole list-form sequence pattern match: `k` lies in the first
/// element's range, each of the first `k` items matches the element, and
/// the remaining elements match the remaining items.
pub open spec fn seqs_int_step_ok(
    rs: Seq<Repeat<MatchValues<u128>>>,
    vs: Seq<u128>,
    k: int,
) -> bool
    decreases rs.len(), 0int,
{
    if rs.len() == 0 {
        false
    } else {
        &&& 0 <= k <= vs.len()
        &&& rs[0].range.spec_contains(k)
        &&& forall|j: int| 0 <= j < k ==> match_values_int_m(rs[0].elmt, #[trigger] vs[j]) is Some
        &&& match_seqs_int_m(rs.drop_first(), vs.skip(k))
    }
}

/// The chunk-size search for the first quantified element, beginning at
/// size `k` and trying larger sizes in ascending order; past the end of
/// the list the search has failed.
pub open spec fn seqs_int_from_m(rs: Seq<Repeat<MatchValues<u128>>>, vs: Seq<u128>, k: int) -> bool
    decreases rs.len(), vs.len() + 1 - k,
{
    if rs.len() == 0 || !(0 <= k <= vs.len()) {
        false
    } else {
        seqs_int_step_ok(rs, vs, k) || seqs_int_from_m(rs, vs, k + 1)
    }
}

/// Whether a list of integers can be split into consecutive chunks, one
/// chunk per quantified element, each chunk's length lying in its
/// element's repetition range and each of its items matching that
/// element. An empty pattern matches only the empty list.
pub open spec fn match_seqs_int_m(rs: Seq<Repeat<MatchValues<u128>>>, vs: Seq<u128>) -> bool
    decreases rs.len(), vs.len() + 2,
{
    if rs.len() == 0 {
        vs.len() == 0
    } else {
        seqs_int_from_m(rs, vs, 0)
    }
}

/// When no chunk size from `k` on lets the first element's chunk and the
/// remaining elements match, the search from `k` fails.
proof fn lemma_seqs_int_from_none(rs: Seq<Repeat<MatchValues<u128>>>, vs: Seq<u128>, k: int)
    requires
        forall|j: int| k <= j ==> !(#[trigger] seqs_int_step_ok(rs, vs, j)),
    ensures
        !seqs_int_from_m(rs, vs, k),
    decreases vs.len() + 1 - k,
{
    if rs.len() > 0 && 0 <= k <= vs.len() {
        assert(!seqs_int_step_ok(rs, vs, k));
        lemma_seqs_int_from_none(rs, vs, k + 1);
        assert(!seqs_int_from_m(rs, vs, k + 1));
        assert(seqs_int_from_m(rs, vs, k) == (seqs_int_step_ok(rs, vs, k) || seqs_int_from_m(
            rs,
            vs,
            k + 1,
        )));
    } else {
        assert(!seqs_int_from_m(rs, vs, k));
    }
}

/// The backtracking chunk search from element `ri` and item position `lo`
/// on: tries every chunk size the current element admits, in ascending
/// order, and recurses on the remaining elements.
fn match_seqs_int_range(
    rs: &Vec<Repeat<MatchValues<u128>>>,
    ri: usize,
    vs: &Vec<u128>,
    lo: usize,
) -> (r: bool)
    requires
        ri <= rs@.len(),
        lo <= vs@.len(),
    ensures
        r == match_seqs_int_m(rs@.skip(ri as int), vs@.skip(lo as int)),
    decreases rs@.len() - ri,
{
    let ghost grs = rs@.skip(ri as int);
    let ghost gvs = vs@.skip(lo as int);
    if ri == rs.len() {
        return lo == vs.len();
    }
    let rn = rs.len();
    let vn = vs.len();
    let rem = vn - lo;
    let mut k: usize = 0;
    loop
        invariant
            rn == rs@.len(),
            vn == vs@.len(),
            ri < rn,
            lo <= vn,
            k <= rem,
            rem == vn - lo,
            grs == rs@.skip(ri as int),
            gvs == vs@.skip(lo as int),
            grs.len() == rs@.len() - ri,
            gvs.len() == rem,
            forall|j: int| 0 <= j < k ==> match_values_int_m(grs[0].elmt, #[trigger] gvs[j]) is Some,
            seqs_int_from_m(grs, gvs, 0) == seqs_int_from_m(grs, gvs, k as int),
        decreases rem - k,
    {
        proof {
            assert(grs[0] == rs@[ri as int]);
        }
        if rs[ri].range.contains(k) {
            let rest = match_seqs_int_range(rs, ri + 1, vs, lo + k);
            proof {
                assert(rs@.skip(ri as int + 1) =~= grs.drop_first());
                assert(vs@.skip((lo + k) as int) =~= gvs.skip(k as int));
            }
            if rest {
                proof {
                    assert(seqs_int_step_ok(grs, gvs, k as int));
                    assert(seqs_int_from_m(grs, gvs, k as int));
                    assert(match_seqs_int_m(grs, gvs));
                    assert(match_seqs_int_m(rs@.skip(ri as int), vs@.skip(lo as int)));
                }
                return true;
            }
        }
        proof {
            assert(!seqs_int_step_ok(grs, gvs, k as int));
            assert(seqs_int_from_m(grs, gvs, k as int) == seqs_int_from_m(grs, gvs, k + 1));
        }
        if k == rem {
            proof {
                assert(!seqs_int_from_m(grs, gvs, rem + 1));
                assert(!match_seqs_int_m(grs, gvs));
                assert(!match_seqs_int_m(rs@.skip(ri as int), vs@.skip(lo as int)));
            }
            return false;
        }
        proof {
            assert(gvs[k as int] == vs@[(lo + k) as int]);
        }
        let extend = rs[ri].elmt.is_match(&vs[lo + k]);
        if extend.is_none() {
            proof {
                assert forall|kk: int| k as int <= kk implies !(#[trigger] seqs_int_step_ok(
                    grs,
                    gvs,
                    kk,
                )) by {
                    if kk > k && kk <= gvs.len() {
                        assert(match_values_int_m(grs[0].elmt, gvs[k as int]) is None);
                        assert(!seqs_int_step_ok(grs, gvs, kk));
                    }
                }
                lemma_seqs_int_from_none(grs, gvs, k as int);
                assert(!match_seqs_int_m(grs, gvs));
                assert(!match_seqs_int_m(rs@.skip(ri as int), vs@.skip(lo as int)));
            }
            return false;
        }
        k = k + 1;
    }
}

impl MatchSequences<MatchValues<u128>> {
    /// Matches a list of integers against this list-form sequence
    /// pattern: the list must split into consecutive chunks, one per
    /// quantified element, chunk lengths within each element's range and
    /// every chunk item matching its element.
    pub fn is_match(&self, other: &Vec<u128>) -> (r: bool)
        ensures
            r == match_seqs_int_m(self.seq@, other@),
    {
        let r = match_seqs_int_range(&self.seq, 0, other, 0);
        proof {
            assert(self.seq@.skip(0) =~= self.seq@);
            assert(other@.skip(0) =~= other@);
        }
        r
    }
}

} // verus!
