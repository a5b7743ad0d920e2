//! Match results: an accumulator of named captures, and the join operation
//! that merges two optional results.
//!
//! Failure of a match is represented by the absence of a result (`None`),
//! never by a result carrying an error flag. The view of a result is the
//! mathematical map from capture names to captured values; when the same
//! name is written twice, the later write wins.

use vstd::prelude::*;

use crate::ast::{expr_seq_view, opt_expr_view, stmt_seq_view, Expr, ExprView, Lit, Stmt, StmtView};

verus! {

broadcast use vstd::std_specs::vec::group_vec_axioms, vstd::seq::group_seq_axioms;

/// A value recorded under a capture name: an owned representation of the
/// concrete value (or span of values) that satisfied the named pattern
/// piece.
#[derive(Debug, PartialEq)]
pub enum Capture {
    Char(char),
    Bool(bool),
    Int(u128),
    Lit(Lit),
    Expr(Expr),
    Stmt(Stmt),
    ExprList(Vec<Expr>),
    StmtList(Vec<Stmt>),
    OptExpr(Option<Box<Expr>>),
}

/// The mathematical shape of a captured value.
pub enum CaptureView {
    Char(char),
    Bool(bool),
    Int(u128),
    Lit(Lit),
    Expr(ExprView),
    Stmt(StmtView),
    ExprList(Seq<ExprView>),
    StmtList(Seq<StmtView>),
    OptExpr(Option<Box<ExprView>>),
}

impl DeepView for Capture {
    type V = CaptureView;

    open spec fn deep_view(&self) -> CaptureView {
        match self {
            Capture::Char(c) => CaptureView::Char(*c),
            Capture::Bool(b) => CaptureView::Bool(*b),
            Capture::Int(i) => CaptureView::Int(*i),
            Capture::Lit(l) => CaptureView::Lit(*l),
            Capture::Expr(e) => CaptureView::Expr(e.deep_view()),
            Capture::Stmt(st) => CaptureView::Stmt(st.deep_view()),
            Capture::ExprList(es) => CaptureView::ExprList(expr_seq_view(es@)),
            Capture::StmtList(ss) => CaptureView::StmtList(stmt_seq_view(ss@)),
            Capture::OptExpr(o) => CaptureView::OptExpr(opt_expr_view(*o)),
        }
    }
}

/// A capture map as mathematics: names to captured values.
pub type CaptureMap = Map<Seq<char>, CaptureView>;

/// The views of the recorded entries, in the order they were written.
pub open spec fn entries_view(s: Seq<(String, Capture)>) -> Seq<(Seq<char>, CaptureView)> {
    s.map_values(|p: (String, Capture)| (p.0@, p.1.deep_view()))
}

/// The map described by a list of entries: each entry overwrites earlier
/// writes of the same name.
pub open spec fn entries_map(s: Seq<(Seq<char>, CaptureView)>) -> CaptureMap
    decreases s.len(),
{
    if s.len() == 0 {
        Map::empty()
    } else {
        entries_map(s.drop_last()).insert(s.last().0, s.last().1)
    }
}

/// An accumulator of named captures.
#[derive(Debug, PartialEq)]
pub struct MatchResult {
    pub captures: Vec<(String, Capture)>,
}

impl View for MatchResult {
    type V = CaptureMap;

    open spec fn view(&self) -> CaptureMap {
        entries_map(entries_view(self.captures@))
    }
}

impl MatchResult {
    /// The neutral element for merging: a result with no captures.
    pub fn empty() -> (r: MatchResult)
        ensures
            r@ == CaptureMap::empty(),
    {
        let r = MatchResult { captures: Vec::new() };
        proof {
            assert(entries_view(r.captures@) =~= Seq::empty());
        }
        r
    }

    /// Records a capture; a name recorded before is overwritten.
    pub fn insert(&mut self, name: String, value: Capture)
        ensures
            final(self)@ == old(self)@.insert(name@, value.deep_view()),
    {
        proof {
            let s = entries_view(self.captures@);
            assert(entries_view(self.captures@.push((name, value))) =~= s.push(
                (name@, value.deep_view()),
            ));
            assert(s.push((name@, value.deep_view())).drop_last() =~= s);
        }
        self.captures.push((name, value));
    }

    /// Looks a capture name up; the latest write under that name wins.
    pub fn get(&self, name: &String) -> (r: Option<&Capture>)
        ensures
            match r {
                Some(c) => self@.contains_key(name@) && c.deep_view() == self@[name@],
                None => !self@.contains_key(name@),
            },
    {
        let n = self.captures.len();
        let mut i: usize = n;
        while i > 0
            invariant
                i <= n,
                n == self.captures@.len(),
                forall|j: int| i <= j < n ==> (#[trigger] self.captures@[j].0)@ != name@,
            decreases i,
        {
            i = i - 1;
            if self.captures[i].0 == *name {
                proof {
                    lemma_entries_map_found(entries_view(self.captures@), name@, i as int);
                }
                return Some(&self.captures[i].1);
            }
        }
        proof {
            lemma_entries_map_absent(entries_view(self.captures@), name@);
        }
        None
    }
}

/// When every entry carries another name, the map has no binding for this
/// one.
proof fn lemma_entries_map_absent(s: Seq<(Seq<char>, CaptureView)>, k: Seq<char>)
    requires
        forall|j: int| 0 <= j < s.len() ==> (#[trigger] s[j]).0 != k,
    ensures
        !entries_map(s).contains_key(k),
    decreases s.len(),
{
    if s.len() > 0 {
        lemma_entries_map_absent(s.drop_last(), k);
    }
}

/// The binding for a name is the latest entry that carries it.
proof fn lemma_entries_map_found(s: Seq<(Seq<char>, CaptureView)>, k: Seq<char>, i: int)
    requires
        0 <= i < s.len(),
        s[i].0 == k,
        forall|j: int| i < j < s.len() ==> (#[trigger] s[j]).0 != k,
    ensures
        entries_map(s).contains_key(k),
        entries_map(s)[k] == s[i].1,
    decreases s.len(),
{
    if i == s.len() - 1 {
    } else {
        lemma_entries_map_found(s.drop_last(), k, i);
    }
}

/// Merges two optional capture maps: failure on either side is failure,
/// and on success the right map's writes win on a shared name.
pub open spec fn join_caps(a: Option<CaptureMap>, b: Option<CaptureMap>) -> Option<CaptureMap> {
    match (a, b) {
        (Some(x), Some(y)) => Some(x.union_prefer_right(y)),
        _ => None,
    }
}

/// The view of an optional match result.
pub open spec fn opt_result_view(r: Option<MatchResult>) -> Option<CaptureMap> {
    match r {
        Some(m) => Some(m@),
        None => None,
    }
}

/// A list of entries written after another describes the overlay of the two
/// maps, later writes winning.
proof fn lemma_entries_map_add(s: Seq<(Seq<char>, CaptureView)>, t: Seq<(Seq<char>, CaptureView)>)
    ensures
        entries_map(s + t) == entries_map(s).union_prefer_right(entries_map(t)),
    decreases t.len(),
{
    if t.len() == 0 {
        assert(s + t =~= s);
        assert(entries_map(s).union_prefer_right(Map::empty()) =~= entries_map(s));
    } else {
        let t0 = t.drop_last();
        lemma_entries_map_add(s, t0);
        assert((s + t).drop_last() =~= s + t0);
        assert(entries_map(s).union_prefer_right(entries_map(t0)).insert(t.last().0, t.last().1)
            =~= entries_map(s).union_prefer_right(entries_map(t0).insert(t.last().0, t.last().1)));
    }
}

/// Merges two results by writing the right one's captures after the left
/// one's: on a shared name the right side wins.
pub fn merge(a: MatchResult, b: MatchResult) -> (r: MatchResult)
    ensures
        r@ == a@.union_prefer_right(b@),
{
    let mut x = a;
    let mut y = b;
    proof {
        lemma_entries_map_add(entries_view(x.captures@), entries_view(y.captures@));
        assert(entries_view(x.captures@ + y.captures@) =~= entries_view(x.captures@)
            + entries_view(y.captures@));
    }
    x.captures.append(&mut y.captures);
    x
}

/// Joins two optional match results: if either side failed, the join fails;
/// otherwise the capture maps are overlaid, the right side winning on a
/// shared name. This is the only way sibling results combine, so failure
/// propagates without special cases.
pub fn join(a: Option<MatchResult>, b: Option<MatchResult>) -> (r: Option<MatchResult>)
    ensures
        opt_result_view(r) == join_caps(opt_result_view(a), opt_result_view(b)),
{
    match (a, b) {
        (Some(x), Some(y)) => Some(merge(x, y)),
        _ => None,
    }
}

} // verus!
