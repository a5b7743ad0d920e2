//! The matching engine: what it means for a pattern to match a concrete
//! tree, and the executable matcher proved against that meaning.
//!
//! The spec functions in this module are the mathematical model: each takes
//! a pattern and the view of a concrete value and yields the capture map of
//! the match, or `None` when the match fails. The executable functions
//! return exactly what the model describes.

use vstd::prelude::*;

use crate::ast;
use crate::ast::{ExprView, StmtView};
use crate::match_result::{join, join_caps, merge, opt_result_view, Capture, CaptureMap, CaptureView, MatchResult};
use crate::matchers::{Alt, Opt, Sequence};
use crate::pattern_tree;
use crate::repeat::RepeatRange;

verus! {

broadcast use vstd::std_specs::vec::group_vec_axioms, vstd::seq::group_seq_axioms;

/// What a value pattern over characters produces on a character: `Any`
/// matches all, a single alternative matches by equality, `Alt` returns its
/// first succeeding side, and `Named` also records the character.
pub open spec fn alt_char_m(p: Alt<char>, v: char) -> Option<CaptureMap>
    decreases p,
{
    match p {
        Alt::Any => Some(CaptureMap::empty()),
        Alt::Elmt(c) => if *c == v {
            Some(CaptureMap::empty())
        } else {
            None
        },
        Alt::Alt(a, b) => if alt_char_m(*a, v) is Some {
            alt_char_m(*a, v)
        } else {
            alt_char_m(*b, v)
        },
        Alt::Named(q, name) => match alt_char_m(*q, v) {
            Some(m) => Some(m.insert(name@, CaptureView::Char(v))),
            None => None,
        },
    }
}

/// What a value pattern over booleans produces on a boolean.
pub open spec fn alt_bool_m(p: Alt<bool>, v: bool) -> Option<CaptureMap>
    decreases p,
{
    match p {
        Alt::Any => Some(CaptureMap::empty()),
        Alt::Elmt(c) => if *c == v {
            Some(CaptureMap::empty())
        } else {
            None
        },
        Alt::Alt(a, b) => if alt_bool_m(*a, v) is Some {
            alt_bool_m(*a, v)
        } else {
            alt_bool_m(*b, v)
        },
        Alt::Named(q, name) => match alt_bool_m(*q, v) {
            Some(m) => Some(m.insert(name@, CaptureView::Bool(v))),
            None => None,
        },
    }
}

/// What a value pattern over integers produces on an integer.
pub open spec fn alt_int_m(p: Alt<u128>, v: u128) -> Option<CaptureMap>
    decreases p,
{
    match p {
        Alt::Any => Some(CaptureMap::empty()),
        Alt::Elmt(c) => if *c == v {
            Some(CaptureMap::empty())
        } else {
            None
        },
        Alt::Alt(a, b) => if alt_int_m(*a, v) is Some {
            alt_int_m(*a, v)
        } else {
            alt_int_m(*b, v)
        },
        Alt::Named(q, name) => match alt_int_m(*q, v) {
            Some(m) => Some(m.insert(name@, CaptureView::Int(v))),
            None => None,
        },
    }
}

/// What a literal pattern produces on a literal: the pattern's variant must
/// agree with the value's, and the payload pattern must match the payload.
pub open spec fn lit_m(p: pattern_tree::Lit, v: ast::Lit) -> Option<CaptureMap>
    decreases p,
{
    match (p, v) {
        (pattern_tree::Lit::Char(a), ast::Lit::Char(c)) => alt_char_m(a, c),
        (pattern_tree::Lit::Bool(a), ast::Lit::Bool(b)) => alt_bool_m(a, b),
        (pattern_tree::Lit::Int(a), ast::Lit::Int(i)) => alt_int_m(a, i),
        _ => None,
    }
}

/// What a value pattern over literal patterns produces on a literal.
pub open spec fn alt_lit_m(p: Alt<pattern_tree::Lit>, v: ast::Lit) -> Option<CaptureMap>
    decreases p,
{
    match p {
        Alt::Any => Some(CaptureMap::empty()),
        Alt::Elmt(t) => lit_m(*t, v),
        Alt::Alt(a, b) => if alt_lit_m(*a, v) is Some {
            alt_lit_m(*a, v)
        } else {
            alt_lit_m(*b, v)
        },
        Alt::Named(q, name) => match alt_lit_m(*q, v) {
            Some(m) => Some(m.insert(name@, CaptureView::Lit(v))),
            None => None,
        },
    }
}

/// What an expression pattern produces on an expression: the node kinds
/// must agree, and each payload position must match, the sub-results
/// joined left to right in the order the children stand in the node.
pub open spec fn expr_m(p: pattern_tree::Expr, v: ExprView) -> Option<CaptureMap>
    decreases p, 1int, 0int,
{
    match (p, v) {
        (pattern_tree::Expr::Lit(a), ExprView::Lit(l)) => alt_lit_m(a, l),
        (pattern_tree::Expr::Array(sp), ExprView::Array(es)) => seq_expr_m(sp, es),
        (pattern_tree::Expr::Block(bp), ExprView::Block(ss)) => seq_stmt_m(bp, ss),
        (pattern_tree::Expr::If(cp, tp, ep), ExprView::If(cv, tv, ev)) => join_caps(
            join_caps(alt_expr_m(cp, *cv), seq_stmt_m(tp, tv)),
            opt_expr_m(ep, ev),
        ),
        (pattern_tree::Expr::IfLet(tp, ep), ExprView::IfLet(tv, ev)) => join_caps(
            seq_stmt_m(tp, tv),
            opt_expr_m(ep, ev),
        ),
        _ => None,
    }
}

/// What a value pattern over expression patterns produces on an
/// expression.
pub open spec fn alt_expr_m(p: Alt<pattern_tree::Expr>, v: ExprView) -> Option<CaptureMap>
    decreases p, 1int, 0int,
{
    match p {
        Alt::Any => Some(CaptureMap::empty()),
        Alt::Elmt(t) => expr_m(*t, v),
        Alt::Alt(a, b) => if alt_expr_m(*a, v) is Some {
            alt_expr_m(*a, v)
        } else {
            alt_expr_m(*b, v)
        },
        Alt::Named(q, name) => match alt_expr_m(*q, v) {
            Some(m) => Some(m.insert(name@, CaptureView::Expr(v))),
            None => None,
        },
    }
}

/// What a statement pattern produces on a statement.
pub open spec fn stmt_m(p: pattern_tree::Stmt, v: StmtView) -> Option<CaptureMap>
    decreases p, 1int, 0int,
{
    match (p, v) {
        (pattern_tree::Stmt::Expr(a), StmtView::Expr(e)) => alt_expr_m(a, e),
        (pattern_tree::Stmt::Semi(a), StmtView::Semi(e)) => alt_expr_m(a, e),
        _ => None,
    }
}

/// What a value pattern over statement patterns produces on a statement.
pub open spec fn alt_stmt_m(p: Alt<pattern_tree::Stmt>, v: StmtView) -> Option<CaptureMap>
    decreases p, 1int, 0int,
{
    match p {
        Alt::Any => Some(CaptureMap::empty()),
        Alt::Elmt(t) => stmt_m(*t, v),
        Alt::Alt(a, b) => if alt_stmt_m(*a, v) is Some {
            alt_stmt_m(*a, v)
        } else {
            alt_stmt_m(*b, v)
        },
        Alt::Named(q, name) => match alt_stmt_m(*q, v) {
            Some(m) => Some(m.insert(name@, CaptureView::Stmt(v))),
            None => None,
        },
    }
}

/// What an optional-slot pattern produces on a slot: `Any` requires a
/// value, `Absent` requires none, `Elmt` requires a value matching the
/// node pattern, `Alt` requires both sides to hold and joins their
/// captures, and `Named` also records the slot's content.
pub open spec fn opt_expr_m(p: Opt<pattern_tree::Expr>, v: Option<Box<ExprView>>) -> Option<
    CaptureMap,
>
    decreases p, 1int, 0int,
{
    match p {
        Opt::Any => if v is Some {
            Some(CaptureMap::empty())
        } else {
            None
        },
        Opt::Elmt(t) => match v {
            Some(b) => expr_m(*t, *b),
            None => None,
        },
        Opt::Absent => if v is None {
            Some(CaptureMap::empty())
        } else {
            None
        },
        Opt::Alt(a, b) => join_caps(opt_expr_m(*a, v), opt_expr_m(*b, v)),
        Opt::Named(q, name) => match opt_expr_m(*q, v) {
            Some(m) => Some(m.insert(name@, CaptureView::OptExpr(v))),
            None => None,
        },
    }
}

/// The split search of a concatenation, beginning at split point `i`: the
/// first split point, in ascending order, where the left side matches the
/// prefix and the right side the suffix, wins; past the end of the list
/// the search has failed.
pub open spec fn seq_expr_concat_m(
    p: Sequence<pattern_tree::Expr>,
    vs: Seq<ExprView>,
    i: int,
) -> Option<CaptureMap>
    decreases p, 0int, vs.len() + 1 - i,
{
    match p {
        Sequence::Concat(a, b) => if 0 <= i <= vs.len() {
            let here = join_caps(seq_expr_m(*a, vs.take(i)), seq_expr_m(*b, vs.skip(i)));
            if here is Some {
                here
            } else {
                seq_expr_concat_m(p, vs, i + 1)
            }
        } else {
            None
        },
        _ => None,
    }
}

/// The captures of a repetition whose every item matches: the per-item
/// capture maps joined left to right.
pub open spec fn rep_expr_caps(t: Alt<pattern_tree::Expr>, vs: Seq<ExprView>) -> CaptureMap
    decreases t, 2int, vs.len(),
{
    if vs.len() == 0 {
        CaptureMap::empty()
    } else {
        rep_expr_caps(t, vs.drop_last()).union_prefer_right(
            alt_expr_m(t, vs.last())->Some_0,
        )
    }
}

/// What a sequence pattern produces on an ordered list of expressions.
///
/// A concatenation tries every split point in ascending order and keeps
/// the first one where both sides match; a repetition requires the item
/// count to lie in its range and every single item to match its element
/// pattern.
pub open spec fn seq_expr_m(p: Sequence<pattern_tree::Expr>, vs: Seq<ExprView>) -> Option<
    CaptureMap,
>
    decreases p, 1int, 0int,
{
    match p {
        Sequence::Empty => if vs.len() == 0 {
            Some(CaptureMap::empty())
        } else {
            None
        },
        Sequence::Any => if vs.len() == 1 {
            Some(CaptureMap::empty())
        } else {
            None
        },
        Sequence::Elmt(t) => if vs.len() == 1 {
            alt_expr_m(*t, vs[0])
        } else {
            None
        },
        Sequence::Repeat(t, r) => if r.start == 0 && vs.len() == 0 {
            Some(CaptureMap::empty())
        } else if r.spec_contains(vs.len() as int) && (forall|i: int|
            0 <= i < vs.len() ==> alt_expr_m(*t, #[trigger] vs[i]) is Some) {
            Some(rep_expr_caps(*t, vs))
        } else {
            None
        },
        Sequence::Concat(_, _) => seq_expr_concat_m(p, vs, 0),
        Sequence::Alt(a, b) => if seq_expr_m(*a, vs) is Some {
            seq_expr_m(*a, vs)
        } else {
            seq_expr_m(*b, vs)
        },
        Sequence::Named(q, name) => match seq_expr_m(*q, vs) {
            Some(m) => Some(m.insert(name@, CaptureView::ExprList(vs))),
            None => None,
        },
    }
}

/// The split search of a concatenation, beginning at split point `i`: the
/// first split point, in ascending order, where the left side matches the
/// prefix and the right side the suffix, wins; past the end of the list
/// the search has failed.
pub open spec fn seq_stmt_concat_m(
    p: Sequence<pattern_tree::Stmt>,
    vs: Seq<StmtView>,
    i: int,
) -> Option<CaptureMap>
    decreases p, 0int, vs.len() + 1 - i,
{
    match p {
        Sequence::Concat(a, b) => if 0 <= i <= vs.len() {
            let here = join_caps(seq_stmt_m(*a, vs.take(i)), seq_stmt_m(*b, vs.skip(i)));
            if here is Some {
                here
            } else {
                seq_stmt_concat_m(p, vs, i + 1)
            }
        } else {
            None
        },
        _ => None,
    }
}

/// The captures of a repetition whose every item matches: the per-item
/// capture maps joined left to right.
pub open spec fn rep_stmt_caps(t: Alt<pattern_tree::Stmt>, vs: Seq<StmtView>) -> CaptureMap
    decreases t, 2int, vs.len(),
{
    if vs.len() == 0 {
        CaptureMap::empty()
    } else {
        rep_stmt_caps(t, vs.drop_last()).union_prefer_right(
            alt_stmt_m(t, vs.last())->Some_0,
        )
    }
}

/// What a sequence pattern produces on an ordered list of statements.
pub open spec fn seq_stmt_m(p: Sequence<pattern_tree::Stmt>, vs: Seq<StmtView>) -> Option<
    CaptureMap,
>
    decreases p, 1int, 0int,
{
    match p {
        Sequence::Empty => if vs.len() == 0 {
            Some(CaptureMap::empty())
        } else {
            None
        },
        Sequence::Any => if vs.len() == 1 {
            Some(CaptureMap::empty())
        } else {
            None
        },
        Sequence::Elmt(t) => if vs.len() == 1 {
            alt_stmt_m(*t, vs[0])
        } else {
            None
        },
        Sequence::Repeat(t, r) => if r.start == 0 && vs.len() == 0 {
            Some(CaptureMap::empty())
        } else if r.spec_contains(vs.len() as int) && (forall|i: int|
            0 <= i < vs.len() ==> alt_stmt_m(*t, #[trigger] vs[i]) is Some) {
            Some(rep_stmt_caps(*t, vs))
        } else {
            None
        },
        Sequence::Concat(_, _) => seq_stmt_concat_m(p, vs, 0),
        Sequence::Alt(a, b) => if seq_stmt_m(*a, vs) is Some {
            seq_stmt_m(*a, vs)
        } else {
            seq_stmt_m(*b, vs)
        },
        Sequence::Named(q, name) => match seq_stmt_m(*q, vs) {
            Some(m) => Some(m.insert(name@, CaptureView::StmtList(vs))),
            None => None,
        },
    }
}

/// The interval of list lengths a sequence pattern can possibly consume,
/// computed structurally: a lower bound, and an exclusive upper bound that
/// is absent when the pattern can consume unboundedly many items.
pub open spec fn seq_expr_len_range(p: Sequence<pattern_tree::Expr>) -> (int, Option<int>)
    decreases p,
{
    match p {
        Sequence::Empty => (0int, Some(1int)),
        Sequence::Any => (1int, Some(2int)),
        Sequence::Elmt(_) => (1int, Some(2int)),
        Sequence::Repeat(_, r) => (
            r.start as int,
            match r.end {
                Some(e) => Some(
                    if r.start == 0 && e < 1 {
                        1int
                    } else {
                        e as int
                    },
                ),
                None => None,
            },
        ),
        Sequence::Concat(a, b) => {
            let ra = seq_expr_len_range(*a);
            let rb = seq_expr_len_range(*b);
            (
                ra.0 + rb.0,
                match (ra.1, rb.1) {
                    (Some(x), Some(y)) => Some(x + y - 1),
                    _ => None,
                },
            )
        },
        Sequence::Alt(a, b) => {
            let ra = seq_expr_len_range(*a);
            let rb = seq_expr_len_range(*b);
            (
                if ra.0 <= rb.0 {
                    ra.0
                } else {
                    rb.0
                },
                match (ra.1, rb.1) {
                    (Some(x), Some(y)) => Some(
                        if x >= y {
                            x
                        } else {
                            y
                        },
                    ),
                    _ => None,
                },
            )
        },
        Sequence::Named(q, _) => seq_expr_len_range(*q),
    }
}

/// A split search that succeeded did so at some split point at or beyond
/// where it began; returns that split point.
pub(crate) proof fn lemma_seq_expr_concat_witness(
    p: Sequence<pattern_tree::Expr>,
    vs: Seq<ExprView>,
    i: int,
) -> (k: int)
    requires
        p is Concat,
        seq_expr_concat_m(p, vs, i) is Some,
    ensures
        i <= k <= vs.len(),
        seq_expr_m(*p->Concat_0, vs.take(k)) is Some,
        seq_expr_m(*p->Concat_1, vs.skip(k)) is Some,
    decreases vs.len() + 1 - i,
{
    if join_caps(seq_expr_m(*p->Concat_0, vs.take(i)), seq_expr_m(*p->Concat_1, vs.skip(i)))
        is Some {
        i
    } else {
        lemma_seq_expr_concat_witness(p, vs, i + 1)
    }
}

/// A successful match consumes a length inside the pattern's structural
/// interval: the search space of a concatenation can be pruned to that
/// interval without losing any match.
pub proof fn lemma_seq_expr_match_len(p: Sequence<pattern_tree::Expr>, vs: Seq<ExprView>)
    requires
        seq_expr_m(p, vs) is Some,
    ensures
        seq_expr_len_range(p).0 <= vs.len(),
        match seq_expr_len_range(p).1 {
            Some(e) => vs.len() < e,
            None => true,
        },
    decreases p,
{
    match p {
        Sequence::Concat(a, b) => {
            let k = lemma_seq_expr_concat_witness(p, vs, 0);
            lemma_seq_expr_match_len(*a, vs.take(k));
            lemma_seq_expr_match_len(*b, vs.skip(k));
        },
        Sequence::Alt(a, b) => {
            if seq_expr_m(*a, vs) is Some {
                lemma_seq_expr_match_len(*a, vs);
            } else {
                lemma_seq_expr_match_len(*b, vs);
            }
        },
        Sequence::Named(q, _) => {
            lemma_seq_expr_match_len(*q, vs);
        },
        _ => {},
    }
}

/// Stepping the split search past split points where the left side cannot
/// match leaves its outcome unchanged.
proof fn lemma_seq_expr_concat_advance(
    p: Sequence<pattern_tree::Expr>,
    vs: Seq<ExprView>,
    i: int,
    j: int,
)
    requires
        p is Concat,
        0 <= i <= j <= vs.len() + 1,
        forall|k: int|
            i <= k < j ==> join_caps(
                seq_expr_m(*p->Concat_0, vs.take(k)),
                seq_expr_m(*p->Concat_1, #[trigger] vs.skip(k)),
            ) is None,
    ensures
        seq_expr_concat_m(p, vs, i) == seq_expr_concat_m(p, vs, j),
    decreases j - i,
{
    if i < j {
        assert(join_caps(seq_expr_m(*p->Concat_0, vs.take(i)), seq_expr_m(*p->Concat_1, vs.skip(i)))
            is None);
        lemma_seq_expr_concat_advance(p, vs, i + 1, j);
    }
}

/// The interval that `num_elmts_range` computes, as mathematics: the
/// structural interval with its lower bound clamped to the largest
/// representable count and its upper end recorded as unbounded when it
/// cannot be represented.
pub open spec fn seq_expr_num_range_s(p: Sequence<pattern_tree::Expr>) -> RepeatRange
    decreases p,
{
    match p {
        Sequence::Empty => RepeatRange { start: 0, end: Some(1) },
        Sequence::Any => RepeatRange { start: 1, end: Some(2) },
        Sequence::Elmt(_) => RepeatRange { start: 1, end: Some(2) },
        Sequence::Repeat(_, r) => if r.start == 0 && r.end == Some(0usize) {
            RepeatRange { start: 0, end: Some(1) }
        } else {
            r
        },
        Sequence::Concat(a, b) => {
            let ra = seq_expr_num_range_s(*a);
            let rb = seq_expr_num_range_s(*b);
            RepeatRange {
                start: if ra.start + rb.start > usize::MAX {
                    usize::MAX
                } else {
                    (ra.start + rb.start) as usize
                },
                end: match (ra.end, rb.end) {
                    (Some(x), Some(y)) => if x == 0 && y == 0 {
                        Some(0usize)
                    } else if x + y - 1 > usize::MAX {
                        None
                    } else {
                        Some((x + y - 1) as usize)
                    },
                    _ => None,
                },
            }
        },
        Sequence::Alt(a, b) => {
            let ra = seq_expr_num_range_s(*a);
            let rb = seq_expr_num_range_s(*b);
            RepeatRange {
                start: if ra.start <= rb.start {
                    ra.start
                } else {
                    rb.start
                },
                end: match (ra.end, rb.end) {
                    (Some(x), Some(y)) => Some(
                        if x >= y {
                            x
                        } else {
                            y
                        },
                    ),
                    _ => None,
                },
            }
        },
        Sequence::Named(q, _) => seq_expr_num_range_s(*q),
    }
}

impl Sequence<pattern_tree::Expr> {
    /// The interval of list lengths this pattern can possibly consume. The
    /// lower bound never exceeds the structural one, and a present upper
    /// end never falls below it (an overflowing bound becomes unbounded),
    /// so pruning a split search with this interval skips no split that
    /// could match.
    pub fn num_elmts_range(&self) -> (r: RepeatRange)
        ensures
            r == seq_expr_num_range_s(*self),
            r.start as int <= seq_expr_len_range(*self).0,
            match r.end {
                Some(e) => seq_expr_len_range(*self).1 is Some && seq_expr_len_range(
                    *self,
                ).1->Some_0 <= e as int,
                None => true,
            },
        decreases *self,
    {
        match self {
            Sequence::Empty => RepeatRange { start: 0, end: Some(1) },
            Sequence::Any => RepeatRange { start: 1, end: Some(2) },
            Sequence::Elmt(_) => RepeatRange { start: 1, end: Some(2) },
            Sequence::Repeat(_, r) => if r.start == 0 && r.end == Some(0) {
                RepeatRange { start: 0, end: Some(1) }
            } else {
                *r
            },
            Sequence::Concat(a, b) => {
                let ra = a.num_elmts_range();
                let rb = b.num_elmts_range();
                let start = ra.start.saturating_add(rb.start);
                let end = match (ra.end, rb.end) {
                    (Some(x), Some(y)) => if x == 0 && y == 0 {
                        Some(0)
                    } else {
                        let (xm, ym) = if x > 0 {
                            (x - 1, y)
                        } else {
                            (x, y - 1)
                        };
                        xm.checked_add(ym)
                    },
                    _ => None,
                };
                RepeatRange { start, end }
            },
            Sequence::Alt(a, b) => {
                let ra = a.num_elmts_range();
                let rb = b.num_elmts_range();
                let start = if ra.start <= rb.start {
                    ra.start
                } else {
                    rb.start
                };
                let end = match (ra.end, rb.end) {
                    (Some(x), Some(y)) => Some(
                        if x >= y {
                            x
                        } else {
                            y
                        },
                    ),
                    _ => None,
                };
                RepeatRange { start, end }
            },
            Sequence::Named(q, _) => q.num_elmts_range(),
        }
    }
}

/// The interval of list lengths a sequence pattern can possibly consume,
/// computed structurally: a lower bound, and an exclusive upper bound that
/// is absent when the pattern can consume unboundedly many items.
pub open spec fn seq_stmt_len_range(p: Sequence<pattern_tree::Stmt>) -> (int, Option<int>)
    decreases p,
{
    match p {
        Sequence::Empty => (0int, Some(1int)),
        Sequence::Any => (1int, Some(2int)),
        Sequence::Elmt(_) => (1int, Some(2int)),
        Sequence::Repeat(_, r) => (
            r.start as int,
            match r.end {
                Some(e) => Some(
                    if r.start == 0 && e < 1 {
                        1int
                    } else {
                        e as int
                    },
                ),
                None => None,
            },
        ),
        Sequence::Concat(a, b) => {
            let ra = seq_stmt_len_range(*a);
            let rb = seq_stmt_len_range(*b);
            (
                ra.0 + rb.0,
                match (ra.1, rb.1) {
                    (Some(x), Some(y)) => Some(x + y - 1),
                    _ => None,
                },
            )
        },
        Sequence::Alt(a, b) => {
            let ra = seq_stmt_len_range(*a);
            let rb = seq_stmt_len_range(*b);
            (
                if ra.0 <= rb.0 {
                    ra.0
                } else {
                    rb.0
                },
                match (ra.1, rb.1) {
                    (Some(x), Some(y)) => Some(
                        if x >= y {
                            x
                        } else {
                            y
                        },
                    ),
                    _ => None,
                },
            )
        },
        Sequence::Named(q, _) => seq_stmt_len_range(*q),
    }
}

/// A split search that succeeded did so at some split point at or beyond
/// where it began; returns that split point.
pub(crate) proof fn lemma_seq_stmt_concat_witness(
    p: Sequence<pattern_tree::Stmt>,
    vs: Seq<StmtView>,
    i: int,
) -> (k: int)
    requires
        p is Concat,
        seq_stmt_concat_m(p, vs, i) is Some,
    ensures
        i <= k <= vs.len(),
        seq_stmt_m(*p->Concat_0, vs.take(k)) is Some,
        seq_stmt_m(*p->Concat_1, vs.skip(k)) is Some,
    decreases vs.len() + 1 - i,
{
    if join_caps(seq_stmt_m(*p->Concat_0, vs.take(i)), seq_stmt_m(*p->Concat_1, vs.skip(i)))
        is Some {
        i
    } else {
        lemma_seq_stmt_concat_witness(p, vs, i + 1)
    }
}

/// A successful match consumes a length inside the pattern's structural
/// interval: the search space of a concatenation can be pruned to that
/// interval without losing any match.
pub proof fn lemma_seq_stmt_match_len(p: Sequence<pattern_tree::Stmt>, vs: Seq<StmtView>)
    requires
        seq_stmt_m(p, vs) is Some,
    ensures
        seq_stmt_len_range(p).0 <= vs.len(),
        match seq_stmt_len_range(p).1 {
            Some(e) => vs.len() < e,
            None => true,
        },
    decreases p,
{
    match p {
        Sequence::Concat(a, b) => {
            let k = lemma_seq_stmt_concat_witness(p, vs, 0);
            lemma_seq_stmt_match_len(*a, vs.take(k));
            lemma_seq_stmt_match_len(*b, vs.skip(k));
        },
        Sequence::Alt(a, b) => {
            if seq_stmt_m(*a, vs) is Some {
                lemma_seq_stmt_match_len(*a, vs);
            } else {
                lemma_seq_stmt_match_len(*b, vs);
            }
        },
        Sequence::Named(q, _) => {
            lemma_seq_stmt_match_len(*q, vs);
        },
        _ => {},
    }
}

/// Stepping the split search past split points where the left side cannot
/// match leaves its outcome unchanged.
proof fn lemma_seq_stmt_concat_advance(
    p: Sequence<pattern_tree::Stmt>,
    vs: Seq<StmtView>,
    i: int,
    j: int,
)
    requires
        p is Concat,
        0 <= i <= j <= vs.len() + 1,
        forall|k: int|
            i <= k < j ==> join_caps(
                seq_stmt_m(*p->Concat_0, vs.take(k)),
                seq_stmt_m(*p->Concat_1, #[trigger] vs.skip(k)),
            ) is None,
    ensures
        seq_stmt_concat_m(p, vs, i) == seq_stmt_concat_m(p, vs, j),
    decreases j - i,
{
    if i < j {
        assert(join_caps(seq_stmt_m(*p->Concat_0, vs.take(i)), seq_stmt_m(*p->Concat_1, vs.skip(i)))
            is None);
        lemma_seq_stmt_concat_advance(p, vs, i + 1, j);
    }
}

/// The interval that `num_elmts_range` computes, as mathematics: the
/// structural interval with its lower bound clamped to the largest
/// representable count and its upper end recorded as unbounded when it
/// cannot be represented.
pub open spec fn seq_stmt_num_range_s(p: Sequence<pattern_tree::Stmt>) -> RepeatRange
    decreases p,
{
    match p {
        Sequence::Empty => RepeatRange { start: 0, end: Some(1) },
        Sequence::Any => RepeatRange { start: 1, end: Some(2) },
        Sequence::Elmt(_) => RepeatRange { start: 1, end: Some(2) },
        Sequence::Repeat(_, r) => if r.start == 0 && r.end == Some(0usize) {
            RepeatRange { start: 0, end: Some(1) }
        } else {
            r
        },
        Sequence::Concat(a, b) => {
            let ra = seq_stmt_num_range_s(*a);
            let rb = seq_stmt_num_range_s(*b);
            RepeatRange {
                start: if ra.start + rb.start > usize::MAX {
                    usize::MAX
                } else {
                    (ra.start + rb.start) as usize
                },
                end: match (ra.end, rb.end) {
                    (Some(x), Some(y)) => if x == 0 && y == 0 {
                        Some(0usize)
                    } else if x + y - 1 > usize::MAX {
                        None
                    } else {
                        Some((x + y - 1) as usize)
                    },
                    _ => None,
                },
            }
        },
        Sequence::Alt(a, b) => {
            let ra = seq_stmt_num_range_s(*a);
            let rb = seq_stmt_num_range_s(*b);
            RepeatRange {
                start: if ra.start <= rb.start {
                    ra.start
                } else {
                    rb.start
                },
                end: match (ra.end, rb.end) {
                    (Some(x), Some(y)) => Some(
                        if x >= y {
                            x
                        } else {
                            y
                        },
                    ),
                    _ => None,
                },
            }
        },
        Sequence::Named(q, _) => seq_stmt_num_range_s(*q),
    }
}

impl Sequence<pattern_tree::Stmt> {
    /// The interval of list lengths this pattern can possibly consume. The
    /// lower bound never exceeds the structural one, and a present upper
    /// end never falls below it (an overflowing bound becomes unbounded),
    /// so pruning a split search with this interval skips no split that
    /// could match.
    pub fn num_elmts_range(&self) -> (r: RepeatRange)
        ensures
            r == seq_stmt_num_range_s(*self),
            r.start as int <= seq_stmt_len_range(*self).0,
            match r.end {
                Some(e) => seq_stmt_len_range(*self).1 is Some && seq_stmt_len_range(
                    *self,
                ).1->Some_0 <= e as int,
                None => true,
            },
        decreases *self,
    {
        match self {
            Sequence::Empty => RepeatRange { start: 0, end: Some(1) },
            Sequence::Any => RepeatRange { start: 1, end: Some(2) },
            Sequence::Elmt(_) => RepeatRange { start: 1, end: Some(2) },
            Sequence::Repeat(_, r) => if r.start == 0 && r.end == Some(0) {
                RepeatRange { start: 0, end: Some(1) }
            } else {
                *r
            },
            Sequence::Concat(a, b) => {
                let ra = a.num_elmts_range();
                let rb = b.num_elmts_range();
                let start = ra.start.saturating_add(rb.start);
                let end = match (ra.end, rb.end) {
                    (Some(x), Some(y)) => if x == 0 && y == 0 {
                        Some(0)
                    } else {
                        let (xm, ym) = if x > 0 {
                            (x - 1, y)
                        } else {
                            (x, y - 1)
                        };
                        xm.checked_add(ym)
                    },
                    _ => None,
                };
                RepeatRange { start, end }
            },
            Sequence::Alt(a, b) => {
                let ra = a.num_elmts_range();
                let rb = b.num_elmts_range();
                let start = if ra.start <= rb.start {
                    ra.start
                } else {
                    rb.start
                };
                let end = match (ra.end, rb.end) {
                    (Some(x), Some(y)) => Some(
                        if x >= y {
                            x
                        } else {
                            y
                        },
                    ),
                    _ => None,
                };
                RepeatRange { start, end }
            },
            Sequence::Named(q, _) => q.num_elmts_range(),
        }
    }
}

impl Alt<char> {
    /// Matches a character against this pattern.
    pub fn is_match(&self, other: &char) -> (r: Option<MatchResult>)
        ensures
            opt_result_view(r) == alt_char_m(*self, *other),
        decreases *self,
    {
        match self {
            Alt::Any => Some(MatchResult::empty()),
            Alt::Elmt(c) => if **c == *other {
                Some(MatchResult::empty())
            } else {
                None
            },
            Alt::Alt(a, b) => {
                let ra = a.is_match(other);
                if ra.is_some() {
                    ra
                } else {
                    b.is_match(other)
                }
            },
            Alt::Named(q, name) => match q.is_match(other) {
                Some(mut m) => {
                    m.insert(name.clone(), Capture::Char(*other));
                    Some(m)
                },
                None => None,
            },
        }
    }
}

impl Alt<bool> {
    /// Matches a boolean against this pattern.
    pub fn is_match(&self, other: &bool) -> (r: Option<MatchResult>)
        ensures
            opt_result_view(r) == alt_bool_m(*self, *other),
        decreases *self,
    {
        match self {
            Alt::Any => Some(MatchResult::empty()),
            Alt::Elmt(c) => if **c == *other {
                Some(MatchResult::empty())
            } else {
                None
            },
            Alt::Alt(a, b) => {
                let ra = a.is_match(other);
                if ra.is_some() {
                    ra
                } else {
                    b.is_match(other)
                }
            },
            Alt::Named(q, name) => match q.is_match(other) {
                Some(mut m) => {
                    m.insert(name.clone(), Capture::Bool(*other));
                    Some(m)
                },
                None => None,
            },
        }
    }
}

impl Alt<u128> {
    /// Matches an integer against this pattern.
    pub fn is_match(&self, other: &u128) -> (r: Option<MatchResult>)
        ensures
            opt_result_view(r) == alt_int_m(*self, *other),
        decreases *self,
    {
        match self {
            Alt::Any => Some(MatchResult::empty()),
            Alt::Elmt(c) => if **c == *other {
                Some(MatchResult::empty())
            } else {
                None
            },
            Alt::Alt(a, b) => {
                let ra = a.is_match(other);
                if ra.is_some() {
                    ra
                } else {
                    b.is_match(other)
                }
            },
            Alt::Named(q, name) => match q.is_match(other) {
                Some(mut m) => {
                    m.insert(name.clone(), Capture::Int(*other));
                    Some(m)
                },
                None => None,
            },
        }
    }
}

impl pattern_tree::Lit {
    /// Matches a concrete literal against this pattern: the variants must
    /// agree, and the payload pattern must match the payload.
    pub fn is_match(&self, other: &ast::Lit) -> (r: Option<MatchResult>)
        ensures
            opt_result_view(r) == lit_m(*self, *other),
        decreases *self,
    {
        match (self, other) {
            (pattern_tree::Lit::Char(a), ast::Lit::Char(c)) => a.is_match(c),
            (pattern_tree::Lit::Bool(a), ast::Lit::Bool(b)) => a.is_match(b),
            (pattern_tree::Lit::Int(a), ast::Lit::Int(i)) => a.is_match(i),
            _ => None,
        }
    }
}

impl Alt<pattern_tree::Lit> {
    /// Matches a concrete literal against this value pattern.
    pub fn is_match(&self, other: &ast::Lit) -> (r: Option<MatchResult>)
        ensures
            opt_result_view(r) == alt_lit_m(*self, *other),
        decreases *self,
    {
        match self {
            Alt::Any => Some(MatchResult::empty()),
            Alt::Elmt(t) => t.is_match(other),
            Alt::Alt(a, b) => {
                let ra = a.is_match(other);
                if ra.is_some() {
                    ra
                } else {
                    b.is_match(other)
                }
            },
            Alt::Named(q, name) => match q.is_match(other) {
                Some(mut m) => {
                    m.insert(name.clone(), Capture::Lit(*other));
                    Some(m)
                },
                None => None,
            },
        }
    }
}

impl pattern_tree::Expr {
    /// Matches a concrete expression against this pattern: the node kinds
    /// must agree, and every payload position must match, the sub-results
    /// joined in the order the children stand in the node.
    pub fn is_match(&self, other: &ast::Expr) -> (r: Option<MatchResult>)
        ensures
            opt_result_view(r) == expr_m(*self, other.deep_view()),
        decreases *self,
    {
        match (self, other) {
            (pattern_tree::Expr::Lit(a), ast::Expr::Lit(l)) => a.is_match(l),
            (pattern_tree::Expr::Array(sp), ast::Expr::Array(es)) => {
                let r = seq_expr_match_range(sp, es, 0, es.len());
                proof {
                    crate::ast::lemma_expr_seq_view(es@);
                    assert(crate::ast::expr_seq_view(es@).subrange(0, es@.len() as int)
                        =~= crate::ast::expr_seq_view(es@));
                }
                r
            },
            (pattern_tree::Expr::Block(bp), ast::Expr::Block(ss)) => {
                let r = seq_stmt_match_range(bp, ss, 0, ss.len());
                proof {
                    crate::ast::lemma_stmt_seq_view(ss@);
                    assert(crate::ast::stmt_seq_view(ss@).subrange(0, ss@.len() as int)
                        =~= crate::ast::stmt_seq_view(ss@));
                }
                r
            },
            (pattern_tree::Expr::If(cp, tp, ep), ast::Expr::If(cv, tv, ev)) => {
                let rc = cp.is_match(&**cv);
                let rt = seq_stmt_match_range(tp, tv, 0, tv.len());
                proof {
                    crate::ast::lemma_stmt_seq_view(tv@);
                    assert(crate::ast::stmt_seq_view(tv@).subrange(0, tv@.len() as int)
                        =~= crate::ast::stmt_seq_view(tv@));
                }
                let re = ep.is_match(ev);
                join(join(rc, rt), re)
            },
            (pattern_tree::Expr::IfLet(tp, ep), ast::Expr::IfLet(tv, ev)) => {
                let rt = seq_stmt_match_range(tp, tv, 0, tv.len());
                proof {
                    crate::ast::lemma_stmt_seq_view(tv@);
                    assert(crate::ast::stmt_seq_view(tv@).subrange(0, tv@.len() as int)
                        =~= crate::ast::stmt_seq_view(tv@));
                }
                let re = ep.is_match(ev);
                join(rt, re)
            },
            _ => None,
        }
    }
}

impl Alt<pattern_tree::Expr> {
    /// Matches a concrete expression against this value pattern.
    pub fn is_match(&self, other: &ast::Expr) -> (r: Option<MatchResult>)
        ensures
            opt_result_view(r) == alt_expr_m(*self, other.deep_view()),
        decreases *self,
    {
        match self {
            Alt::Any => Some(MatchResult::empty()),
            Alt::Elmt(t) => t.is_match(other),
            Alt::Alt(a, b) => {
                let ra = a.is_match(other);
                if ra.is_some() {
                    ra
                } else {
                    b.is_match(other)
                }
            },
            Alt::Named(q, name) => match q.is_match(other) {
                Some(mut m) => {
                    m.insert(name.clone(), Capture::Expr(crate::ast::copy_expr(other)));
                    Some(m)
                },
                None => None,
            },
        }
    }
}

impl pattern_tree::Stmt {
    /// Matches a concrete statement against this pattern.
    pub fn is_match(&self, other: &ast::Stmt) -> (r: Option<MatchResult>)
        ensures
            opt_result_view(r) == stmt_m(*self, other.deep_view()),
        decreases *self,
    {
        match (self, other) {
            (pattern_tree::Stmt::Expr(a), ast::Stmt::Expr(e)) => a.is_match(e),
            (pattern_tree::Stmt::Semi(a), ast::Stmt::Semi(e)) => a.is_match(e),
            _ => None,
        }
    }
}

impl Alt<pattern_tree::Stmt> {
    /// Matches a concrete statement against this value pattern.
    pub fn is_match(&self, other: &ast::Stmt) -> (r: Option<MatchResult>)
        ensures
            opt_result_view(r) == alt_stmt_m(*self, other.deep_view()),
        decreases *self,
    {
        match self {
            Alt::Any => Some(MatchResult::empty()),
            Alt::Elmt(t) => t.is_match(other),
            Alt::Alt(a, b) => {
                let ra = a.is_match(other);
                if ra.is_some() {
                    ra
                } else {
                    b.is_match(other)
                }
            },
            Alt::Named(q, name) => match q.is_match(other) {
                Some(mut m) => {
                    m.insert(name.clone(), Capture::Stmt(crate::ast::copy_stmt(other)));
                    Some(m)
                },
                None => None,
            },
        }
    }
}

impl Opt<pattern_tree::Expr> {
    /// Matches an optional concrete expression against this pattern. The
    /// composite `Alt` requires both of its sides to hold of the same
    /// slot, joining their captures.
    pub fn is_match(&self, other: &Option<Box<ast::Expr>>) -> (r: Option<MatchResult>)
        ensures
            opt_result_view(r) == opt_expr_m(*self, crate::ast::opt_expr_view(*other)),
        decreases *self,
    {
        match self {
            Opt::Any => match other {
                Some(_) => Some(MatchResult::empty()),
                None => None,
            },
            Opt::Elmt(t) => match other {
                Some(b) => t.is_match(&**b),
                None => None,
            },
            Opt::Absent => match other {
                None => Some(MatchResult::empty()),
                Some(_) => None,
            },
            Opt::Alt(a, b) => join(a.is_match(other), b.is_match(other)),
            Opt::Named(q, name) => match q.is_match(other) {
                Some(mut m) => {
                    m.insert(name.clone(), Capture::OptExpr(crate::ast::copy_opt_expr(other)));
                    Some(m)
                },
                None => None,
            },
        }
    }
}

/// Matches a sequence pattern against the expressions in positions
/// `lo..hi`, the engine of the array matcher.
#[verifier::rlimit(60)]
pub(crate) fn seq_expr_match_range(
    p: &Sequence<pattern_tree::Expr>,
    xs: &Vec<ast::Expr>,
    lo: usize,
    hi: usize,
) -> (r: Option<MatchResult>)
    requires
        lo <= hi <= xs@.len(),
    ensures
        opt_result_view(r) == seq_expr_m(
            *p,
            crate::ast::expr_seq_view(xs@).subrange(lo as int, hi as int),
        ),
    decreases *p,
{
    let ghost vs = crate::ast::expr_seq_view(xs@).subrange(lo as int, hi as int);
    proof {
        crate::ast::lemma_expr_seq_view(xs@);
    }
    match p {
        Sequence::Empty => if hi == lo {
            Some(MatchResult::empty())
        } else {
            None
        },
        Sequence::Any => if hi - lo == 1 {
            Some(MatchResult::empty())
        } else {
            None
        },
        Sequence::Elmt(t) => if hi - lo == 1 {
            let r = t.is_match(&xs[lo]);
            proof {
                assert(vs[0] == xs@[lo as int].deep_view());
            }
            r
        } else {
            None
        },
        Sequence::Repeat(t, rng) => {
            let n = hi - lo;
            if rng.start == 0 && n == 0 {
                return Some(MatchResult::empty());
            }
            if !rng.contains(n) {
                return None;
            }
            let mut acc = MatchResult::empty();
            let mut i: usize = 0;
            proof {
                assert(vs.take(0) =~= Seq::empty());
            }
            while i < n
                invariant
                    lo <= hi <= xs@.len(),
                    n == hi - lo,
                    i <= n,
                    vs == crate::ast::expr_seq_view(xs@).subrange(lo as int, hi as int),
                    vs.len() == n,
                    *p == (Sequence::Repeat(*t, *rng)),
                    forall|j: int| 0 <= j < i ==> alt_expr_m(**t, #[trigger] vs[j]) is Some,
                    acc@ == rep_expr_caps(**t, vs.take(i as int)),
                decreases n - i,
            {
                proof {
                    crate::ast::lemma_expr_seq_view(xs@);
                    assert(vs[i as int] == xs@[(lo + i) as int].deep_view());
                }
                let ri = t.is_match(&xs[lo + i]);
                match ri {
                    None => {
                        proof {
                            assert(alt_expr_m(**t, vs[i as int]) is None);
                        }
                        return None;
                    },
                    Some(m) => {
                        proof {
                            assert(vs.take(i + 1).drop_last() =~= vs.take(i as int));
                            assert(vs.take(i + 1).last() == vs[i as int]);
                        }
                        acc = merge(acc, m);
                    },
                }
                i = i + 1;
            }
            proof {
                assert(vs.take(n as int) =~= vs);
            }
            Some(acc)
        },
        Sequence::Concat(a, b) => {
            let n = hi - lo;
            let ar = a.num_elmts_range();
            if ar.start > n {
                proof {
                    assert forall|k: int|
                        0 <= k < vs.len() + 1 implies join_caps(
                        seq_expr_m(**a, vs.take(k)),
                        seq_expr_m(**b, #[trigger] vs.skip(k)),
                    ) is None by {
                        if seq_expr_m(**a, vs.take(k)) is Some {
                            lemma_seq_expr_match_len(**a, vs.take(k));
                        }
                    }
                    lemma_seq_expr_concat_advance(*p, vs, 0, vs.len() as int + 1);
                }
                return None;
            }
            let mut i: usize = ar.start;
            proof {
                assert forall|k: int|
                    0 <= k < ar.start as int implies join_caps(
                    seq_expr_m(**a, vs.take(k)),
                    seq_expr_m(**b, #[trigger] vs.skip(k)),
                ) is None by {
                    if seq_expr_m(**a, vs.take(k)) is Some {
                        lemma_seq_expr_match_len(**a, vs.take(k));
                    }
                }
                lemma_seq_expr_concat_advance(*p, vs, 0, ar.start as int);
            }
            loop
                invariant
                    lo <= hi <= xs@.len(),
                    n == hi - lo,
                    i <= n,
                    vs == crate::ast::expr_seq_view(xs@).subrange(lo as int, hi as int),
                    vs.len() == n,
                    *p == (Sequence::Concat(*a, *b)),
                    (ar.start as int) <= seq_expr_len_range(**a).0,
                    match ar.end {
                        Some(e) => seq_expr_len_range(**a).1 is Some && seq_expr_len_range(
                            **a,
                        ).1->Some_0 <= e as int,
                        None => true,
                    },
                    seq_expr_concat_m(*p, vs, 0) == seq_expr_concat_m(*p, vs, i as int),
                decreases n - i,
            {
                match ar.end {
                    Some(e) => if i >= e {
                        proof {
                            assert forall|k: int|
                                i as int <= k < vs.len() + 1 implies join_caps(
                                seq_expr_m(**a, vs.take(k)),
                                seq_expr_m(**b, #[trigger] vs.skip(k)),
                            ) is None by {
                                if seq_expr_m(**a, vs.take(k)) is Some {
                                    lemma_seq_expr_match_len(**a, vs.take(k));
                                }
                            }
                            lemma_seq_expr_concat_advance(*p, vs, i as int, vs.len() as int + 1);
                        }
                        return None;
                    },
                    None => {},
                }
                proof {
                    crate::ast::lemma_expr_seq_view(xs@);
                }
                let ra = seq_expr_match_range(a, xs, lo, lo + i);
                proof {
                    assert(crate::ast::expr_seq_view(xs@).subrange(lo as int, (lo + i) as int)
                        =~= vs.take(i as int));
                    assert(crate::ast::expr_seq_view(xs@).subrange((lo + i) as int, hi as int)
                        =~= vs.skip(i as int));
                }
                if ra.is_some() {
                    let rb = seq_expr_match_range(b, xs, lo + i, hi);
                    if rb.is_some() {
                        return join(ra, rb);
                    } else {
                        proof {
                            assert(seq_expr_concat_m(*p, vs, i as int) == seq_expr_concat_m(
                                *p,
                                vs,
                                i + 1,
                            ));
                        }
                    }
                } else {
                    proof {
                        assert(seq_expr_concat_m(*p, vs, i as int) == seq_expr_concat_m(
                            *p,
                            vs,
                            i + 1,
                        ));
                    }
                }
                if i == n {
                    return None;
                }
                i = i + 1;
            }
        },
        Sequence::Alt(a, b) => {
            let ra = seq_expr_match_range(a, xs, lo, hi);
            if ra.is_some() {
                ra
            } else {
                seq_expr_match_range(b, xs, lo, hi)
            }
        },
        Sequence::Named(q, name) => match seq_expr_match_range(q, xs, lo, hi) {
            Some(mut m) => {
                m.insert(name.clone(), Capture::ExprList(crate::ast::copy_exprs_range(xs, lo, hi)));
                Some(m)
            },
            None => None,
        },
    }
}

/// Matches a sequence pattern against the statements in positions
/// `lo..hi`, the engine of the block matcher.
#[verifier::rlimit(60)]
pub(crate) fn seq_stmt_match_range(
    p: &Sequence<pattern_tree::Stmt>,
    xs: &Vec<ast::Stmt>,
    lo: usize,
    hi: usize,
) -> (r: Option<MatchResult>)
    requires
        lo <= hi <= xs@.len(),
    ensures
        opt_result_view(r) == seq_stmt_m(
            *p,
            crate::ast::stmt_seq_view(xs@).subrange(lo as int, hi as int),
        ),
    decreases *p,
{
    let ghost vs = crate::ast::stmt_seq_view(xs@).subrange(lo as int, hi as int);
    proof {
        crate::ast::lemma_stmt_seq_view(xs@);
    }
    match p {
        Sequence::Empty => if hi == lo {
            Some(MatchResult::empty())
        } else {
            None
        },
        Sequence::Any => if hi - lo == 1 {
            Some(MatchResult::empty())
        } else {
            None
        },
        Sequence::Elmt(t) => if hi - lo == 1 {
            let r = t.is_match(&xs[lo]);
            proof {
                assert(vs[0] == xs@[lo as int].deep_view());
            }
            r
        } else {
            None
        },
        Sequence::Repeat(t, rng) => {
            let n = hi - lo;
            if rng.start == 0 && n == 0 {
                return Some(MatchResult::empty());
            }
            if !rng.contains(n) {
                return None;
            }
            let mut acc = MatchResult::empty();
            let mut i: usize = 0;
            proof {
                assert(vs.take(0) =~= Seq::empty());
            }
            while i < n
                invariant
                    lo <= hi <= xs@.len(),
                    n == hi - lo,
                    i <= n,
                    vs == crate::ast::stmt_seq_view(xs@).subrange(lo as int, hi as int),
                    vs.len() == n,
                    *p == (Sequence::Repeat(*t, *rng)),
                    forall|j: int| 0 <= j < i ==> alt_stmt_m(**t, #[trigger] vs[j]) is Some,
                    acc@ == rep_stmt_caps(**t, vs.take(i as int)),
                decreases n - i,
            {
                proof {
                    crate::ast::lemma_stmt_seq_view(xs@);
                    assert(vs[i as int] == xs@[(lo + i) as int].deep_view());
                }
                let ri = t.is_match(&xs[lo + i]);
                match ri {
                    None => {
                        proof {
                            assert(alt_stmt_m(**t, vs[i as int]) is None);
                        }
                        return None;
                    },
                    Some(m) => {
                        proof {
                            assert(vs.take(i + 1).drop_last() =~= vs.take(i as int));
                            assert(vs.take(i + 1).last() == vs[i as int]);
                        }
                        acc = merge(acc, m);
                    },
                }
                i = i + 1;
            }
            proof {
                assert(vs.take(n as int) =~= vs);
            }
            Some(acc)
        },
        Sequence::Concat(a, b) => {
            let n = hi - lo;
            let ar = a.num_elmts_range();
            if ar.start > n {
                proof {
                    assert forall|k: int|
                        0 <= k < vs.len() + 1 implies join_caps(
                        seq_stmt_m(**a, vs.take(k)),
                        seq_stmt_m(**b, #[trigger] vs.skip(k)),
                    ) is None by {
                        if seq_stmt_m(**a, vs.take(k)) is Some {
                            lemma_seq_stmt_match_len(**a, vs.take(k));
                        }
                    }
                    lemma_seq_stmt_concat_advance(*p, vs, 0, vs.len() as int + 1);
                }
                return None;
            }
            let mut i: usize = ar.start;
            proof {
                assert forall|k: int|
                    0 <= k < ar.start as int implies join_caps(
                    seq_stmt_m(**a, vs.take(k)),
                    seq_stmt_m(**b, #[trigger] vs.skip(k)),
                ) is None by {
                    if seq_stmt_m(**a, vs.take(k)) is Some {
                        lemma_seq_stmt_match_len(**a, vs.take(k));
                    }
                }
                lemma_seq_stmt_concat_advance(*p, vs, 0, ar.start as int);
            }
            loop
                invariant
                    lo <= hi <= xs@.len(),
                    n == hi - lo,
                    i <= n,
                    vs == crate::ast::stmt_seq_view(xs@).subrange(lo as int, hi as int),
                    vs.len() == n,
                    *p == (Sequence::Concat(*a, *b)),
                    (ar.start as int) <= seq_stmt_len_range(**a).0,
                    match ar.end {
                        Some(e) => seq_stmt_len_range(**a).1 is Some && seq_stmt_len_range(
                            **a,
                        ).1->Some_0 <= e as int,
                        None => true,
                    },
                    seq_stmt_concat_m(*p, vs, 0) == seq_stmt_concat_m(*p, vs, i as int),
                decreases n - i,
            {
                match ar.end {
                    Some(e) => if i >= e {
                        proof {
                            assert forall|k: int|
                                i as int <= k < vs.len() + 1 implies join_caps(
                                seq_stmt_m(**a, vs.take(k)),
                                seq_stmt_m(**b, #[trigger] vs.skip(k)),
                            ) is None by {
                                if seq_stmt_m(**a, vs.take(k)) is Some {
                                    lemma_seq_stmt_match_len(**a, vs.take(k));
                                }
                            }
                            lemma_seq_stmt_concat_advance(*p, vs, i as int, vs.len() as int + 1);
                        }
                        return None;
                    },
                    None => {},
                }
                proof {
                    crate::ast::lemma_stmt_seq_view(xs@);
                }
                let ra = seq_stmt_match_range(a, xs, lo, lo + i);
                proof {
                    assert(crate::ast::stmt_seq_view(xs@).subrange(lo as int, (lo + i) as int)
                        =~= vs.take(i as int));
                    assert(crate::ast::stmt_seq_view(xs@).subrange((lo + i) as int, hi as int)
                        =~= vs.skip(i as int));
                }
                if ra.is_some() {
                    let rb = seq_stmt_match_range(b, xs, lo + i, hi);
                    if rb.is_some() {
                        return join(ra, rb);
                    } else {
                        proof {
                            assert(seq_stmt_concat_m(*p, vs, i as int) == seq_stmt_concat_m(
                                *p,
                                vs,
                                i + 1,
                            ));
                        }
                    }
                } else {
                    proof {
                        assert(seq_stmt_concat_m(*p, vs, i as int) == seq_stmt_concat_m(
                            *p,
                            vs,
                            i + 1,
                        ));
                    }
                }
                if i == n {
                    return None;
                }
                i = i + 1;
            }
        },
        Sequence::Alt(a, b) => {
            let ra = seq_stmt_match_range(a, xs, lo, hi);
            if ra.is_some() {
                ra
            } else {
                seq_stmt_match_range(b, xs, lo, hi)
            }
        },
        Sequence::Named(q, name) => match seq_stmt_match_range(q, xs, lo, hi) {
            Some(mut m) => {
                m.insert(name.clone(), Capture::StmtList(crate::ast::copy_stmts_range(xs, lo, hi)));
                Some(m)
            },
            None => None,
        },
    }
}

impl Sequence<pattern_tree::Expr> {
    /// Matches an ordered list of concrete expressions against this
    /// sequence pattern.
    pub fn is_match(&self, other: &Vec<ast::Expr>) -> (r: Option<MatchResult>)
        ensures
            opt_result_view(r) == seq_expr_m(*self, crate::ast::expr_seq_view(other@)),
    {
        let r = seq_expr_match_range(self, other, 0, other.len());
        proof {
            crate::ast::lemma_expr_seq_view(other@);
            assert(crate::ast::expr_seq_view(other@).subrange(0, other@.len() as int)
                =~= crate::ast::expr_seq_view(other@));
        }
        r
    }
}

impl Sequence<pattern_tree::Stmt> {
    /// Matches an ordered list of concrete statements against this
    /// sequence pattern.
    pub fn is_match(&self, other: &Vec<ast::Stmt>) -> (r: Option<MatchResult>)
        ensures
            opt_result_view(r) == seq_stmt_m(*self, crate::ast::stmt_seq_view(other@)),
    {
        let r = seq_stmt_match_range(self, other, 0, other.len());
        proof {
            crate::ast::lemma_stmt_seq_view(other@);
            assert(crate::ast::stmt_seq_view(other@).subrange(0, other@.len() as int)
                =~= crate::ast::stmt_seq_view(other@));
        }
        r
    }
}

impl crate::matchers::IsMatch<char> for Alt<char> {
    open spec fn match_view(&self, other: &char) -> Option<CaptureMap> {
        alt_char_m(*self, *other)
    }

    fn is_match(&self, other: &char) -> (r: Option<MatchResult>) {
        Alt::<char>::is_match(self, other)
    }
}

impl crate::matchers::IsMatch<bool> for Alt<bool> {
    open spec fn match_view(&self, other: &bool) -> Option<CaptureMap> {
        alt_bool_m(*self, *other)
    }

    fn is_match(&self, other: &bool) -> (r: Option<MatchResult>) {
        Alt::<bool>::is_match(self, other)
    }
}

impl crate::matchers::IsMatch<u128> for Alt<u128> {
    open spec fn match_view(&self, other: &u128) -> Option<CaptureMap> {
        alt_int_m(*self, *other)
    }

    fn is_match(&self, other: &u128) -> (r: Option<MatchResult>) {
        Alt::<u128>::is_match(self, other)
    }
}

impl crate::matchers::IsMatch<ast::Lit> for pattern_tree::Lit {
    open spec fn match_view(&self, other: &ast::Lit) -> Option<CaptureMap> {
        lit_m(*self, *other)
    }

    fn is_match(&self, other: &ast::Lit) -> (r: Option<MatchResult>) {
        pattern_tree::Lit::is_match(self, other)
    }
}

impl crate::matchers::IsMatch<ast::Lit> for Alt<pattern_tree::Lit> {
    open spec fn match_view(&self, other: &ast::Lit) -> Option<CaptureMap> {
        alt_lit_m(*self, *other)
    }

    fn is_match(&self, other: &ast::Lit) -> (r: Option<MatchResult>) {
        Alt::<pattern_tree::Lit>::is_match(self, other)
    }
}

impl crate::matchers::IsMatch<ast::Expr> for pattern_tree::Expr {
    open spec fn match_view(&self, other: &ast::Expr) -> Option<CaptureMap> {
        expr_m(*self, other.deep_view())
    }

    fn is_match(&self, other: &ast::Expr) -> (r: Option<MatchResult>) {
        pattern_tree::Expr::is_match(self, other)
    }
}

impl crate::matchers::IsMatch<ast::Expr> for Alt<pattern_tree::Expr> {
    open spec fn match_view(&self, other: &ast::Expr) -> Option<CaptureMap> {
        alt_expr_m(*self, other.deep_view())
    }

    fn is_match(&self, other: &ast::Expr) -> (r: Option<MatchResult>) {
        Alt::<pattern_tree::Expr>::is_match(self, other)
    }
}

impl crate::matchers::IsMatch<ast::Stmt> for Alt<pattern_tree::Stmt> {
    open spec fn match_view(&self, other: &ast::Stmt) -> Option<CaptureMap> {
        alt_stmt_m(*self, other.deep_view())
    }

    fn is_match(&self, other: &ast::Stmt) -> (r: Option<MatchResult>) {
        Alt::<pattern_tree::Stmt>::is_match(self, other)
    }
}

impl crate::matchers::IsMatch<ast::Stmt> for pattern_tree::Stmt {
    open spec fn match_view(&self, other: &ast::Stmt) -> Option<CaptureMap> {
        stmt_m(*self, other.deep_view())
    }

    fn is_match(&self, other: &ast::Stmt) -> (r: Option<MatchResult>) {
        pattern_tree::Stmt::is_match(self, other)
    }
}

impl crate::matchers::IsMatch<Option<Box<ast::Expr>>> for Opt<pattern_tree::Expr> {
    open spec fn match_view(&self, other: &Option<Box<ast::Expr>>) -> Option<CaptureMap> {
        opt_expr_m(*self, crate::ast::opt_expr_view(*other))
    }

    fn is_match(&self, other: &Option<Box<ast::Expr>>) -> (r: Option<MatchResult>) {
        Opt::<pattern_tree::Expr>::is_match(self, other)
    }
}

impl crate::matchers::IsMatch<Vec<ast::Expr>> for Sequence<pattern_tree::Expr> {
    open spec fn match_view(&self, other: &Vec<ast::Expr>) -> Option<CaptureMap> {
        seq_expr_m(*self, crate::ast::expr_seq_view(other@))
    }

    fn is_match(&self, other: &Vec<ast::Expr>) -> (r: Option<MatchResult>) {
        Sequence::<pattern_tree::Expr>::is_match(self, other)
    }
}

impl crate::matchers::IsMatch<Vec<ast::Stmt>> for Sequence<pattern_tree::Stmt> {
    open spec fn match_view(&self, other: &Vec<ast::Stmt>) -> Option<CaptureMap> {
        seq_stmt_m(*self, crate::ast::stmt_seq_view(other@))
    }

    fn is_match(&self, other: &Vec<ast::Stmt>) -> (r: Option<MatchResult>) {
        Sequence::<pattern_tree::Stmt>::is_match(self, other)
    }
}

/// The adapter between the pattern tree and this concrete tree: matching an
/// expression pattern against a concrete expression node.
#[derive(Debug)]
pub struct Ast {}

impl Ast {
    /// Matches a pattern against a concrete expression node.
    pub fn is_match(p: &pattern_tree::Expr, node: &ast::Expr) -> (r: Option<MatchResult>)
        ensures
            opt_result_view(r) == expr_m(*p, node.deep_view()),
    {
        p.is_match(node)
    }
}

} // verus!
