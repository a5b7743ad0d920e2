//! Laws of the matching engine, each proved against the model the
//! executable matcher is verified to return.

use vstd::prelude::*;

use crate::ast;
use crate::ast::ExprView;
use crate::ast::StmtView;
use crate::ast_match::{alt_expr_m, alt_stmt_m, opt_expr_m, seq_expr_concat_m, seq_expr_m, seq_stmt_concat_m, seq_stmt_m};
use crate::match_result::{join_caps, opt_result_view, CaptureMap, CaptureView, MatchResult};
use crate::matchers::{match_values_char_m, Alt, MatchValues, Opt, Sequence};
use crate::pattern_tree;
use crate::repeat::RepeatRange;

verus! {

/// A value pattern that admits everything matches every concrete value and
/// yields no captures.
pub proof fn lemma_any_matches_all(v: ExprView)
    ensures
        alt_expr_m(Alt::<pattern_tree::Expr>::Any, v) == Some(CaptureMap::empty()),
{
}

/// A list-form value pattern with an absent or empty alternative list and
/// no capture name matches every value and yields no captures.
pub proof fn lemma_values_any_matches_all(p: MatchValues<char>, v: char)
    requires
        p.values is None || p.values->0@.len() == 0,
        p.name is None,
    ensures
        match_values_char_m(p, v) == Some(CaptureMap::empty()),
{
}

/// Alternation over values is a disjunction with first-success semantics:
/// when the left side fails and the right side succeeds, the whole
/// alternation returns exactly the right side's captures.
pub proof fn lemma_alt_first_success(p: Alt<pattern_tree::Expr>, v: ExprView)
    requires
        p is Alt,
        alt_expr_m(*p->Alt_0, v) is None,
        alt_expr_m(*p->Alt_1, v) is Some,
    ensures
        alt_expr_m(p, v) == alt_expr_m(*p->Alt_1, v),
{
}

/// The absence pattern matches exactly the absent slot, regardless of what
/// a present slot would hold, and yields no captures.
pub proof fn lemma_opt_absent(v: Option<Box<ExprView>>)
    ensures
        opt_expr_m(Opt::<pattern_tree::Expr>::Absent, v) is Some <==> v is None,
        v is None ==> opt_expr_m(Opt::<pattern_tree::Expr>::Absent, v) == Some(
            CaptureMap::empty(),
        ),
{
}

/// The empty sequence pattern matches exactly the list of length zero.
pub proof fn lemma_empty_matches_only_empty(vs: Seq<StmtView>)
    ensures
        seq_stmt_m(Sequence::<pattern_tree::Stmt>::Empty, vs) is Some <==> vs.len() == 0,
        vs.len() == 0 ==> seq_stmt_m(Sequence::<pattern_tree::Stmt>::Empty, vs) == Some(
            CaptureMap::empty(),
        ),
{
}

/// Over a list whose every item matches the repeated element, a repetition
/// succeeds exactly when the item count lies in its range — or when the
/// range permits zero repetitions and the list is empty.
pub proof fn lemma_repeat_count_bounds(
    t: Alt<pattern_tree::Stmt>,
    rng: RepeatRange,
    vs: Seq<StmtView>,
)
    requires
        forall|i: int| 0 <= i < vs.len() ==> alt_stmt_m(t, #[trigger] vs[i]) is Some,
    ensures
        seq_stmt_m(Sequence::Repeat(Box::new(t), rng), vs) is Some <==> (rng.spec_contains(
            vs.len() as int,
        ) || (rng.start == 0 && vs.len() == 0)),
{
}

/// The split search of a concatenation, started at split point `j`, finds
/// a match when some split point at or beyond `j` works.
proof fn lemma_concat_search_finds(p: Sequence<pattern_tree::Expr>, vs: Seq<ExprView>, j: int, i: int)
    requires
        p is Concat,
        0 <= j <= i <= vs.len(),
        join_caps(seq_expr_m(*p->Concat_0, vs.take(i)), seq_expr_m(*p->Concat_1, vs.skip(i)))
            is Some,
    ensures
        seq_expr_concat_m(p, vs, j) is Some,
    decreases i - j,
{
    if j < i {
        if join_caps(
            seq_expr_m(*p->Concat_0, vs.take(j)),
            seq_expr_m(*p->Concat_1, vs.skip(j)),
        ) is Some {
        } else {
            lemma_concat_search_finds(p, vs, j + 1, i);
        }
    }
}

/// A concatenation matches whenever some split point lets its left side
/// match the prefix and its right side the suffix.
pub proof fn lemma_concat_split_found(p: Sequence<pattern_tree::Expr>, vs: Seq<ExprView>, i: int)
    requires
        p is Concat,
        0 <= i <= vs.len(),
        seq_expr_m(*p->Concat_0, vs.take(i)) is Some,
        seq_expr_m(*p->Concat_1, vs.skip(i)) is Some,
    ensures
        seq_expr_m(p, vs) is Some,
{
    lemma_concat_search_finds(p, vs, 0, i);
}

/// The split search of a concatenation, started at split point `j`, finds
/// a match when some split point at or beyond `j` works.
proof fn lemma_concat_search_finds_stmts(
    p: Sequence<pattern_tree::Stmt>,
    vs: Seq<StmtView>,
    j: int,
    i: int,
)
    requires
        p is Concat,
        0 <= j <= i <= vs.len(),
        join_caps(seq_stmt_m(*p->Concat_0, vs.take(i)), seq_stmt_m(*p->Concat_1, vs.skip(i)))
            is Some,
    ensures
        seq_stmt_concat_m(p, vs, j) is Some,
    decreases i - j,
{
    if j < i {
        if join_caps(
            seq_stmt_m(*p->Concat_0, vs.take(j)),
            seq_stmt_m(*p->Concat_1, vs.skip(j)),
        ) is Some {
        } else {
            lemma_concat_search_finds_stmts(p, vs, j + 1, i);
        }
    }
}

/// A concatenation matches whenever some split point lets its left side
/// match the prefix and its right side the suffix.
pub proof fn lemma_concat_split_found_stmts(
    p: Sequence<pattern_tree::Stmt>,
    vs: Seq<StmtView>,
    i: int,
)
    requires
        p is Concat,
        0 <= i <= vs.len(),
        seq_stmt_m(*p->Concat_0, vs.take(i)) is Some,
        seq_stmt_m(*p->Concat_1, vs.skip(i)) is Some,
    ensures
        seq_stmt_m(p, vs) is Some,
{
    lemma_concat_search_finds_stmts(p, vs, 0, i);
}

/// A named pattern that succeeds produces a result bound under its name,
/// and the binding is the matched concrete value.
pub proof fn lemma_named_capture(p: Alt<pattern_tree::Expr>, v: ExprView)
    requires
        p is Named,
        alt_expr_m(*p->Named_0, v) is Some,
    ensures
        alt_expr_m(p, v) is Some,
        alt_expr_m(p, v)->Some_0.contains_key(p->Named_1@),
        alt_expr_m(p, v)->Some_0[p->Named_1@] == CaptureView::Expr(v),
{
}

/// Joining two successful results never fails, and on a name both carry,
/// the later (right) writer wins: the overwrite policy of capture merging.
pub proof fn lemma_join_same_key(a: CaptureMap, b: CaptureMap, k: Seq<char>)
    requires
        a.contains_key(k),
        b.contains_key(k),
    ensures
        join_caps(Some(a), Some(b)) is Some,
        join_caps(Some(a), Some(b))->Some_0.contains_key(k),
        join_caps(Some(a), Some(b))->Some_0[k] == b[k],
{
}

/// The result with no captures is the neutral element for merging.
pub proof fn lemma_join_empty_neutral(m: CaptureMap)
    ensures
        join_caps(Some(CaptureMap::empty()), Some(m)) == Some(m),
        join_caps(Some(m), Some(CaptureMap::empty())) == Some(m),
{
    assert(CaptureMap::empty().union_prefer_right(m) =~= m);
    assert(m.union_prefer_right(CaptureMap::empty()) =~= m);
}

/// Joining is associative: chaining joins across a row of sibling results
/// gives one deterministic left-to-right merge, however the chain is
/// parenthesised.
pub proof fn lemma_join_associative(
    a: Option<CaptureMap>,
    b: Option<CaptureMap>,
    c: Option<CaptureMap>,
)
    ensures
        join_caps(join_caps(a, b), c) == join_caps(a, join_caps(b, c)),
{
    match (a, b, c) {
        (Some(x), Some(y), Some(z)) => {
            assert(x.union_prefer_right(y).union_prefer_right(z) =~= x.union_prefer_right(
                y.union_prefer_right(z),
            ));
        },
        _ => {},
    }
}

/// Matching is deterministic: two runs of the matcher on the same pattern
/// and the same tree return the same verdict and the same captures.
pub proof fn lemma_match_deterministic(
    p: Alt<pattern_tree::Expr>,
    v: ast::Expr,
    r1: Option<MatchResult>,
    r2: Option<MatchResult>,
)
    requires
        call_ensures(Alt::<pattern_tree::Expr>::is_match, (&p, &v), r1),
        call_ensures(Alt::<pattern_tree::Expr>::is_match, (&p, &v), r2),
    ensures
        opt_result_view(r1) == opt_result_view(r2),
{
}

} // verus!
