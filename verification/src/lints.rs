//! Two rules built on the matching engine: the shapes they look for are
//! stated as spec predicates over tree views, the rules' patterns are
//! proved to match exactly those shapes, and deciding a node is one call
//! of the verified matcher.

use vstd::prelude::*;
use vstd::string::StringExecFns;

use crate::ast;
use crate::ast::{ExprView, StmtView};
use crate::ast_match::{
    alt_expr_m, alt_lit_m, alt_stmt_m, expr_m, lemma_seq_expr_concat_witness,
    lemma_seq_stmt_concat_witness, opt_expr_m, seq_expr_m, seq_stmt_m, stmt_m,
};
use crate::laws::{lemma_concat_split_found, lemma_concat_split_found_stmts};
use crate::match_result::{opt_result_view, MatchResult};
use crate::matchers::{Alt, Opt, Sequence};
use crate::pattern_tree;
use crate::repeat::RepeatRange;

verus! {

/// A statement that is an integer-literal expression statement.
pub open spec fn int_expr_stmt(sv: StmtView) -> bool {
    sv matches StmtView::Expr(ExprView::Lit(ast::Lit::Int(_)))
}

/// A statement that is a boolean-literal semicolon statement.
pub open spec fn bool_semi_stmt(sv: StmtView) -> bool {
    sv matches StmtView::Semi(ExprView::Lit(ast::Lit::Bool(_)))
}

/// The statements split at `k` into integer-literal expression statements
/// followed by boolean-literal semicolon statements.
pub open spec fn int_prefix_bool_suffix(ss: Seq<StmtView>, k: int) -> bool {
    &&& 0 <= k <= ss.len()
    &&& forall|j: int| 0 <= j < k ==> int_expr_stmt(#[trigger] ss[j])
    &&& forall|j: int| k <= j < ss.len() ==> bool_semi_stmt(#[trigger] ss[j])
}

/// The body shape of the simple rule's `if` arm.
pub open spec fn simple_if_body_shape(ss: Seq<StmtView>) -> bool {
    exists|k: int| int_prefix_bool_suffix(ss, k)
}

/// The items split at `i` and `j` into characters `a`, then one to three
/// characters `b`, then a final character `c`.
pub open spec fn char_runs(es: Seq<ExprView>, i: int, j: int) -> bool {
    &&& 0 <= i <= j
    &&& j + 1 == es.len()
    &&& 1 <= j - i <= 3
    &&& forall|k: int| 0 <= k < i ==> #[trigger] es[k] == ExprView::Lit(ast::Lit::Char('a'))
    &&& forall|k: int| i <= k < j ==> #[trigger] es[k] == ExprView::Lit(ast::Lit::Char('b'))
    &&& es[j] == ExprView::Lit(ast::Lit::Char('c'))
}

/// The array shape of the simple rule: `a* b{1,3} c`.
pub open spec fn char_array_shape(es: Seq<ExprView>) -> bool {
    exists|i: int, j: int| char_runs(es, i, j)
}

/// One of the simple rule's three shapes: the literal `false`, the
/// character array `a* b{1,3} c`, or an `if true` whose body is
/// integer-literal expression statements followed by boolean-literal
/// semicolon statements, with no `else`.
pub open spec fn simple_shape(v: ExprView) -> bool {
    ||| v == ExprView::Lit(ast::Lit::Bool(false))
    ||| (v matches ExprView::Array(es) && char_array_shape(es))
    ||| (v matches ExprView::If(c, t, e) && *c == ExprView::Lit(ast::Lit::Bool(true))
        && simple_if_body_shape(t) && e is None)
}

/// An `if` with no `else` clause.
pub open spec fn if_without_else(v: ExprView) -> bool {
    v matches ExprView::If(_, _, e) && e is None
}

/// A statement whose expression is an `if` with no `else`.
pub open spec fn inner_if_stmt(sv: StmtView) -> bool {
    ||| (sv matches StmtView::Expr(w) && if_without_else(w))
    ||| (sv matches StmtView::Semi(w) && if_without_else(w))
}

/// The collapsible shape: an `if` with no `else` whose body is exactly one
/// statement, that statement being another `if` with no `else`.
pub open spec fn collapsible_if_shape(v: ExprView) -> bool {
    &&& v matches ExprView::If(_, t, e) && e is None && t.len() == 1 && inner_if_stmt(t[0])
}

/// An `if` or `if let` expression, whatever its parts.
pub open spec fn if_or_if_let(v: ExprView) -> bool {
    v is If || v is IfLet
}

/// A block of exactly one statement whose expression is an `if` or
/// `if let`.
pub open spec fn else_block_stmts(ss: Seq<StmtView>) -> bool {
    &&& ss.len() == 1
    &&& {
        ||| (ss[0] matches StmtView::Expr(w) && if_or_if_let(w))
        ||| (ss[0] matches StmtView::Semi(w) && if_or_if_let(w))
    }
}

/// The else-collapse shape: an `if` or `if let` whose `else` clause is a
/// block holding exactly one statement that is itself an `if` or `if let`.
pub open spec fn else_collapsible_shape(v: ExprView) -> bool {
    ||| (v matches ExprView::If(_, _, e) && e matches Some(b) && (*b) matches ExprView::Block(ss)
        && else_block_stmts(ss))
    ||| (v matches ExprView::IfLet(_, e) && e matches Some(b) && (*b) matches ExprView::Block(ss)
        && else_block_stmts(ss))
}

/// A value pattern accepting exactly the given boolean literal.
fn lit_bool_pat(b: bool) -> (r: Alt<pattern_tree::Expr>)
    ensures
        forall|v: ExprView| #[trigger] alt_expr_m(r, v) is Some <==> v == ExprView::Lit(
            ast::Lit::Bool(b),
        ),
{
    let r = Alt::Elmt(
        Box::new(
            pattern_tree::Expr::Lit(
                Alt::Elmt(Box::new(pattern_tree::Lit::Bool(Alt::Elmt(Box::new(b))))),
            ),
        ),
    );
    proof {
        let ghost ep = *r->Elmt_0;
        assert forall|v: ExprView| #[trigger] alt_expr_m(r, v) is Some <==> v == ExprView::Lit(
            ast::Lit::Bool(b),
        ) by {
            assert(alt_expr_m(r, v) == expr_m(ep, v));
            match v {
                ExprView::Lit(l) => {
                    assert(expr_m(ep, v) == alt_lit_m(ep->Lit_0, l));
                    match l {
                        ast::Lit::Bool(_) => {},
                        _ => {},
                    }
                },
                _ => {},
            }
        }
    }
    r
}

/// A value pattern accepting exactly the given character literal.
fn lit_char_pat(c: char) -> (r: Alt<pattern_tree::Expr>)
    ensures
        forall|v: ExprView| #[trigger] alt_expr_m(r, v) is Some <==> v == ExprView::Lit(
            ast::Lit::Char(c),
        ),
{
    let r = Alt::Elmt(
        Box::new(
            pattern_tree::Expr::Lit(
                Alt::Elmt(Box::new(pattern_tree::Lit::Char(Alt::Elmt(Box::new(c))))),
            ),
        ),
    );
    proof {
        let ghost ep = *r->Elmt_0;
        assert forall|v: ExprView| #[trigger] alt_expr_m(r, v) is Some <==> v == ExprView::Lit(
            ast::Lit::Char(c),
        ) by {
            assert(alt_expr_m(r, v) == expr_m(ep, v));
            match v {
                ExprView::Lit(l) => {
                    assert(expr_m(ep, v) == alt_lit_m(ep->Lit_0, l));
                    match l {
                        ast::Lit::Char(_) => {},
                        _ => {},
                    }
                },
                _ => {},
            }
        }
    }
    r
}

/// A value pattern accepting any integer literal.
fn lit_any_int_pat() -> (r: Alt<pattern_tree::Expr>)
    ensures
        forall|v: ExprView| #[trigger] alt_expr_m(r, v) is Some <==> v matches ExprView::Lit(
            ast::Lit::Int(_),
        ),
{
    let r = Alt::Elmt(
        Box::new(pattern_tree::Expr::Lit(Alt::Elmt(Box::new(pattern_tree::Lit::Int(Alt::Any))))),
    );
    proof {
        let ghost ep = *r->Elmt_0;
        assert forall|v: ExprView| #[trigger] alt_expr_m(r, v) is Some <==> v matches ExprView::Lit(
            ast::Lit::Int(_),
        ) by {
            assert(alt_expr_m(r, v) == expr_m(ep, v));
            match v {
                ExprView::Lit(l) => {
                    assert(expr_m(ep, v) == alt_lit_m(ep->Lit_0, l));
                    match l {
                        ast::Lit::Int(_) => {},
                        _ => {},
                    }
                },
                _ => {},
            }
        }
    }
    r
}

/// A value pattern accepting any boolean literal.
fn lit_any_bool_pat() -> (r: Alt<pattern_tree::Expr>)
    ensures
        forall|v: ExprView| #[trigger] alt_expr_m(r, v) is Some <==> v matches ExprView::Lit(
            ast::Lit::Bool(_),
        ),
{
    let r = Alt::Elmt(
        Box::new(pattern_tree::Expr::Lit(Alt::Elmt(Box::new(pattern_tree::Lit::Bool(Alt::Any))))),
    );
    proof {
        let ghost ep = *r->Elmt_0;
        assert forall|v: ExprView| #[trigger] alt_expr_m(r, v) is Some <==> v matches ExprView::Lit(
            ast::Lit::Bool(_),
        ) by {
            assert(alt_expr_m(r, v) == expr_m(ep, v));
            match v {
                ExprView::Lit(l) => {
                    assert(expr_m(ep, v) == alt_lit_m(ep->Lit_0, l));
                    match l {
                        ast::Lit::Bool(_) => {},
                        _ => {},
                    }
                },
                _ => {},
            }
        }
    }
    r
}

/// A sequence pattern matching any list of statements.
fn any_stmts_pat() -> (r: pattern_tree::Block)
    ensures
        forall|ss: Seq<StmtView>| #[trigger] seq_stmt_m(r, ss) is Some,
{
    let r = Sequence::Repeat(Box::new(Alt::Any), RepeatRange { start: 0, end: None });
    proof {
        assert forall|ss: Seq<StmtView>| #[trigger] seq_stmt_m(r, ss) is Some by {
            assert(forall|i: int|
                0 <= i < ss.len() ==> alt_stmt_m(Alt::Any, #[trigger] ss[i]) is Some);
        }
    }
    r
}

/// Detects an `if` that could be collapsed: either an `if` with no `else`
/// whose body is exactly one statement that is another `if` with no
/// `else`, or an `if`/`if let` whose `else` clause is a block holding
/// exactly one `if`/`if let` statement.
pub struct CollapsibleIf {
    pub pat_if_without_else: Alt<pattern_tree::Expr>,
    pub pat_if_2: Alt<pattern_tree::Expr>,
}

/// The pattern of the inner `if`: condition, body and the whole node
/// captured, `else` absent.
fn inner_if_pat() -> (r: Alt<pattern_tree::Expr>)
    ensures
        forall|v: ExprView| #[trigger] alt_expr_m(r, v) is Some <==> if_without_else(v),
        forall|v: ExprView|
            (#[trigger] alt_expr_m(r, v)) matches Some(m) ==> m.contains_key("inner"@)
                && m.contains_key("check_inner"@) && m.contains_key("content"@),
{
    let body = Sequence::Named(Box::new(any_stmts_pat()), String::from_str("content"));
    let ghost gbody = body;
    let r = Alt::Named(
        Box::new(
            Alt::Elmt(
                Box::new(
                    pattern_tree::Expr::If(
                        Alt::Named(Box::new(Alt::Any), String::from_str("check_inner")),
                        body,
                        Opt::Absent,
                    ),
                ),
            ),
        ),
        String::from_str("inner"),
    );
    proof {
        let ghost q = *r->Named_0;
        let ghost ep = *q->Elmt_0;
        let ghost cond = ep->If_0;
        assert forall|v: ExprView| #[trigger] alt_expr_m(r, v) is Some <==> if_without_else(v) by {
            assert(alt_expr_m(q, v) == expr_m(ep, v));
            match v {
                ExprView::If(c, t, e) => {
                    assert(alt_expr_m(*cond->Named_0, *c) is Some);
                    assert(alt_expr_m(cond, *c) is Some);
                    assert(seq_stmt_m(*gbody->Named_0, t) is Some);
                    assert(seq_stmt_m(gbody, t) is Some);
                    assert(expr_m(ep, v) == crate::match_result::join_caps(
                        crate::match_result::join_caps(
                            alt_expr_m(cond, *c),
                            seq_stmt_m(gbody, t),
                        ),
                        opt_expr_m(Opt::Absent, e),
                    ));
                },
                _ => {
                    assert(expr_m(ep, v) is None);
                },
            }
        }
        assert forall|v: ExprView| (#[trigger] alt_expr_m(r, v)) is Some implies alt_expr_m(
            r,
            v,
        )->Some_0.contains_key("inner"@) && alt_expr_m(r, v)->Some_0.contains_key("check_inner"@)
            && alt_expr_m(r, v)->Some_0.contains_key("content"@) by {
            if alt_expr_m(r, v) is Some {
                assert(alt_expr_m(q, v) == expr_m(ep, v));
                match v {
                    ExprView::If(c, t, e) => {
                        assert(alt_expr_m(*cond->Named_0, *c) is Some);
                        assert(alt_expr_m(cond, *c)->Some_0.contains_key("check_inner"@));
                        assert(seq_stmt_m(*gbody->Named_0, t) is Some);
                        assert(seq_stmt_m(gbody, t)->Some_0.contains_key("content"@));
                        assert(expr_m(ep, v) == crate::match_result::join_caps(
                            crate::match_result::join_caps(
                                alt_expr_m(cond, *c),
                                seq_stmt_m(gbody, t),
                            ),
                            opt_expr_m(Opt::Absent, e),
                        ));
                        assert(expr_m(ep, v)->Some_0.contains_key("check_inner"@));
                        assert(expr_m(ep, v)->Some_0.contains_key("content"@));
                    },
                    _ => {},
                }
            }
        }
    }
    r
}

/// One of the two statement forms carrying the inner `if`.
fn inner_if_stmt_pat(semi: bool) -> (r: Alt<pattern_tree::Stmt>)
    ensures
        forall|sv: StmtView| #[trigger] alt_stmt_m(r, sv) is Some <==> (if semi {
            sv matches StmtView::Semi(w) && if_without_else(w)
        } else {
            sv matches StmtView::Expr(w) && if_without_else(w)
        }),
        forall|sv: StmtView|
            (#[trigger] alt_stmt_m(r, sv)) matches Some(m) ==> m.contains_key("inner"@)
                && m.contains_key("check_inner"@) && m.contains_key("content"@),
{
    let inner = inner_if_pat();
    let ghost ginner = inner;
    let st = if semi {
        pattern_tree::Stmt::Semi(inner)
    } else {
        pattern_tree::Stmt::Expr(inner)
    };
    let ghost gst = st;
    let r = Alt::Elmt(Box::new(st));
    proof {
        assert forall|sv: StmtView| #[trigger] alt_stmt_m(r, sv) is Some <==> (if semi {
            sv matches StmtView::Semi(w) && if_without_else(w)
        } else {
            sv matches StmtView::Expr(w) && if_without_else(w)
        }) by {
            assert(alt_stmt_m(r, sv) == stmt_m(gst, sv));
            match sv {
                StmtView::Expr(w) => {
                    if semi {
                        assert(stmt_m(gst, sv) is None);
                    } else {
                        assert(stmt_m(gst, sv) == alt_expr_m(ginner, w));
                    }
                },
                StmtView::Semi(w) => {
                    if semi {
                        assert(stmt_m(gst, sv) == alt_expr_m(ginner, w));
                    } else {
                        assert(stmt_m(gst, sv) is None);
                    }
                },
            }
        }
        assert forall|sv: StmtView| (#[trigger] alt_stmt_m(r, sv)) is Some implies alt_stmt_m(
            r,
            sv,
        )->Some_0.contains_key("inner"@) && alt_stmt_m(r, sv)->Some_0.contains_key("check_inner"@)
            && alt_stmt_m(r, sv)->Some_0.contains_key("content"@) by {
            if alt_stmt_m(r, sv) is Some {
                assert(alt_stmt_m(r, sv) == stmt_m(gst, sv));
                match sv {
                    StmtView::Expr(w) => {
                        assert(stmt_m(gst, sv) == alt_expr_m(ginner, w));
                    },
                    StmtView::Semi(w) => {
                        assert(stmt_m(gst, sv) == alt_expr_m(ginner, w));
                    },
                }
            }
        }
    }
    r
}

impl CollapsibleIf {
    /// Builds the rule's two patterns; each matches exactly its shape, and
    /// a successful match carries the captures a report points at.
    pub fn new() -> (r: CollapsibleIf)
        ensures
            forall|v: ExprView|
                #[trigger] alt_expr_m(r.pat_if_without_else, v) is Some <==> collapsible_if_shape(
                    v,
                ),
            forall|v: ExprView|
                (#[trigger] alt_expr_m(r.pat_if_without_else, v)) matches Some(m)
                    ==> m.contains_key("check"@) && m.contains_key("then"@) && m.contains_key(
                    "inner"@,
                ) && m.contains_key("check_inner"@) && m.contains_key("content"@),
            forall|v: ExprView|
                #[trigger] alt_expr_m(r.pat_if_2, v) is Some <==> else_collapsible_shape(v),
            forall|v: ExprView|
                (#[trigger] alt_expr_m(r.pat_if_2, v)) matches Some(m) ==> m.contains_key(
                    "block"@,
                ) && m.contains_key("else_"@),
    {
        let sp_expr = inner_if_stmt_pat(false);
        let sp_semi = inner_if_stmt_pat(true);
        let ghost gsp_expr = sp_expr;
        let ghost gsp_semi = sp_semi;
        let alt_stmts = Sequence::Alt(
            Box::new(Sequence::Elmt(Box::new(sp_expr))),
            Box::new(Sequence::Elmt(Box::new(sp_semi))),
        );
        let ghost galt = alt_stmts;
        let then_block = Sequence::Named(Box::new(alt_stmts), String::from_str("then"));
        let ghost gthen = then_block;
        let cond = Alt::Named(Box::new(Alt::Any), String::from_str("check"));
        let ghost gcond = cond;
        let pat1 = Alt::Elmt(Box::new(pattern_tree::Expr::If(cond, then_block, Opt::Absent)));
        let pat2 = pat_if_2();
        proof {
            let ghost ep = *pat1->Elmt_0;
            assert forall|ss: Seq<StmtView>| #[trigger] seq_stmt_m(gthen, ss) is Some <==> (
            ss.len() == 1 && inner_if_stmt(ss[0])) by {
                assert(seq_stmt_m(gthen, ss) is Some <==> seq_stmt_m(galt, ss) is Some);
                if ss.len() == 1 {
                    assert(seq_stmt_m(*galt->Alt_0, ss) == alt_stmt_m(gsp_expr, ss[0]));
                    assert(seq_stmt_m(*galt->Alt_1, ss) == alt_stmt_m(gsp_semi, ss[0]));
                } else {
                    assert(seq_stmt_m(*galt->Alt_0, ss) is None);
                    assert(seq_stmt_m(*galt->Alt_1, ss) is None);
                }
            }
            assert forall|ss: Seq<StmtView>| (#[trigger] seq_stmt_m(gthen, ss)) is Some
                implies seq_stmt_m(gthen, ss)->Some_0.contains_key("then"@) && seq_stmt_m(
                gthen,
                ss,
            )->Some_0.contains_key("inner"@) && seq_stmt_m(gthen, ss)->Some_0.contains_key(
                "check_inner"@,
            ) && seq_stmt_m(gthen, ss)->Some_0.contains_key("content"@) by {
                if seq_stmt_m(gthen, ss) is Some {
                    assert(seq_stmt_m(galt, ss) is Some);
                    assert(ss.len() == 1);
                    if seq_stmt_m(*galt->Alt_0, ss) is Some {
                        assert(seq_stmt_m(galt, ss) == seq_stmt_m(*galt->Alt_0, ss));
                        assert(seq_stmt_m(*galt->Alt_0, ss) == alt_stmt_m(gsp_expr, ss[0]));
                    } else {
                        assert(seq_stmt_m(galt, ss) == seq_stmt_m(*galt->Alt_1, ss));
                        assert(seq_stmt_m(*galt->Alt_1, ss) == alt_stmt_m(gsp_semi, ss[0]));
                    }
                }
            }
            assert forall|v: ExprView| #[trigger] alt_expr_m(pat1, v) is Some
                <==> collapsible_if_shape(v) by {
                assert(alt_expr_m(pat1, v) == expr_m(ep, v));
                match v {
                    ExprView::If(c, t, e) => {
                        assert(alt_expr_m(*gcond->Named_0, *c) is Some);
                        assert(alt_expr_m(gcond, *c) is Some);
                        assert(expr_m(ep, v) == crate::match_result::join_caps(
                            crate::match_result::join_caps(
                                alt_expr_m(gcond, *c),
                                seq_stmt_m(gthen, t),
                            ),
                            opt_expr_m(Opt::Absent, e),
                        ));
                    },
                    _ => {
                        assert(expr_m(ep, v) is None);
                    },
                }
            }
            assert forall|v: ExprView| (#[trigger] alt_expr_m(pat1, v)) is Some
                implies alt_expr_m(pat1, v)->Some_0.contains_key("check"@) && alt_expr_m(
                pat1,
                v,
            )->Some_0.contains_key("then"@) && alt_expr_m(pat1, v)->Some_0.contains_key("inner"@)
                && alt_expr_m(pat1, v)->Some_0.contains_key("check_inner"@) && alt_expr_m(
                pat1,
                v,
            )->Some_0.contains_key("content"@) by {
                if alt_expr_m(pat1, v) is Some {
                    assert(alt_expr_m(pat1, v) == expr_m(ep, v));
                    match v {
                        ExprView::If(c, t, e) => {
                            assert(alt_expr_m(*gcond->Named_0, *c) is Some);
                            assert(alt_expr_m(gcond, *c)->Some_0.contains_key("check"@));
                            assert(expr_m(ep, v) == crate::match_result::join_caps(
                                crate::match_result::join_caps(
                                    alt_expr_m(gcond, *c),
                                    seq_stmt_m(gthen, t),
                                ),
                                opt_expr_m(Opt::Absent, e),
                            ));
                        },
                        _ => {},
                    }
                }
            }
        }
        CollapsibleIf { pat_if_without_else: pat1, pat_if_2: pat2 }
    }

    /// Decides whether the rule fires on this expression: the first result
    /// is the if-without-else match, the second the else-block match; on
    /// success the captures name the parts a report would point at.
    pub fn check_expr(&self, expr: &ast::Expr) -> (r: (Option<MatchResult>, Option<MatchResult>))
        ensures
            opt_result_view(r.0) == alt_expr_m(self.pat_if_without_else, expr.deep_view()),
            opt_result_view(r.1) == alt_expr_m(self.pat_if_2, expr.deep_view()),
    {
        (self.pat_if_without_else.is_match(expr), self.pat_if_2.is_match(expr))
    }
}

/// An `if` whose `else` clause must be present (or absent), its other
/// parts unconstrained.
fn any_if_pat(with_else: bool) -> (r: Alt<pattern_tree::Expr>)
    ensures
        forall|v: ExprView| #[trigger] alt_expr_m(r, v) is Some <==> (if with_else {
            v matches ExprView::If(_, _, e) && e is Some
        } else {
            v matches ExprView::If(_, _, e) && e is None
        }),
{
    let body = any_stmts_pat();
    let ghost gbody = body;
    let r = Alt::Elmt(
        Box::new(
            pattern_tree::Expr::If(
                Alt::Any,
                body,
                if with_else {
                    Opt::Any
                } else {
                    Opt::Absent
                },
            ),
        ),
    );
    proof {
        let ghost ep = *r->Elmt_0;
        assert forall|v: ExprView| #[trigger] alt_expr_m(r, v) is Some <==> (if with_else {
            v matches ExprView::If(_, _, e) && e is Some
        } else {
            v matches ExprView::If(_, _, e) && e is None
        }) by {
            assert(alt_expr_m(r, v) == expr_m(ep, v));
            match v {
                ExprView::If(c, t, e) => {
                    assert(alt_expr_m(Alt::Any, *c) is Some);
                    assert(seq_stmt_m(gbody, t) is Some);
                    assert(expr_m(ep, v) == crate::match_result::join_caps(
                        crate::match_result::join_caps(
                            alt_expr_m(Alt::Any, *c),
                            seq_stmt_m(gbody, t),
                        ),
                        opt_expr_m(ep->If_2, e),
                    ));
                },
                _ => {
                    assert(expr_m(ep, v) is None);
                },
            }
        }
    }
    r
}

/// An `if let` whose `else` clause must be present (or absent), its other
/// parts unconstrained.
fn any_if_let_pat(with_else: bool) -> (r: Alt<pattern_tree::Expr>)
    ensures
        forall|v: ExprView| #[trigger] alt_expr_m(r, v) is Some <==> (if with_else {
            v matches ExprView::IfLet(_, e) && e is Some
        } else {
            v matches ExprView::IfLet(_, e) && e is None
        }),
{
    let body = any_stmts_pat();
    let ghost gbody = body;
    let r = Alt::Elmt(
        Box::new(
            pattern_tree::Expr::IfLet(
                body,
                if with_else {
                    Opt::Any
                } else {
                    Opt::Absent
                },
            ),
        ),
    );
    proof {
        let ghost ep = *r->Elmt_0;
        assert forall|v: ExprView| #[trigger] alt_expr_m(r, v) is Some <==> (if with_else {
            v matches ExprView::IfLet(_, e) && e is Some
        } else {
            v matches ExprView::IfLet(_, e) && e is None
        }) by {
            assert(alt_expr_m(r, v) == expr_m(ep, v));
            match v {
                ExprView::IfLet(t, e) => {
                    assert(seq_stmt_m(gbody, t) is Some);
                    assert(expr_m(ep, v) == crate::match_result::join_caps(
                        seq_stmt_m(gbody, t),
                        opt_expr_m(ep->IfLet_1, e),
                    ));
                },
                _ => {
                    assert(expr_m(ep, v) is None);
                },
            }
        }
    }
    r
}

/// The target of the else-collapse rule: any `if` or `if let`, its own
/// `else` present or absent, the matched expression captured.
fn else_target_pat() -> (r: Alt<pattern_tree::Expr>)
    ensures
        forall|v: ExprView| #[trigger] alt_expr_m(r, v) is Some <==> if_or_if_let(v),
        forall|v: ExprView|
            (#[trigger] alt_expr_m(r, v)) matches Some(m) ==> m.contains_key("else_"@),
{
    let if_some = any_if_pat(true);
    let if_none = any_if_pat(false);
    let if_let_some = any_if_let_pat(true);
    let if_let_none = any_if_let_pat(false);
    let ghost g1 = if_some;
    let ghost g2 = if_none;
    let ghost g3 = if_let_some;
    let ghost g4 = if_let_none;
    let left = Alt::Alt(Box::new(if_some), Box::new(if_none));
    let right = Alt::Alt(Box::new(if_let_some), Box::new(if_let_none));
    let ghost gleft = left;
    let ghost gright = right;
    let four = Alt::Alt(Box::new(left), Box::new(right));
    let ghost gfour = four;
    let r = Alt::Named(Box::new(four), String::from_str("else_"));
    proof {
        assert forall|v: ExprView| #[trigger] alt_expr_m(r, v) is Some <==> if_or_if_let(v) by {
            assert(alt_expr_m(r, v) is Some <==> alt_expr_m(gfour, v) is Some);
            assert(alt_expr_m(gfour, v) is Some <==> (alt_expr_m(gleft, v) is Some || alt_expr_m(
                gright,
                v,
            ) is Some));
            assert(alt_expr_m(gleft, v) is Some <==> (alt_expr_m(g1, v) is Some || alt_expr_m(
                g2,
                v,
            ) is Some));
            assert(alt_expr_m(gright, v) is Some <==> (alt_expr_m(g3, v) is Some || alt_expr_m(
                g4,
                v,
            ) is Some));
            match v {
                ExprView::If(c, t, e) => {},
                ExprView::IfLet(t, e) => {},
                _ => {},
            }
        }
        assert forall|v: ExprView| (#[trigger] alt_expr_m(r, v)) is Some implies alt_expr_m(
            r,
            v,
        )->Some_0.contains_key("else_"@) by {}
    }
    r
}

/// The statements of the `else` block: exactly one, an expression or
/// semicolon statement holding the target `if`/`if let`.
fn else_block_pat() -> (r: pattern_tree::Block)
    ensures
        forall|ss: Seq<StmtView>| #[trigger] seq_stmt_m(r, ss) is Some <==> else_block_stmts(ss),
        forall|ss: Seq<StmtView>|
            (#[trigger] seq_stmt_m(r, ss)) matches Some(m) ==> m.contains_key("else_"@),
{
    let t1 = else_target_pat();
    let t2 = else_target_pat();
    let ghost gt1 = t1;
    let ghost gt2 = t2;
    let s1 = Alt::Elmt(Box::new(pattern_tree::Stmt::Expr(t1)));
    let s2 = Alt::Elmt(Box::new(pattern_tree::Stmt::Semi(t2)));
    let ghost gs1 = s1;
    let ghost gs2 = s2;
    let r = Sequence::Alt(
        Box::new(Sequence::Elmt(Box::new(s1))),
        Box::new(Sequence::Elmt(Box::new(s2))),
    );
    proof {
        assert forall|sv: StmtView| #[trigger] alt_stmt_m(gs1, sv) is Some <==> (sv matches
            StmtView::Expr(w) && if_or_if_let(w)) by {
            assert(alt_stmt_m(gs1, sv) == stmt_m(*gs1->Elmt_0, sv));
            match sv {
                StmtView::Expr(w) => {
                    assert(stmt_m(*gs1->Elmt_0, sv) == alt_expr_m(gt1, w));
                },
                StmtView::Semi(w) => {
                    assert(stmt_m(*gs1->Elmt_0, sv) is None);
                },
            }
        }
        assert forall|sv: StmtView| #[trigger] alt_stmt_m(gs2, sv) is Some <==> (sv matches
            StmtView::Semi(w) && if_or_if_let(w)) by {
            assert(alt_stmt_m(gs2, sv) == stmt_m(*gs2->Elmt_0, sv));
            match sv {
                StmtView::Expr(w) => {
                    assert(stmt_m(*gs2->Elmt_0, sv) is None);
                },
                StmtView::Semi(w) => {
                    assert(stmt_m(*gs2->Elmt_0, sv) == alt_expr_m(gt2, w));
                },
            }
        }
        assert forall|ss: Seq<StmtView>| #[trigger] seq_stmt_m(r, ss) is Some <==> else_block_stmts(
            ss,
        ) by {
            if ss.len() == 1 {
                assert(seq_stmt_m(*r->Alt_0, ss) == alt_stmt_m(gs1, ss[0]));
                assert(seq_stmt_m(*r->Alt_1, ss) == alt_stmt_m(gs2, ss[0]));
            } else {
                assert(seq_stmt_m(*r->Alt_0, ss) is None);
                assert(seq_stmt_m(*r->Alt_1, ss) is None);
            }
        }
        assert forall|ss: Seq<StmtView>| (#[trigger] seq_stmt_m(r, ss)) is Some
            implies seq_stmt_m(r, ss)->Some_0.contains_key("else_"@) by {
            if seq_stmt_m(r, ss) is Some {
                assert(ss.len() == 1);
                if seq_stmt_m(*r->Alt_0, ss) is Some {
                    assert(seq_stmt_m(r, ss) == seq_stmt_m(*r->Alt_0, ss));
                    assert(seq_stmt_m(*r->Alt_0, ss) == alt_stmt_m(gs1, ss[0]));
                    assert(alt_stmt_m(gs1, ss[0]) == stmt_m(*gs1->Elmt_0, ss[0]));
                    match ss[0] {
                        StmtView::Expr(w) => {
                            assert(stmt_m(*gs1->Elmt_0, ss[0]) == alt_expr_m(gt1, w));
                        },
                        StmtView::Semi(w) => {},
                    }
                } else {
                    assert(seq_stmt_m(r, ss) == seq_stmt_m(*r->Alt_1, ss));
                    assert(seq_stmt_m(*r->Alt_1, ss) == alt_stmt_m(gs2, ss[0]));
                    assert(alt_stmt_m(gs2, ss[0]) == stmt_m(*gs2->Elmt_0, ss[0]));
                    match ss[0] {
                        StmtView::Expr(w) => {},
                        StmtView::Semi(w) => {
                            assert(stmt_m(*gs2->Elmt_0, ss[0]) == alt_expr_m(gt2, w));
                        },
                    }
                }
            }
        }
    }
    r
}

/// The `else` slot of the else-collapse rule: a block expression holding
/// the target, the block captured.
fn else_slot_pat() -> (r: Opt<pattern_tree::Expr>)
    ensures
        forall|e: Option<Box<ExprView>>|
            #[trigger] opt_expr_m(r, e) is Some <==> (e matches Some(b) && (*b) matches
                ExprView::Block(ss) && else_block_stmts(ss)),
        forall|e: Option<Box<ExprView>>|
            (#[trigger] opt_expr_m(r, e)) matches Some(m) ==> m.contains_key("block"@)
                && m.contains_key("else_"@),
{
    let bp = else_block_pat();
    let ghost gbp = bp;
    let r = Opt::Named(
        Box::new(Opt::Elmt(Box::new(pattern_tree::Expr::Block(bp)))),
        String::from_str("block"),
    );
    proof {
        let ghost q = *r->Named_0;
        let ghost ep = *q->Elmt_0;
        assert forall|e: Option<Box<ExprView>>| #[trigger] opt_expr_m(r, e) is Some <==> (e matches
            Some(b) && (*b) matches ExprView::Block(ss) && else_block_stmts(ss)) by {
            assert(opt_expr_m(r, e) is Some <==> opt_expr_m(q, e) is Some);
            match e {
                Some(b) => {
                    assert(opt_expr_m(q, e) == expr_m(ep, *b));
                    match *b {
                        ExprView::Block(ss) => {
                            assert(expr_m(ep, *b) == seq_stmt_m(gbp, ss));
                        },
                        _ => {},
                    }
                },
                None => {},
            }
        }
        assert forall|e: Option<Box<ExprView>>| (#[trigger] opt_expr_m(r, e)) is Some
            implies opt_expr_m(r, e)->Some_0.contains_key("block"@) && opt_expr_m(
            r,
            e,
        )->Some_0.contains_key("else_"@) by {
            if opt_expr_m(r, e) is Some {
                assert(opt_expr_m(q, e) is Some);
                match e {
                    Some(b) => {
                        assert(opt_expr_m(q, e) == expr_m(ep, *b));
                        match *b {
                            ExprView::Block(ss) => {
                                assert(expr_m(ep, *b) == seq_stmt_m(gbp, ss));
                            },
                            _ => {},
                        }
                    },
                    None => {},
                }
            }
        }
    }
    r
}

/// The else-collapse pattern: an `if` or `if let` whose `else` clause is a
/// block holding exactly one `if`/`if let` statement.
fn pat_if_2() -> (r: Alt<pattern_tree::Expr>)
    ensures
        forall|v: ExprView| #[trigger] alt_expr_m(r, v) is Some <==> else_collapsible_shape(v),
        forall|v: ExprView|
            (#[trigger] alt_expr_m(r, v)) matches Some(m) ==> m.contains_key("block"@)
                && m.contains_key("else_"@),
{
    let body1 = any_stmts_pat();
    let body2 = any_stmts_pat();
    let slot1 = else_slot_pat();
    let slot2 = else_slot_pat();
    let ghost gbody1 = body1;
    let ghost gbody2 = body2;
    let ghost gslot1 = slot1;
    let ghost gslot2 = slot2;
    let arm_if = Alt::Elmt(Box::new(pattern_tree::Expr::If(Alt::Any, body1, slot1)));
    let arm_if_let = Alt::Elmt(Box::new(pattern_tree::Expr::IfLet(body2, slot2)));
    let ghost garm1 = arm_if;
    let ghost garm2 = arm_if_let;
    let r = Alt::Alt(Box::new(arm_if), Box::new(arm_if_let));
    proof {
        assert forall|v: ExprView| #[trigger] alt_expr_m(garm1, v) is Some <==> (v matches
            ExprView::If(_, _, e) && e matches Some(b) && (*b) matches ExprView::Block(ss)
            && else_block_stmts(ss)) by {
            assert(alt_expr_m(garm1, v) == expr_m(*garm1->Elmt_0, v));
            match v {
                ExprView::If(c, t, e) => {
                    assert(alt_expr_m(Alt::Any, *c) is Some);
                    assert(seq_stmt_m(gbody1, t) is Some);
                    assert(expr_m(*garm1->Elmt_0, v) == crate::match_result::join_caps(
                        crate::match_result::join_caps(
                            alt_expr_m(Alt::Any, *c),
                            seq_stmt_m(gbody1, t),
                        ),
                        opt_expr_m(gslot1, e),
                    ));
                },
                _ => {
                    assert(expr_m(*garm1->Elmt_0, v) is None);
                },
            }
        }
        assert forall|v: ExprView| #[trigger] alt_expr_m(garm2, v) is Some <==> (v matches
            ExprView::IfLet(_, e) && e matches Some(b) && (*b) matches ExprView::Block(ss)
            && else_block_stmts(ss)) by {
            assert(alt_expr_m(garm2, v) == expr_m(*garm2->Elmt_0, v));
            match v {
                ExprView::IfLet(t, e) => {
                    assert(seq_stmt_m(gbody2, t) is Some);
                    assert(expr_m(*garm2->Elmt_0, v) == crate::match_result::join_caps(
                        seq_stmt_m(gbody2, t),
                        opt_expr_m(gslot2, e),
                    ));
                },
                _ => {
                    assert(expr_m(*garm2->Elmt_0, v) is None);
                },
            }
        }
        assert forall|v: ExprView| #[trigger] alt_expr_m(r, v) is Some <==> else_collapsible_shape(
            v,
        ) by {
            assert(alt_expr_m(r, v) is Some <==> (alt_expr_m(garm1, v) is Some || alt_expr_m(
                garm2,
                v,
            ) is Some));
        }
        assert forall|v: ExprView| (#[trigger] alt_expr_m(r, v)) is Some implies alt_expr_m(
            r,
            v,
        )->Some_0.contains_key("block"@) && alt_expr_m(r, v)->Some_0.contains_key("else_"@) by {
            if alt_expr_m(r, v) is Some {
                if alt_expr_m(garm1, v) is Some {
                    assert(alt_expr_m(garm1, v) == expr_m(*garm1->Elmt_0, v));
                    match v {
                        ExprView::If(c, t, e) => {
                            assert(opt_expr_m(gslot1, e)->Some_0.contains_key("block"@));
                            assert(opt_expr_m(gslot1, e)->Some_0.contains_key("else_"@));
                        },
                        _ => {},
                    }
                } else {
                    assert(alt_expr_m(garm2, v) == expr_m(*garm2->Elmt_0, v));
                    match v {
                        ExprView::IfLet(t, e) => {
                            assert(opt_expr_m(gslot2, e)->Some_0.contains_key("block"@));
                            assert(opt_expr_m(gslot2, e)->Some_0.contains_key("else_"@));
                        },
                        _ => {},
                    }
                }
            }
        }
    }
    r
}

/// A rule looking for one of three simple shapes: the literal `false`, a
/// character array of the form `a* b{1,3} c`, or an `if true` whose body
/// is integer-literal expression statements followed by boolean-literal
/// semicolon statements, with no `else`.
pub struct SimplePattern {
    pub pat: Alt<pattern_tree::Expr>,
}

/// The sequence pattern of the array arm: `a* b{1,3} c`.
fn char_run_pat() -> (r: Sequence<pattern_tree::Expr>)
    ensures
        forall|es: Seq<ExprView>| #[trigger] seq_expr_m(r, es) is Some <==> char_array_shape(es),
{
    let pa = lit_char_pat('a');
    let pb = lit_char_pat('b');
    let pc = lit_char_pat('c');
    let ghost gpa = pa;
    let ghost gpb = pb;
    let ghost gpc = pc;
    let rep_a = Sequence::Repeat(Box::new(pa), RepeatRange { start: 0, end: None });
    let tail = Sequence::Concat(
        Box::new(Sequence::Repeat(Box::new(pb), RepeatRange { start: 1, end: Some(4) })),
        Box::new(Sequence::Elmt(Box::new(pc))),
    );
    let ghost gtail = tail;
    let r = Sequence::Concat(Box::new(rep_a), Box::new(tail));
    proof {
        assert forall|es: Seq<ExprView>| #[trigger] seq_expr_m(r, es) is Some <==> char_array_shape(
            es,
        ) by {
            if char_array_shape(es) {
                let (i, j) = choose|i: int, j: int| char_runs(es, i, j);
                let left = es.take(i);
                let right = es.skip(i);
                let mid = right.take(j - i);
                let last = right.skip(j - i);
                assert forall|k: int| 0 <= k < left.len() implies alt_expr_m(
                    gpa,
                    #[trigger] left[k],
                ) is Some by {
                    assert(left[k] == es[k]);
                }
                assert(seq_expr_m(*r->Concat_0, left) is Some);
                assert forall|k: int| 0 <= k < mid.len() implies alt_expr_m(
                    gpb,
                    #[trigger] mid[k],
                ) is Some by {
                    assert(mid[k] == es[i + k]);
                }
                assert(seq_expr_m(*gtail->Concat_0, mid) is Some);
                assert(last.len() == 1);
                assert(last[0] == es[j]);
                assert(alt_expr_m(gpc, last[0]) is Some);
                assert(seq_expr_m(*gtail->Concat_1, last) is Some);
                lemma_concat_split_found(gtail, right, j - i);
                assert(seq_expr_m(*r->Concat_1, right) is Some);
                lemma_concat_split_found(r, es, i);
            }
            if seq_expr_m(r, es) is Some {
                let i = lemma_seq_expr_concat_witness(r, es, 0);
                let left = es.take(i);
                let right = es.skip(i);
                assert(seq_expr_m(gtail, right) is Some);
                let m = lemma_seq_expr_concat_witness(gtail, right, 0);
                let mid = right.take(m);
                let last = right.skip(m);
                assert(seq_expr_m(*gtail->Concat_0, mid) is Some);
                assert(seq_expr_m(*gtail->Concat_1, last) is Some);
                assert(1 <= m <= 3);
                assert(last.len() == 1);
                let j = i + m;
                assert forall|k: int| 0 <= k < i implies #[trigger] es[k] == ExprView::Lit(
                    ast::Lit::Char('a'),
                ) by {
                    assert(left[k] == es[k]);
                    assert(alt_expr_m(gpa, left[k]) is Some);
                }
                assert forall|k: int| i <= k < j implies #[trigger] es[k] == ExprView::Lit(
                    ast::Lit::Char('b'),
                ) by {
                    assert(mid[k - i] == es[k]);
                    assert(alt_expr_m(gpb, mid[k - i]) is Some);
                }
                assert(last[0] == es[j]);
                assert(alt_expr_m(gpc, last[0]) is Some);
                assert(char_runs(es, i, j));
            }
        }
    }
    r
}

/// The sequence pattern of the `if` arm's body: integer-literal expression
/// statements followed by boolean-literal semicolon statements.
fn simple_if_body_pat() -> (r: pattern_tree::Block)
    ensures
        forall|ss: Seq<StmtView>|
            #[trigger] seq_stmt_m(r, ss) is Some <==> simple_if_body_shape(ss),
{
    let ip = lit_any_int_pat();
    let bp = lit_any_bool_pat();
    let ghost gip = ip;
    let ghost gbp = bp;
    let pi = Alt::Elmt(Box::new(pattern_tree::Stmt::Expr(ip)));
    let psemi = Alt::Elmt(Box::new(pattern_tree::Stmt::Semi(bp)));
    let ghost gpi = pi;
    let ghost gpsemi = psemi;
    let r = Sequence::Concat(
        Box::new(Sequence::Repeat(Box::new(pi), RepeatRange { start: 0, end: None })),
        Box::new(Sequence::Repeat(Box::new(psemi), RepeatRange { start: 0, end: None })),
    );
    proof {
        assert forall|sv: StmtView| #[trigger] alt_stmt_m(gpi, sv) is Some <==> int_expr_stmt(
            sv,
        ) by {
            assert(alt_stmt_m(gpi, sv) == stmt_m(*gpi->Elmt_0, sv));
            match sv {
                StmtView::Expr(w) => {
                    assert(stmt_m(*gpi->Elmt_0, sv) == alt_expr_m(gip, w));
                },
                StmtView::Semi(w) => {
                    assert(stmt_m(*gpi->Elmt_0, sv) is None);
                },
            }
        }
        assert forall|sv: StmtView| #[trigger] alt_stmt_m(gpsemi, sv) is Some <==> bool_semi_stmt(
            sv,
        ) by {
            assert(alt_stmt_m(gpsemi, sv) == stmt_m(*gpsemi->Elmt_0, sv));
            match sv {
                StmtView::Expr(w) => {
                    assert(stmt_m(*gpsemi->Elmt_0, sv) is None);
                },
                StmtView::Semi(w) => {
                    assert(stmt_m(*gpsemi->Elmt_0, sv) == alt_expr_m(gbp, w));
                },
            }
        }
        assert forall|ss: Seq<StmtView>| #[trigger] seq_stmt_m(r, ss) is Some
            <==> simple_if_body_shape(ss) by {
            if simple_if_body_shape(ss) {
                let k = choose|k: int| int_prefix_bool_suffix(ss, k);
                let left = ss.take(k);
                let right = ss.skip(k);
                assert forall|j: int| 0 <= j < left.len() implies alt_stmt_m(
                    gpi,
                    #[trigger] left[j],
                ) is Some by {
                    assert(left[j] == ss[j]);
                }
                assert(seq_stmt_m(*r->Concat_0, left) is Some);
                assert forall|j: int| 0 <= j < right.len() implies alt_stmt_m(
                    gpsemi,
                    #[trigger] right[j],
                ) is Some by {
                    assert(right[j] == ss[k + j]);
                }
                assert(seq_stmt_m(*r->Concat_1, right) is Some);
                lemma_concat_split_found_stmts(r, ss, k);
            }
            if seq_stmt_m(r, ss) is Some {
                let k = lemma_seq_stmt_concat_witness(r, ss, 0);
                let left = ss.take(k);
                let right = ss.skip(k);
                assert(seq_stmt_m(*r->Concat_0, left) is Some);
                assert(seq_stmt_m(*r->Concat_1, right) is Some);
                assert forall|j: int| 0 <= j < k implies int_expr_stmt(#[trigger] ss[j]) by {
                    assert(left[j] == ss[j]);
                    assert(alt_stmt_m(gpi, left[j]) is Some);
                }
                assert forall|j: int| k <= j < ss.len() implies bool_semi_stmt(
                    #[trigger] ss[j],
                ) by {
                    assert(right[j - k] == ss[j]);
                    assert(alt_stmt_m(gpsemi, right[j - k]) is Some);
                }
                assert(int_prefix_bool_suffix(ss, k));
            }
        }
    }
    r
}

impl SimplePattern {
    /// Builds the rule's pattern; it matches exactly the three documented
    /// shapes.
    pub fn new() -> (r: SimplePattern)
        ensures
            forall|v: ExprView| #[trigger] alt_expr_m(r.pat, v) is Some <==> simple_shape(v),
    {
        let arm_false = lit_bool_pat(false);
        let cond_true = lit_bool_pat(true);
        let run = char_run_pat();
        let body = simple_if_body_pat();
        let ghost gfalse = arm_false;
        let ghost gcond = cond_true;
        let ghost grun = run;
        let ghost gbody = body;
        let arm_array = Alt::Elmt(Box::new(pattern_tree::Expr::Array(run)));
        let ghost garr = arm_array;
        let arm_if_inner = Alt::Elmt(
            Box::new(pattern_tree::Expr::If(cond_true, body, Opt::Absent)),
        );
        let ghost gifi = arm_if_inner;
        let arm_if = Alt::Named(Box::new(arm_if_inner), String::from_str("var"));
        let ghost gif = arm_if;
        let rest = Alt::Alt(Box::new(arm_array), Box::new(arm_if));
        let ghost grest = rest;
        let pat = Alt::Alt(Box::new(arm_false), Box::new(rest));
        proof {
            assert forall|v: ExprView| #[trigger] alt_expr_m(garr, v) is Some <==> (v matches
                ExprView::Array(es) && char_array_shape(es)) by {
                assert(alt_expr_m(garr, v) == expr_m(*garr->Elmt_0, v));
                match v {
                    ExprView::Array(es) => {
                        assert(expr_m(*garr->Elmt_0, v) == seq_expr_m(grun, es));
                    },
                    _ => {
                        assert(expr_m(*garr->Elmt_0, v) is None);
                    },
                }
            }
            assert forall|v: ExprView| #[trigger] alt_expr_m(gifi, v) is Some <==> (v matches
                ExprView::If(c, t, e) && *c == ExprView::Lit(ast::Lit::Bool(true))
                && simple_if_body_shape(t) && e is None) by {
                assert(alt_expr_m(gifi, v) == expr_m(*gifi->Elmt_0, v));
                match v {
                    ExprView::If(c, t, e) => {
                        assert(expr_m(*gifi->Elmt_0, v) == crate::match_result::join_caps(
                            crate::match_result::join_caps(
                                alt_expr_m(gcond, *c),
                                seq_stmt_m(gbody, t),
                            ),
                            opt_expr_m(Opt::Absent, e),
                        ));
                    },
                    _ => {
                        assert(expr_m(*gifi->Elmt_0, v) is None);
                    },
                }
            }
            assert forall|v: ExprView| #[trigger] alt_expr_m(pat, v) is Some <==> simple_shape(
                v,
            ) by {
                assert(alt_expr_m(pat, v) is Some <==> (alt_expr_m(gfalse, v) is Some
                    || alt_expr_m(grest, v) is Some));
                assert(alt_expr_m(grest, v) is Some <==> (alt_expr_m(garr, v) is Some
                    || alt_expr_m(gif, v) is Some));
                assert(alt_expr_m(gif, v) is Some <==> alt_expr_m(gifi, v) is Some);
            }
        }
        SimplePattern { pat }
    }

    /// Decides whether the rule fires on this expression.
    pub fn check_expr(&self, expr: &ast::Expr) -> (r: Option<MatchResult>)
        ensures
            opt_result_view(r) == alt_expr_m(self.pat, expr.deep_view()),
    {
        self.pat.is_match(expr)
    }
}

} // verus!
