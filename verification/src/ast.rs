//! The concrete syntax trees that patterns are matched against.
//!
//! The matcher never parses source text; it only inspects pre-built trees.
//! Each node kind carries plain values (characters, booleans, fixed-width
//! integers) or ordered lists of child nodes. The ghost views mirror the
//! same shapes over mathematical sequences, and every contract of the
//! matching engine speaks of those views.

use vstd::prelude::*;

verus! {

broadcast use vstd::std_specs::vec::group_vec_axioms, vstd::seq::group_seq_axioms;

/// A literal leaf value.
#[derive(Clone, Copy, Debug, PartialEq, Eq, Structural)]
pub enum Lit {
    Char(char),
    Bool(bool),
    Int(u128),
}

/// A concrete expression node.
#[derive(Debug, PartialEq)]
pub enum Expr {
    Lit(Lit),
    Array(Vec<Expr>),
    Block(Vec<Stmt>),
    If(Box<Expr>, Vec<Stmt>, Option<Box<Expr>>),
    IfLet(Vec<Stmt>, Option<Box<Expr>>),
}

/// A concrete statement node.
#[derive(Debug, PartialEq)]
pub enum Stmt {
    Expr(Expr),
    Semi(Expr),
}

/// The mathematical shape of an expression: lists of children become
/// sequences.
pub enum ExprView {
    Lit(Lit),
    Array(Seq<ExprView>),
    Block(Seq<StmtView>),
    If(Box<ExprView>, Seq<StmtView>, Option<Box<ExprView>>),
    IfLet(Seq<StmtView>, Option<Box<ExprView>>),
}

/// The mathematical shape of a statement.
pub enum StmtView {
    Expr(ExprView),
    Semi(ExprView),
}

/// The views of a list of expressions, in order.
pub open spec fn expr_seq_view(es: Seq<Expr>) -> Seq<ExprView>
    decreases es,
{
    if es.len() == 0 {
        Seq::empty()
    } else {
        expr_seq_view(es.drop_last()).push(es.last().deep_view())
    }
}

/// The views of a list of statements, in order.
pub open spec fn stmt_seq_view(ss: Seq<Stmt>) -> Seq<StmtView>
    decreases ss,
{
    if ss.len() == 0 {
        Seq::empty()
    } else {
        stmt_seq_view(ss.drop_last()).push(ss.last().deep_view())
    }
}

/// The view of an optional boxed expression.
pub open spec fn opt_expr_view(o: Option<Box<Expr>>) -> Option<Box<ExprView>>
    decreases o,
{
    match o {
        Some(b) => Some(Box::new((*b).deep_view())),
        None => None,
    }
}

impl DeepView for Lit {
    type V = Lit;

    open spec fn deep_view(&self) -> Lit {
        *self
    }
}

impl DeepView for Expr {
    type V = ExprView;

    open spec fn deep_view(&self) -> ExprView
        decreases *self,
    {
        match self {
            Expr::Lit(l) => ExprView::Lit(*l),
            Expr::Array(es) => ExprView::Array(expr_seq_view(es@)),
            Expr::Block(ss) => ExprView::Block(stmt_seq_view(ss@)),
            Expr::If(c, t, e) => ExprView::If(
                Box::new((**c).deep_view()),
                stmt_seq_view(t@),
                opt_expr_view(*e),
            ),
            Expr::IfLet(t, e) => ExprView::IfLet(stmt_seq_view(t@), opt_expr_view(*e)),
        }
    }
}

impl DeepView for Stmt {
    type V = StmtView;

    open spec fn deep_view(&self) -> StmtView
        decreases *self,
    {
        match self {
            Stmt::Expr(e) => StmtView::Expr(e.deep_view()),
            Stmt::Semi(e) => StmtView::Semi(e.deep_view()),
        }
    }
}

/// An owned copy of an expression, equal to the original under the view.
pub fn copy_expr(e: &Expr) -> (r: Expr)
    ensures
        r.deep_view() == e.deep_view(),
    decreases *e,
{
    match e {
        Expr::Lit(l) => Expr::Lit(*l),
        Expr::Array(es) => Expr::Array(copy_exprs(es)),
        Expr::Block(ss) => Expr::Block(copy_stmts(ss)),
        Expr::If(c, t, el) => Expr::If(Box::new(copy_expr(&**c)), copy_stmts(t), copy_opt_expr(el)),
        Expr::IfLet(t, el) => Expr::IfLet(copy_stmts(t), copy_opt_expr(el)),
    }
}

/// An owned copy of a statement, equal to the original under the view.
pub fn copy_stmt(s: &Stmt) -> (r: Stmt)
    ensures
        r.deep_view() == s.deep_view(),
    decreases *s,
{
    match s {
        Stmt::Expr(e) => Stmt::Expr(copy_expr(e)),
        Stmt::Semi(e) => Stmt::Semi(copy_expr(e)),
    }
}

/// An owned copy of a list of expressions, equal elementwise under the view.
pub fn copy_exprs(es: &Vec<Expr>) -> (r: Vec<Expr>)
    ensures
        expr_seq_view(r@) == expr_seq_view(es@),
    decreases *es,
{
    let mut r: Vec<Expr> = Vec::new();
    let n = es.len();
    let mut i: usize = 0;
    while i < n
        invariant
            i <= n,
            n == es@.len(),
            r@.len() == i,
            forall|j: int| 0 <= j < i ==> #[trigger] r@[j].deep_view() == es@[j].deep_view(),
        decreases n - i,
    {
        r.push(copy_expr(&es[i]));
        i = i + 1;
    }
    proof {
        lemma_expr_seq_view(r@);
        lemma_expr_seq_view(es@);
        assert forall|j: int| 0 <= j < r@.len() implies #[trigger] expr_seq_view(r@)[j]
            == expr_seq_view(es@)[j] by {
            assert(r@[j].deep_view() == es@[j].deep_view());
        }
        assert(expr_seq_view(r@) =~= expr_seq_view(es@));
    }
    r
}

/// An owned copy of a list of statements, equal elementwise under the view.
pub fn copy_stmts(ss: &Vec<Stmt>) -> (r: Vec<Stmt>)
    ensures
        stmt_seq_view(r@) == stmt_seq_view(ss@),
    decreases *ss,
{
    let mut r: Vec<Stmt> = Vec::new();
    let n = ss.len();
    let mut i: usize = 0;
    while i < n
        invariant
            i <= n,
            n == ss@.len(),
            r@.len() == i,
            forall|j: int| 0 <= j < i ==> #[trigger] r@[j].deep_view() == ss@[j].deep_view(),
        decreases n - i,
    {
        r.push(copy_stmt(&ss[i]));
        i = i + 1;
    }
    proof {
        lemma_stmt_seq_view(r@);
        lemma_stmt_seq_view(ss@);
        assert forall|j: int| 0 <= j < r@.len() implies #[trigger] stmt_seq_view(r@)[j]
            == stmt_seq_view(ss@)[j] by {
            assert(r@[j].deep_view() == ss@[j].deep_view());
        }
        assert(stmt_seq_view(r@) =~= stmt_seq_view(ss@));
    }
    r
}

/// An owned copy of the expressions in positions `lo..hi`, equal
/// elementwise under the view.
pub fn copy_exprs_range(es: &Vec<Expr>, lo: usize, hi: usize) -> (r: Vec<Expr>)
    requires
        lo <= hi <= es@.len(),
    ensures
        expr_seq_view(r@) == expr_seq_view(es@).subrange(lo as int, hi as int),
    decreases *es,
{
    let mut r: Vec<Expr> = Vec::new();
    let mut i: usize = lo;
    while i < hi
        invariant
            lo <= i <= hi <= es@.len(),
            r@.len() == i - lo,
            forall|j: int| 0 <= j < i - lo ==> #[trigger] r@[j].deep_view() == es@[lo + j].deep_view(),
        decreases hi - i,
    {
        r.push(copy_expr(&es[i]));
        i = i + 1;
    }
    proof {
        lemma_expr_seq_view(r@);
        lemma_expr_seq_view(es@);
        assert forall|j: int| 0 <= j < r@.len() implies #[trigger] expr_seq_view(r@)[j]
            == expr_seq_view(es@).subrange(lo as int, hi as int)[j] by {
            assert(r@[j].deep_view() == es@[lo + j].deep_view());
        }
        assert(expr_seq_view(r@) =~= expr_seq_view(es@).subrange(lo as int, hi as int));
    }
    r
}

/// An owned copy of the statements in positions `lo..hi`, equal
/// elementwise under the view.
pub fn copy_stmts_range(ss: &Vec<Stmt>, lo: usize, hi: usize) -> (r: Vec<Stmt>)
    requires
        lo <= hi <= ss@.len(),
    ensures
        stmt_seq_view(r@) == stmt_seq_view(ss@).subrange(lo as int, hi as int),
    decreases *ss,
{
    let mut r: Vec<Stmt> = Vec::new();
    let mut i: usize = lo;
    while i < hi
        invariant
            lo <= i <= hi <= ss@.len(),
            r@.len() == i - lo,
            forall|j: int| 0 <= j < i - lo ==> #[trigger] r@[j].deep_view() == ss@[lo + j].deep_view(),
        decreases hi - i,
    {
        r.push(copy_stmt(&ss[i]));
        i = i + 1;
    }
    proof {
        lemma_stmt_seq_view(r@);
        lemma_stmt_seq_view(ss@);
        assert forall|j: int| 0 <= j < r@.len() implies #[trigger] stmt_seq_view(r@)[j]
            == stmt_seq_view(ss@).subrange(lo as int, hi as int)[j] by {
            assert(r@[j].deep_view() == ss@[lo + j].deep_view());
        }
        assert(stmt_seq_view(r@) =~= stmt_seq_view(ss@).subrange(lo as int, hi as int));
    }
    r
}

/// An owned copy of an optional expression, equal under the view.
pub fn copy_opt_expr(o: &Option<Box<Expr>>) -> (r: Option<Box<Expr>>)
    ensures
        opt_expr_view(r) == opt_expr_view(*o),
    decreases *o,
{
    match o {
        Some(b) => Some(Box::new(copy_expr(&**b))),
        None => None,
    }
}

/// `expr_seq_view` maps the list elementwise.
pub proof fn lemma_expr_seq_view(es: Seq<Expr>)
    ensures
        expr_seq_view(es).len() == es.len(),
        forall|i: int| 0 <= i < es.len() ==> #[trigger] expr_seq_view(es)[i] == es[i].deep_view(),
    decreases es.len(),
{
    if es.len() > 0 {
        let init = es.drop_last();
        lemma_expr_seq_view(init);
        assert(expr_seq_view(es) == expr_seq_view(init).push(es.last().deep_view()));
        assert forall|i: int| 0 <= i < es.len() implies expr_seq_view(es)[i] == #[trigger] es[i]
            .deep_view() by {
            if i < es.len() - 1 {
                assert(es[i] == init[i]);
            } else {
                assert(es[i] == es.last());
            }
        }
    }
}

/// `stmt_seq_view` maps the list elementwise.
pub proof fn lemma_stmt_seq_view(ss: Seq<Stmt>)
    ensures
        stmt_seq_view(ss).len() == ss.len(),
        forall|i: int| 0 <= i < ss.len() ==> #[trigger] stmt_seq_view(ss)[i] == ss[i].deep_view(),
    decreases ss.len(),
{
    if ss.len() > 0 {
        let init = ss.drop_last();
        lemma_stmt_seq_view(init);
        assert(stmt_seq_view(ss) == stmt_seq_view(init).push(ss.last().deep_view()));
        assert forall|i: int| 0 <= i < ss.len() implies stmt_seq_view(ss)[i] == #[trigger] ss[i]
            .deep_view() by {
            if i < ss.len() - 1 {
                assert(ss[i] == init[i]);
            } else {
                assert(ss[i] == ss.last());
            }
        }
    }
}

} // verus!
