//! The pattern tree: one pattern node kind per concrete node kind, each
//! payload position wrapped in the fitting combinator.

use vstd::prelude::*;

use crate::matchers::{Alt, Descendant, Opt, PatternTreeNode, Sequence};

verus! {

/// A pattern over a concrete expression.
pub enum Expr {
    Lit(Alt<Lit>),
    Array(Sequence<Expr>),
    Block(Block),
    If(Alt<Expr>, Block, Opt<Expr>),
    IfLet(Block, Opt<Expr>),
}

/// A pattern over a concrete literal.
pub enum Lit {
    Char(Alt<char>),
    Bool(Alt<bool>),
    Int(Alt<u128>),
}

/// A pattern over a block: a sequence pattern over the block's statements.
pub type Block = Sequence<Stmt>;

/// A pattern over a concrete statement.
pub enum Stmt {
    Expr(Alt<Expr>),
    Semi(Alt<Expr>),
}

impl PatternTreeNode for Expr {}

impl PatternTreeNode for Lit {}

impl PatternTreeNode for Stmt {}

impl Descendant for Expr {}

impl Descendant for Lit {}

impl Descendant for Stmt {}

} // verus!
