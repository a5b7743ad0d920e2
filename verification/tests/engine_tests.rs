//! The tree matching engine: alternatives, optional slots, sequences,
//! captures, and the end-to-end rule scenario.

use pattern_match::ast::{Expr, Lit, Stmt};
use pattern_match::lints::{CollapsibleIf, SimplePattern};
use pattern_match::match_result::Capture;
use pattern_match::matchers::{Alt, IsMatch, Opt, Sequence};
use pattern_match::pattern_tree;
use pattern_match::repeat::RepeatRange;

fn ast_char(c: char) -> Expr {
    Expr::Lit(Lit::Char(c))
}

fn ast_int(i: u128) -> Expr {
    Expr::Lit(Lit::Int(i))
}

fn ast_bool(b: bool) -> Expr {
    Expr::Lit(Lit::Bool(b))
}

fn pat_char(c: char) -> Alt<pattern_tree::Expr> {
    Alt::Elmt(Box::new(pattern_tree::Expr::Lit(Alt::Elmt(Box::new(
        pattern_tree::Lit::Char(Alt::Elmt(Box::new(c))),
    )))))
}

fn pat_bool(b: bool) -> Alt<pattern_tree::Expr> {
    Alt::Elmt(Box::new(pattern_tree::Expr::Lit(Alt::Elmt(Box::new(
        pattern_tree::Lit::Bool(Alt::Elmt(Box::new(b))),
    )))))
}

#[test]
fn any_matches_every_value_without_captures() {
    let p: Alt<pattern_tree::Expr> = Alt::Any;
    for v in [ast_char('z'), ast_int(7), ast_bool(true)] {
        let r = p.is_match(&v).expect("the unconstrained pattern matches everything");
        assert!(r.captures.is_empty());
    }
}

#[test]
fn alt_is_or_with_first_success() {
    // The left side rejects the value, the right side captures it: the
    // result carries exactly the right side's captures.
    let p: Alt<pattern_tree::Expr> = Alt::Alt(
        Box::new(pat_bool(false)),
        Box::new(Alt::Named(Box::new(Alt::Any), String::from("x"))),
    );
    let v = ast_bool(true);
    let r = p.is_match(&v).expect("the right alternative matches");
    assert_eq!(r.captures.len(), 1);
    let c = r.get(&String::from("x")).expect("the capture is recorded");
    assert_eq!(*c, Capture::Expr(ast_bool(true)));
}

#[test]
fn alt_prefers_left_success() {
    let p: Alt<pattern_tree::Expr> = Alt::Alt(
        Box::new(Alt::Named(Box::new(Alt::Any), String::from("left"))),
        Box::new(Alt::Named(Box::new(Alt::Any), String::from("right"))),
    );
    let r = p.is_match(&ast_int(1)).expect("both sides match");
    assert!(r.get(&String::from("left")).is_some());
    assert!(r.get(&String::from("right")).is_none());
}

#[test]
fn optional_absence() {
    let p: Opt<pattern_tree::Expr> = Opt::Absent;
    assert!(p.is_match(&None).is_some());
    assert!(p.is_match(&Some(Box::new(ast_int(1)))).is_none());
    assert!(p.is_match(&Some(Box::new(ast_bool(false)))).is_none());
}

#[test]
fn optional_any_requires_presence() {
    let p: Opt<pattern_tree::Expr> = Opt::Any;
    assert!(p.is_match(&Some(Box::new(ast_int(1)))).is_some());
    assert!(p.is_match(&None).is_none());
}

#[test]
fn optional_alt_is_a_conjunction() {
    // Both constraints must hold of the same slot: presence AND a capture.
    let p = Opt::Alt(
        Box::new(Opt::Any),
        Box::new(Opt::Named(Box::new(Opt::Any), String::from("slot"))),
    );
    let r = p.is_match(&Some(Box::new(ast_int(9)))).expect("both sides hold");
    assert!(r.get(&String::from("slot")).is_some());
    assert!(p.is_match(&None).is_none());
    let contradiction = Opt::Alt(
        Box::new(Opt::<pattern_tree::Expr>::Any),
        Box::new(Opt::Absent),
    );
    assert!(contradiction.is_match(&Some(Box::new(ast_int(1)))).is_none());
    assert!(contradiction.is_match(&None).is_none());
}

#[test]
fn empty_sequence_matches_only_length_zero() {
    let p: Sequence<pattern_tree::Stmt> = Sequence::Empty;
    assert!(p.is_match(&vec![]).is_some());
    assert!(p.is_match(&vec![Stmt::Expr(ast_int(1))]).is_none());
}

#[test]
fn repeat_count_boundaries() {
    // Repeat(p, [1,3)) over items all matching p: lengths 1 and 2 succeed,
    // lengths 0 and 3 fail.
    let p: Sequence<pattern_tree::Stmt> =
        Sequence::Repeat(Box::new(Alt::Any), RepeatRange { start: 1, end: Some(3) });
    let stmt = || Stmt::Semi(ast_bool(true));
    assert!(p.is_match(&vec![]).is_none());
    assert!(p.is_match(&vec![stmt()]).is_some());
    assert!(p.is_match(&vec![stmt(), stmt()]).is_some());
    assert!(p.is_match(&vec![stmt(), stmt(), stmt()]).is_none());
}

#[test]
fn repeat_zero_permitting_range_matches_empty() {
    // A range that permits zero repetitions accepts the empty list at
    // once, even the degenerate empty interval at zero.
    let p: Sequence<pattern_tree::Stmt> =
        Sequence::Repeat(Box::new(Alt::Any), RepeatRange { start: 0, end: Some(0) });
    assert!(p.is_match(&vec![]).is_some());
    assert!(p.is_match(&vec![Stmt::Expr(ast_int(1))]).is_none());
}

#[test]
fn repeat_requires_every_item_to_match() {
    let p: Sequence<pattern_tree::Expr> =
        Sequence::Repeat(Box::new(pat_char('a')), RepeatRange { start: 0, end: None });
    assert!(p.is_match(&vec![ast_char('a'), ast_char('a')]).is_some());
    assert!(p.is_match(&vec![]).is_some());
    assert!(p.is_match(&vec![ast_char('a'), ast_char('b')]).is_none());
}

#[test]
fn concatenation_split_search() {
    // Seq(Repeat(a, [0,inf)), Repeat(b, [1,2))) over [a,a,b] succeeds; over
    // [a,a,b,b,b] the right side's cap of one item makes it fail.
    let p: Sequence<pattern_tree::Expr> = Sequence::Concat(
        Box::new(Sequence::Repeat(Box::new(pat_char('a')), RepeatRange { start: 0, end: None })),
        Box::new(Sequence::Repeat(Box::new(pat_char('b')), RepeatRange { start: 1, end: Some(2) })),
    );
    assert!(p.is_match(&vec![ast_char('a'), ast_char('a'), ast_char('b')]).is_some());
    assert!(p
        .is_match(&vec![
            ast_char('a'),
            ast_char('a'),
            ast_char('b'),
            ast_char('b'),
            ast_char('b'),
        ])
        .is_none());
}

#[test]
fn sequence_any_and_elmt_take_exactly_one() {
    let any: Sequence<pattern_tree::Expr> = Sequence::Any;
    assert!(any.is_match(&vec![ast_int(1)]).is_some());
    assert!(any.is_match(&vec![]).is_none());
    assert!(any.is_match(&vec![ast_int(1), ast_int(2)]).is_none());
    let one = Sequence::Elmt(Box::new(pat_char('a')));
    assert!(one.is_match(&vec![ast_char('a')]).is_some());
    assert!(one.is_match(&vec![ast_char('b')]).is_none());
    assert!(one.is_match(&vec![ast_char('a'), ast_char('a')]).is_none());
}

#[test]
fn named_sequence_captures_whole_span() {
    let p: Sequence<pattern_tree::Expr> = Sequence::Named(
        Box::new(Sequence::Repeat(Box::new(pat_char('a')), RepeatRange { start: 0, end: None })),
        String::from("span"),
    );
    let items = vec![ast_char('a'), ast_char('a')];
    let r = p.is_match(&items).expect("every item matches");
    let c = r.get(&String::from("span")).expect("the span is captured");
    assert_eq!(*c, Capture::ExprList(vec![ast_char('a'), ast_char('a')]));
}

#[test]
fn capture_propagation_and_overwrite() {
    // A named piece produces its key; two writes of one name keep the
    // later one: the block's span overwrites the condition's capture.
    let named_single: Alt<pattern_tree::Expr> = Alt::Named(Box::new(Alt::Any), String::from("x"));
    let v = ast_int(5);
    let r = named_single.is_match(&v).expect("the single item matches");
    assert!(r.get(&String::from("x")).is_some());

    let both_named = Alt::Elmt(Box::new(pattern_tree::Expr::If(
        Alt::Named(Box::new(Alt::Any), String::from("x")),
        Sequence::Named(
            Box::new(Sequence::Repeat(Box::new(Alt::Any), RepeatRange { start: 0, end: None })),
            String::from("x"),
        ),
        Opt::Absent,
    )));
    let node = Expr::If(Box::new(ast_bool(true)), vec![Stmt::Expr(ast_int(1))], None);
    let r = both_named.is_match(&node).expect("the node matches");
    let c = r.get(&String::from("x")).expect("the shared name is bound");
    assert_eq!(*c, Capture::StmtList(vec![Stmt::Expr(ast_int(1))]));
}

#[test]
fn end_to_end_simple_pattern() {
    // An `if` with a boolean-literal-true condition, a body of zero or
    // more integer-literal expression statements followed by zero or more
    // boolean-literal semicolon statements, and no else clause.
    let rule = SimplePattern::new();
    let matching = Expr::If(
        Box::new(ast_bool(true)),
        vec![
            Stmt::Expr(ast_int(1)),
            Stmt::Expr(ast_int(2)),
            Stmt::Semi(ast_bool(false)),
        ],
        None,
    );
    let r = rule.check_expr(&matching).expect("the shape is the rule's");
    assert!(r.get(&String::from("var")).is_some());

    let with_else = Expr::If(
        Box::new(ast_bool(true)),
        vec![
            Stmt::Expr(ast_int(1)),
            Stmt::Expr(ast_int(2)),
            Stmt::Semi(ast_bool(false)),
        ],
        Some(Box::new(ast_int(0))),
    );
    assert!(rule.check_expr(&with_else).is_none());
}

#[test]
fn simple_pattern_other_arms() {
    let rule = SimplePattern::new();
    assert!(rule.check_expr(&ast_bool(false)).is_some());
    assert!(rule.check_expr(&ast_bool(true)).is_none());
    let array = Expr::Array(vec![ast_char('a'), ast_char('b'), ast_char('c')]);
    assert!(rule.check_expr(&array).is_some());
    let bad_array = Expr::Array(vec![ast_char('b'), ast_char('a'), ast_char('c')]);
    assert!(rule.check_expr(&bad_array).is_none());
}

#[test]
fn collapsible_if_detection() {
    let rule = CollapsibleIf::new();
    let inner = Expr::If(Box::new(ast_bool(false)), vec![Stmt::Semi(ast_int(3))], None);
    let collapsible = Expr::If(Box::new(ast_bool(true)), vec![Stmt::Expr(inner)], None);
    let (r, r2) = rule.check_expr(&collapsible);
    let r = r.expect("a collapsible if is found");
    assert!(r.get(&String::from("check")).is_some());
    assert!(r.get(&String::from("inner")).is_some());
    assert!(r.get(&String::from("content")).is_some());
    assert!(r2.is_none());

    let two_stmts = Expr::If(
        Box::new(ast_bool(true)),
        vec![Stmt::Expr(ast_int(1)), Stmt::Expr(ast_int(2))],
        None,
    );
    assert!(rule.check_expr(&two_stmts).0.is_none());

    let inner_with_else = Expr::If(
        Box::new(ast_bool(false)),
        vec![Stmt::Semi(ast_int(3))],
        Some(Box::new(ast_int(0))),
    );
    let outer = Expr::If(Box::new(ast_bool(true)), vec![Stmt::Expr(inner_with_else)], None);
    assert!(rule.check_expr(&outer).0.is_none());
}

#[test]
fn collapsible_else_block_detection() {
    // if true { 1 } else { if false { 2; } } -- the else block collapses.
    let rule = CollapsibleIf::new();
    let inner = Expr::If(Box::new(ast_bool(false)), vec![Stmt::Semi(ast_int(2))], None);
    let else_block = Expr::Block(vec![Stmt::Expr(inner)]);
    let node = Expr::If(
        Box::new(ast_bool(true)),
        vec![Stmt::Expr(ast_int(1))],
        Some(Box::new(else_block)),
    );
    let (r1, r2) = rule.check_expr(&node);
    assert!(r1.is_none());
    let r2 = r2.expect("the else block is collapsible");
    assert!(r2.get(&String::from("block")).is_some());
    assert!(r2.get(&String::from("else_")).is_some());

    // An else that is not a block of a single if does not fire.
    let plain_else = Expr::If(
        Box::new(ast_bool(true)),
        vec![Stmt::Expr(ast_int(1))],
        Some(Box::new(ast_int(0))),
    );
    assert!(rule.check_expr(&plain_else).1.is_none());
    let busy_block = Expr::Block(vec![Stmt::Expr(ast_int(1)), Stmt::Expr(ast_int(2))]);
    let two_stmt_else = Expr::If(
        Box::new(ast_bool(true)),
        vec![Stmt::Expr(ast_int(1))],
        Some(Box::new(busy_block)),
    );
    assert!(rule.check_expr(&two_stmt_else).1.is_none());

    // The rule also covers if-let with a collapsible else block.
    let inner2 = Expr::IfLet(vec![Stmt::Semi(ast_int(2))], None);
    let else_block2 = Expr::Block(vec![Stmt::Semi(inner2)]);
    let node2 = Expr::IfLet(vec![Stmt::Expr(ast_int(1))], Some(Box::new(else_block2)));
    assert!(rule.check_expr(&node2).1.is_some());
}

#[test]
fn matching_is_idempotent() {
    let rule = SimplePattern::new();
    let node = Expr::If(
        Box::new(ast_bool(true)),
        vec![Stmt::Expr(ast_int(1)), Stmt::Semi(ast_bool(false))],
        None,
    );
    let r1 = rule.check_expr(&node);
    let r2 = rule.check_expr(&node);
    assert_eq!(r1, r2);
    let v = ast_char('q');
    let p = Alt::Alt(Box::new(pat_char('q')), Box::new(pat_char('r')));
    assert_eq!(p.is_match(&v), p.is_match(&v));
}

#[test]
fn literal_patterns_match_by_equality() {
    let p_lit = pattern_tree::Lit::Char(Alt::Elmt(Box::new('a')));
    assert!(p_lit.is_match(&Lit::Char('a')).is_some());
    assert!(p_lit.is_match(&Lit::Char('b')).is_none());
    assert!(p_lit.is_match(&Lit::Bool(true)).is_none());
    let p_int = pattern_tree::Lit::Int(Alt::Elmt(Box::new(42)));
    assert!(p_int.is_match(&Lit::Int(42)).is_some());
    assert!(p_int.is_match(&Lit::Int(41)).is_none());
}

#[test]
fn if_let_shape_matches() {
    let p = Alt::Elmt(Box::new(pattern_tree::Expr::IfLet(
        Sequence::Repeat(Box::new(Alt::Any), RepeatRange { start: 0, end: None }),
        Opt::Absent,
    )));
    let node = Expr::IfLet(vec![Stmt::Expr(ast_int(1))], None);
    assert!(p.is_match(&node).is_some());
    let with_else = Expr::IfLet(vec![], Some(Box::new(ast_int(2))));
    assert!(p.is_match(&with_else).is_none());
}

#[test]
fn leaf_values_match_by_equality() {
    assert!('a'.is_match(&'a').is_some());
    assert!('a'.is_match(&'b').is_none());
    assert!(true.is_match(&true).is_some());
    assert!(true.is_match(&false).is_none());
    assert!(7u128.is_match(&7u128).is_some());
    assert!(7u128.is_match(&8u128).is_none());
}

#[test]
fn trait_dispatch_agrees_with_inherent_matcher() {
    let p = pat_char('a');
    let v = ast_char('a');
    let via_trait = IsMatch::is_match(&p, &v);
    assert!(via_trait.is_some());
    assert_eq!(via_trait, p.is_match(&v));
}

#[test]
fn num_elmts_range_is_structural() {
    let empty: Sequence<pattern_tree::Expr> = Sequence::Empty;
    assert_eq!(empty.num_elmts_range(), RepeatRange { start: 0, end: Some(1) });
    let one: Sequence<pattern_tree::Expr> = Sequence::Elmt(Box::new(pat_char('a')));
    assert_eq!(one.num_elmts_range(), RepeatRange { start: 1, end: Some(2) });
    let star_plus: Sequence<pattern_tree::Expr> = Sequence::Concat(
        Box::new(Sequence::Repeat(Box::new(pat_char('a')), RepeatRange { start: 0, end: None })),
        Box::new(Sequence::Repeat(Box::new(pat_char('b')), RepeatRange { start: 1, end: Some(2) })),
    );
    assert_eq!(star_plus.num_elmts_range(), RepeatRange { start: 1, end: None });
    let bounded: Sequence<pattern_tree::Stmt> = Sequence::Concat(
        Box::new(Sequence::Repeat(Box::new(Alt::Any), RepeatRange { start: 1, end: Some(3) })),
        Box::new(Sequence::Any),
    );
    assert_eq!(bounded.num_elmts_range(), RepeatRange { start: 2, end: Some(4) });
    let either: Sequence<pattern_tree::Stmt> = Sequence::Alt(
        Box::new(Sequence::Empty),
        Box::new(Sequence::Elmt(Box::new(Alt::Any))),
    );
    assert_eq!(either.num_elmts_range(), RepeatRange { start: 0, end: Some(2) });
}

#[test]
fn block_expression_matches_statement_sequence() {
    let p = Alt::Elmt(Box::new(pattern_tree::Expr::Block(Sequence::Concat(
        Box::new(Sequence::Elmt(Box::new(Alt::Elmt(Box::new(pattern_tree::Stmt::Expr(
            pat_char('a'),
        )))))),
        Box::new(Sequence::Any),
    ))));
    let node = Expr::Block(vec![Stmt::Expr(ast_char('a')), Stmt::Semi(ast_int(1))]);
    assert!(p.is_match(&node).is_some());
    let short = Expr::Block(vec![Stmt::Expr(ast_char('a'))]);
    assert!(p.is_match(&short).is_none());
}
