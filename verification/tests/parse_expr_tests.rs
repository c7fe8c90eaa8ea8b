use fer::cst::{CstNode, InterpolatedPart, NodeId, NodeKind, QuantifierKind};
use fer::interner::Interner;
use fer::lex::Lexer;
use fer::parse::Parser;
use fer::span::FileId;

fn parse_expr(source: &str) -> Vec<CstNode> {
    let lexer = Lexer::new(source, Interner::new());
    let mut parser = Parser::new(lexer, FileId(0));
    let result = parser.parse_expr(0);
    assert!(result.is_ok(), "Parse error: {:?}", result.err());
    parser.into_parts().0
}

#[test]
fn parse_integer_literal() {
    let nodes = parse_expr("42");
    assert_eq!(nodes.len(), 1);
    assert!(matches!(nodes[0].kind, NodeKind::LitInteger));
}

#[test]
fn parse_identifier() {
    let nodes = parse_expr("my_var");
    assert_eq!(nodes.len(), 1);
    assert!(matches!(nodes[0].kind, NodeKind::Ident(_)));
}

#[test]
fn parse_string_literal() {
    let nodes = parse_expr("`hello`");
    assert_eq!(nodes.len(), 1);
    assert!(matches!(nodes[0].kind, NodeKind::LitString));
}

#[test]
fn parse_match_simple() {
    let nodes = parse_expr(r#"x { `A` { 1 } { 0 } }"#);
    assert!(nodes
        .iter()
        .any(|n| matches!(n.kind, NodeKind::MatchExpr { .. })));
}

#[test]
fn parse_match_with_contains() {
    let nodes = parse_expr(r#"uuid4 { contains `UUID` { `yes` } { `no` } }"#);
    assert!(nodes
        .iter()
        .any(|n| matches!(n.kind, NodeKind::MatchExpr { .. })));
    assert!(nodes
        .iter()
        .any(|n| matches!(n.kind, NodeKind::PatternCondition { .. })));
}

#[test]
fn parse_match_with_matches_regex() {
    let nodes = parse_expr(r#"x { matches /^[0-9]/i { `num` } { `other` } }"#);
    assert!(nodes.iter().any(|n| matches!(n.kind, NodeKind::LitRegex)));
}

#[test]
fn parse_bool_true() {
    let nodes = parse_expr("true");
    assert_eq!(nodes.len(), 1);
    assert!(matches!(nodes[0].kind, NodeKind::LitBool(true)));
}

#[test]
fn parse_grouping() {
    let nodes = parse_expr("(42)");
    assert_eq!(nodes.len(), 1);
    assert!(matches!(nodes[0].kind, NodeKind::LitInteger));
}

#[test]
fn parse_unary_minus() {
    let nodes = parse_expr("-42");
    assert_eq!(nodes.len(), 2);
    assert!(matches!(nodes[0].kind, NodeKind::LitInteger));
    assert!(matches!(nodes[1].kind, NodeKind::UnaryOp { .. }));
}

#[test]
fn parse_binary_plus() {
    let nodes = parse_expr("1 + 2");
    assert!(nodes.len() >= 3);
    let binary = &nodes.last().unwrap().kind;
    assert!(matches!(binary, NodeKind::BinaryOp { .. }));
}

#[test]
fn parse_precedence() {
    let nodes = parse_expr("1 + 2 * 3");
    let top_id = NodeId((nodes.len() - 1) as u32);
    let NodeKind::BinaryOp { lhs, rhs, .. } = &nodes[top_id.0 as usize].kind else {
        panic!("expected a top-level binary operation");
    };
    assert!(matches!(nodes[lhs.0 as usize].kind, NodeKind::LitInteger));
    assert!(matches!(
        nodes[rhs.0 as usize].kind,
        NodeKind::BinaryOp { .. }
    ));
}

#[test]
fn parse_call() {
    let nodes = parse_expr("foo(42)");
    assert!(nodes.iter().any(|n| matches!(n.kind, NodeKind::Call { .. })));
}

#[test]
fn parse_chain_field_access() {
    let nodes = parse_expr("a.b.c");
    let chain = nodes
        .iter()
        .find(|n| matches!(n.kind, NodeKind::ChainExpr { .. }));
    assert!(chain.is_some());
}

#[test]
fn parse_chain_method_call() {
    let nodes = parse_expr("io.stdout.writer().write()");
    let chain = nodes
        .iter()
        .find(|n| matches!(n.kind, NodeKind::ChainExpr { .. }));
    assert!(chain.is_some());
}

#[test]
fn parse_call_single_positional() {
    let nodes = parse_expr("f(1)");
    assert!(nodes.iter().any(|n| matches!(n.kind, NodeKind::Call { .. })));
}

#[test]
fn parse_call_single_named() {
    let nodes = parse_expr("f(x = 1)");
    assert!(nodes.iter().any(|n| matches!(n.kind, NodeKind::Call { .. })));
}

#[test]
fn parse_call_multi_named() {
    let nodes = parse_expr("f(x = 1, y = 2)");
    assert!(nodes.iter().any(|n| matches!(n.kind, NodeKind::Call { .. })));
}

#[test]
fn parse_call_multi_positional() {
    let nodes = parse_expr("f(1, 2)");
    assert!(nodes.iter().any(|n| matches!(n.kind, NodeKind::Call { .. })));
}

#[test]
fn parse_condition_comparison_less() {
    let nodes = parse_expr("x > 1");
    let _binary = nodes
        .iter()
        .find(|n| matches!(n.kind, NodeKind::BinaryOp { .. }))
        .expect("BinaryOp not found");
}

#[test]
fn parse_condition_equals() {
    let nodes = parse_expr("x equals 1");
    let _binary = nodes
        .iter()
        .find(|n| matches!(n.kind, NodeKind::BinaryOp { .. }))
        .expect("BinaryOp not found");
}

#[test]
fn parse_quantifier_all_with_mixed_separators() {
    let nodes = parse_expr("all (x > 1, y equals 2\n  z contains `ok`)");
    let quantifier = nodes
        .iter()
        .find_map(|node| match &node.kind {
            NodeKind::Quantifier { kind, conditions } => Some((kind, conditions)),
            _ => None,
        })
        .expect("all quantifier not found");
    assert_eq!(*quantifier.0, QuantifierKind::All);
    assert_eq!(quantifier.1.len(), 3);
    assert!(quantifier
        .1
        .iter()
        .all(|id| matches!(nodes[id.0 as usize].kind, NodeKind::BinaryOp { .. })));
}

#[test]
fn parse_nested_quantifiers() {
    let nodes = parse_expr("any (all (x > 1, y > 2), none (z equals 0))");
    let quantifiers = nodes
        .iter()
        .filter_map(|node| match node.kind {
            NodeKind::Quantifier {
                ref kind,
                ref conditions,
            } => Some((kind, conditions)),
            _ => None,
        })
        .collect::<Vec<_>>();
    assert_eq!(quantifiers.len(), 3);
    assert!(quantifiers
        .iter()
        .any(|(kind, _)| **kind == QuantifierKind::Any));
    assert!(quantifiers
        .iter()
        .any(|(kind, _)| **kind == QuantifierKind::All));
    assert!(quantifiers
        .iter()
        .any(|(kind, _)| **kind == QuantifierKind::NoneOf));
}

#[test]
fn reject_quantifier_conditions_separated_by_only_spaces() {
    let lexer = Lexer::new("all (x > 1 y > 2)", Interner::new());
    let mut parser = Parser::new(lexer, FileId(0));
    assert!(parser.parse_expr(0).is_err());
}

#[test]
fn parse_all_quantifier_kinds() {
    for (source, expected) in [
        ("all (x > 1)", QuantifierKind::All),
        ("any (x > 1)", QuantifierKind::Any),
        ("one (x > 1)", QuantifierKind::One),
        ("none (x > 1)", QuantifierKind::NoneOf),
    ] {
        let nodes = parse_expr(source);
        assert!(nodes.iter().any(|node| matches!(
            node.kind,
            NodeKind::Quantifier { kind, .. } if kind == expected
        )));
    }
}

#[test]
fn parse_condition_not() {
    let nodes = parse_expr("not(x > 1)");
    let _unary = nodes
        .iter()
        .find(|n| matches!(n.kind, NodeKind::UnaryOp { .. }))
        .expect("UnaryOp not found");
}

#[test]
fn parse_interpolated_string_with_name_and_expression() {
    let nodes = parse_expr("`Hello, {name}! {1 + 1}`");
    let interpolated = nodes
        .iter()
        .find_map(|node| {
            let NodeKind::InterpolatedString { parts } = &node.kind else {
                return None;
            };
            Some(parts)
        })
        .expect("interpolated string node");

    assert!(matches!(&interpolated[0], InterpolatedPart::Text(text) if text == "Hello, "));
    assert!(matches!(interpolated[1], InterpolatedPart::Expr(_)));
    assert!(matches!(&interpolated[2], InterpolatedPart::Text(text) if text == "! "));
    assert!(matches!(interpolated[3], InterpolatedPart::Expr(_)));
    assert!(nodes
        .iter()
        .any(|node| matches!(node.kind, NodeKind::BinaryOp { .. })));
}

#[test]
fn nodes_are_numbered_by_their_index() {
    let nodes = parse_expr("f(x = 1, y = g(2)).h[3] + -4");
    for (index, node) in nodes.iter().enumerate() {
        assert_eq!(node.id, NodeId(index as u32));
        assert!(node.children.iter().all(|child| (child.0 as usize) < index));
    }
}

#[test]
fn word_operators_bind_like_comparisons() {
    let nodes = parse_expr("a + 1 less b * 2");
    let NodeKind::BinaryOp { lhs, rhs, .. } = &nodes.last().unwrap().kind else {
        panic!("expected a comparison at the top");
    };
    assert!(matches!(nodes[lhs.0 as usize].kind, NodeKind::BinaryOp { .. }));
    assert!(matches!(nodes[rhs.0 as usize].kind, NodeKind::BinaryOp { .. }));
}

#[test]
fn unexpected_token_is_reported_as_a_diagnostic() {
    let lexer = Lexer::new(")", Interner::new());
    let mut parser = Parser::new(lexer, FileId(0));
    let error = parser.parse_expr(0).expect_err("a closing paren is no expression");
    assert_eq!(error.message, "unexpected token RParen in expression");
    let (_, diagnostics) = parser.into_parts();
    assert_eq!(diagnostics.len(), 1);
    assert_eq!(diagnostics[0].code, "parse-error");
}

#[test]
fn binary_operation_on_two_literals() {
    let lexer = Lexer::new("40 * 2", Interner::new());
    let mut parser = Parser::new(lexer, FileId(0));
    let id = parser.parse_expr(0).expect("a binary operation parses");
    let (nodes, diagnostics) = parser.into_parts();
    assert!(diagnostics.is_empty());
    match &nodes[id.0 as usize].kind {
        NodeKind::BinaryOp { op, lhs, rhs } => {
            assert_eq!((op.start, op.end), (3, 4));
            assert!(matches!(nodes[lhs.0 as usize].kind, NodeKind::LitInteger));
            assert!(matches!(nodes[rhs.0 as usize].kind, NodeKind::LitInteger));
        }
        other => panic!("expected a binary operation, got {:?}", other),
    }
}
