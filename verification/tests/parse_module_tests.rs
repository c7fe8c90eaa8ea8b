use fer::cst::{CstNode, NodeKind};
use fer::interner::Interner;
use fer::lex::Lexer;
use fer::parse::Parser;
use fer::span::FileId;

fn parse_module(source: &str) -> Vec<CstNode> {
    let lexer = Lexer::new(source, Interner::new());
    let mut parser = Parser::new(lexer, FileId(0));
    let _ = parser.parse_declaration();
    parser.into_parts().0
}

#[test]
fn parse_import_with_item_nodes() {
    let nodes = parse_module("{ a b = alias } = @fer/std");
    let import = nodes
        .iter()
        .find(|n| matches!(n.kind, NodeKind::ImportDecl))
        .expect("ImportDecl not found");
    let children = &nodes[import.id.0 as usize].children;
    let item_count = children.len() - 1;
    assert_eq!(item_count, 2, "Expected two import items");
    let first_item = &nodes[children[1].0 as usize];
    assert!(matches!(first_item.kind, NodeKind::ImportItem { .. }));
    let second_item = &nodes[children[2].0 as usize];
    if let NodeKind::ImportItem { alias, .. } = &second_item.kind {
        assert!(alias.is_some(), "Second item should have alias");
    }
}

#[test]
fn parse_import_at_slash() {
    let nodes = parse_module("{ a b c } = @/example");
    assert!(nodes.iter().any(|n| matches!(n.kind, NodeKind::ImportDecl)));
}

#[test]
fn parse_import_dot_slash() {
    let nodes = parse_module("{ a b c } = ./example");
    assert!(nodes.iter().any(|n| matches!(n.kind, NodeKind::ImportDecl)));
}

#[test]
fn parse_export() {
    let nodes = parse_module("exports { io fs }");
    let _export = nodes
        .iter()
        .find(|n| matches!(n.kind, NodeKind::ExportDecl))
        .expect("ExportDecl not found");
}

#[test]
fn import_path_spans_scope_and_package() {
    let source = "{ get } = @fer/http";
    let nodes = parse_module(source);
    let import = nodes.last().unwrap();
    let path = &nodes[import.children[0].0 as usize];
    assert_eq!(&source[path.span.start..path.span.end], "@fer/http");
}
