use vstd::prelude::*;
use crate::span::Span;

verus! {

/// Opaque identifier for a CST node: its index in the node arena.
#[derive(Clone, Copy, Debug, PartialEq, Eq, Hash, Structural)]
pub struct NodeId(pub u32);

/// A node in the source-mapped concrete syntax tree.
#[derive(Clone, Debug)]
pub struct CstNode {
    pub id: NodeId,
    pub kind: NodeKind,
    pub span: Span,
    pub children: Vec<NodeId>,
}

#[derive(Clone, Copy, Debug, PartialEq, Eq, Structural)]
pub enum QuantifierKind {
    All,
    Any,
    One,
    /// The `none (...)` quantifier (the name `None` is reserved here).
    NoneOf,
}

#[derive(Clone, Debug)]
pub enum NodeKind {
    /// The whole file.
    Module,
    FunctionDef {
        annotations: Vec<NodeId>,
        name: Span,
        params: Vec<NodeId>,
        return_type: Option<NodeId>,
        body: NodeId,
    },
    StructDef { annotations: Vec<NodeId>, name: Span, fields: Vec<NodeId> },
    AnonymousStructType { fields: Vec<NodeId> },
    AnonymousEnumType { variants: Vec<NodeId> },
    LitRegex,
    Array { elements: Vec<NodeId> },
    ObjectLiteral { fields: Vec<NodeId> },
    ObjectField { name: Span, value: Option<NodeId> },
    EnumDef { annotations: Vec<NodeId>, name: Span, variants: Vec<NodeId> },
    FieldDef {
        annotations: Vec<NodeId>,
        name: Span,
        type_annotation: Option<NodeId>,
        default_value: Option<NodeId>,
    },
    Annotation { name: Span, arguments: Vec<NodeId> },
    AnnotationArg { name: Option<Span>, value: NodeId },
    ExprStmt { expr: NodeId },
    AssignStmt {
        annotations: Vec<NodeId>,
        target: NodeId,
        type_annotation: Option<NodeId>,
        value: NodeId,
    },
    NamedArg { name: Span, value: NodeId },
    MatchArm { pattern: Option<NodeId>, body: NodeId },
    LitInteger,
    LitFloat,
    LitString,
    LitChar,
    LitBool(bool),
    Ident(Span),
    BinaryOp { op: Span, lhs: NodeId, rhs: NodeId },
    UnaryOp { op: Span, expr: NodeId },
    Call { func: NodeId, args: Vec<NodeId> },
    ChainExpr { base: NodeId, steps: Vec<ChainStep> },
    InterpolatedString { parts: Vec<InterpolatedPart> },
    MatchExpr { scrutinee: NodeId, arms: Vec<NodeId> },
    Quantifier { kind: QuantifierKind, conditions: Vec<NodeId> },
    /// A condition used as a pattern, such as `< 18`.
    ConditionExpr { op: Span, rhs: NodeId },
    Block { statements: Vec<NodeId> },
    Param { name: Span, type_annotation: NodeId },
    PatternLiteral,
    PatternWildcard,
    PatternCondition { op: Span, rhs: NodeId },
    PatternDestructure { fields: Vec<NodeId> },
    Index { base: NodeId, open_bracket: Span, index: NodeId, close_bracket: Span },
    ImportItem { name: Span, alias: Option<NodeId> },
    ImportDecl,
    ExportDecl,
    /// Placeholder for error recovery.
    Error,
}

#[derive(Clone, Debug)]
pub struct ChainStep {
    pub dot_token: Span,
    pub kind: ChainStepKind,
}

#[derive(Clone, Debug)]
pub enum ChainStepKind {
    FieldAccess(Span),
    Call { open_paren: Span, args: Vec<NodeId>, close_paren: Span },
    Index { open_bracket: Span, index: NodeId, close_bracket: Span },
}

#[derive(Clone, Debug)]
pub enum InterpolatedPart {
    Text(String),
    Expr(NodeId),
}

/// Every id refers to one of the first `n` nodes.
pub open spec fn ids_below(ids: Seq<NodeId>, n: int) -> bool {
    forall|j: int| 0 <= j < ids.len() ==> (#[trigger] ids[j]).0 < n
}

/// The ids a chain step refers to are below `n`.
pub open spec fn step_refs_below(step: ChainStep, n: int) -> bool {
    match step.kind {
        ChainStepKind::FieldAccess(_) => true,
        ChainStepKind::Call { args, .. } => ids_below(args@, n),
        ChainStepKind::Index { index, .. } => index.0 < n,
    }
}

/// The ids an interpolated-string part refers to are below `n`.
pub open spec fn part_refs_below(part: InterpolatedPart, n: int) -> bool {
    match part {
        InterpolatedPart::Text(_) => true,
        InterpolatedPart::Expr(e) => e.0 < n,
    }
}

/// Every node id that a node kind refers to is below `n`.
pub open spec fn kind_refs_below(kind: NodeKind, n: int) -> bool {
    match kind {
        NodeKind::FunctionDef { annotations, params, return_type, body, .. } => ids_below(
            annotations@,
            n,
        ) && ids_below(params@, n) && (return_type matches Some(t) ==> t.0 < n) && body.0 < n,
        NodeKind::StructDef { annotations, fields, .. } => ids_below(annotations@, n) && ids_below(
            fields@,
            n,
        ),
        NodeKind::AnonymousStructType { fields } => ids_below(fields@, n),
        NodeKind::AnonymousEnumType { variants } => ids_below(variants@, n),
        NodeKind::Array { elements } => ids_below(elements@, n),
        NodeKind::ObjectLiteral { fields } => ids_below(fields@, n),
        NodeKind::ObjectField { value, .. } => value matches Some(v) ==> v.0 < n,
        NodeKind::EnumDef { annotations, variants, .. } => ids_below(annotations@, n) && ids_below(
            variants@,
            n,
        ),
        NodeKind::FieldDef { annotations, type_annotation, default_value, .. } => ids_below(
            annotations@,
            n,
        ) && (type_annotation matches Some(t) ==> t.0 < n) && (default_value matches Some(v)
            ==> v.0 < n),
        NodeKind::Annotation { arguments, .. } => ids_below(arguments@, n),
        NodeKind::AnnotationArg { value, .. } => value.0 < n,
        NodeKind::ExprStmt { expr } => expr.0 < n,
        NodeKind::AssignStmt { annotations, target, type_annotation, value } => ids_below(
            annotations@,
            n,
        ) && target.0 < n && (type_annotation matches Some(t) ==> t.0 < n) && value.0 < n,
        NodeKind::NamedArg { value, .. } => value.0 < n,
        NodeKind::MatchArm { pattern, body } => (pattern matches Some(p) ==> p.0 < n) && body.0
            < n,
        NodeKind::BinaryOp { lhs, rhs, .. } => lhs.0 < n && rhs.0 < n,
        NodeKind::UnaryOp { expr, .. } => expr.0 < n,
        NodeKind::Call { func, args } => func.0 < n && ids_below(args@, n),
        NodeKind::ChainExpr { base, steps } => base.0 < n && forall|i: int|
            0 <= i < steps@.len() ==> step_refs_below(#[trigger] steps@[i], n),
        NodeKind::InterpolatedString { parts } => forall|i: int|
            0 <= i < parts@.len() ==> part_refs_below(#[trigger] parts@[i], n),
        NodeKind::MatchExpr { scrutinee, arms } => scrutinee.0 < n && ids_below(arms@, n),
        NodeKind::Quantifier { conditions, .. } => ids_below(conditions@, n),
        NodeKind::ConditionExpr { rhs, .. } => rhs.0 < n,
        NodeKind::Block { statements } => ids_below(statements@, n),
        NodeKind::Param { type_annotation, .. } => type_annotation.0 < n,
        NodeKind::PatternCondition { rhs, .. } => rhs.0 < n,
        NodeKind::PatternDestructure { fields } => ids_below(fields@, n),
        NodeKind::Index { base, index, .. } => base.0 < n && index.0 < n,
        NodeKind::ImportItem { alias, .. } => alias matches Some(a) ==> a.0 < n,
        _ => true,
    }
}

/// Node `i` refers, by its children and by its kind, only to earlier nodes.
pub open spec fn refers_back_at(nodes: Seq<CstNode>, i: int) -> bool {
    ids_below(nodes[i].children@, i) && kind_refs_below(nodes[i].kind, i)
}

/// Every node of `nodes` refers only to earlier nodes.
pub open spec fn refers_back(nodes: Seq<CstNode>) -> bool {
    forall|i: int| 0 <= i < nodes.len() ==> #[trigger] refers_back_at(nodes, i)
}

} // verus!
