use vstd::prelude::*;
use vstd::string::{StringExecFns, StringSliceAdditionalSpecFns};
use crate::cst::{
    ids_below, kind_refs_below, part_refs_below, refers_back, refers_back_at, step_refs_below,
    ChainStep as CstChainStep, ChainStepKind as CstChainStepKind, CstNode,
    InterpolatedPart as CstInterpolatedPart, NodeId, NodeKind,
    QuantifierKind as CstQuantifierKind,
};
use crate::diagnostics::{Diagnostic, Severity};
use crate::grammar::bytes_equal;
use crate::hir::{
    Annotation, AnnotationArg, BinaryOp, Body, BodyId, CallArg, ChainStep, ChainStepKind,
    Condition, ConditionId, ConditionKind, ConditionOp, ConstDef, EnumDef, EnumVariant, Expr,
    ExprId, ExprKind, Field, FieldShape, FunctionDef, HirArena, HirFile, HirId, HirNode,
    InterpolatedPart, Item, ItemKind, Literal, Match, MatchArm, MatchArmId, MatchId, Name, Param,
    QuantifierKind, Stmt, StructDef, TypeRef, UnaryOp,
};
use crate::span::{FileId, Span};
use crate::text::at_boundary;
use crate::utf8_facts::{lemma_first, str_get};
use vstd::utf8::{encode_utf8, encode_utf8_valid_utf8};

verus! {

/// An owned syntax snapshot: the source, the node arena and its root.
#[derive(Clone, Debug)]
pub struct CstFile {
    pub file_id: FileId,
    pub source: String,
    pub root: NodeId,
    pub nodes: Vec<CstNode>,
}

/// The state of one lowering run.
struct LoweringContext<'a> {
    input: &'a CstFile,
    arena: HirArena,
    diagnostics: Vec<Diagnostic>,
}

/// The binary operator a spelling denotes.
pub open spec fn spec_binary_op(w: Seq<u8>) -> Option<BinaryOp> {
    if w == seq![60u8] {
        Some(BinaryOp::Lt)
    } else if w == seq![108u8, 101, 115, 115] {
        Some(BinaryOp::Less)
    } else if w == seq![62u8] {
        Some(BinaryOp::Gt)
    } else if w == seq![109u8, 111, 114, 101] {
        Some(BinaryOp::More)
    } else if w == seq![60u8, 61] {
        Some(BinaryOp::LtEq)
    } else if w == seq![108u8, 101, 97, 115, 116] {
        Some(BinaryOp::Least)
    } else if w == seq![62u8, 61] {
        Some(BinaryOp::GtEq)
    } else if w == seq![109u8, 111, 115, 116] {
        Some(BinaryOp::Most)
    } else if w == seq![101u8, 113, 117, 97, 108, 115] {
        Some(BinaryOp::Equals)
    } else if w == seq![99u8, 111, 110, 116, 97, 105, 110, 115] {
        Some(BinaryOp::Contains)
    } else if w == seq![109u8, 97, 116, 99, 104, 101, 115] {
        Some(BinaryOp::Matches)
    } else if w == seq![115u8, 116, 97, 114, 116, 115] {
        Some(BinaryOp::Starts)
    } else if w == seq![101u8, 110, 100, 115] {
        Some(BinaryOp::Ends)
    } else if w == seq![105u8, 110] {
        Some(BinaryOp::In)
    } else if w == seq![43u8] {
        Some(BinaryOp::Add)
    } else if w == seq![45u8] {
        Some(BinaryOp::Subtract)
    } else if w == seq![42u8] {
        Some(BinaryOp::Multiply)
    } else if w == seq![47u8] {
        Some(BinaryOp::Divide)
    } else if w == seq![37u8] {
        Some(BinaryOp::Remainder)
    } else {
        None
    }
}

/// The match-condition operator a spelling denotes.
pub open spec fn spec_condition_op(w: Seq<u8>) -> Option<ConditionOp> {
    if w == seq![99u8, 111, 110, 116, 97, 105, 110, 115] {
        Some(ConditionOp::Contains)
    } else if w == seq![109u8, 97, 116, 99, 104, 101, 115] {
        Some(ConditionOp::Matches)
    } else if w == seq![115u8, 116, 97, 114, 116, 115] {
        Some(ConditionOp::Starts)
    } else if w == seq![101u8, 110, 100, 115] {
        Some(ConditionOp::Ends)
    } else if w == seq![108u8, 101, 115, 115] {
        Some(ConditionOp::Less)
    } else if w == seq![109u8, 111, 114, 101] {
        Some(ConditionOp::More)
    } else if w == seq![108u8, 101, 97, 115, 116] {
        Some(ConditionOp::Least)
    } else if w == seq![109u8, 111, 115, 116] {
        Some(ConditionOp::Most)
    } else if w == seq![101u8, 113, 117, 97, 108, 115] {
        Some(ConditionOp::Equals)
    } else if w == seq![105u8, 110] {
        Some(ConditionOp::In)
    } else if w == seq![60u8] {
        Some(ConditionOp::Lt)
    } else if w == seq![62u8] {
        Some(ConditionOp::Gt)
    } else if w == seq![60u8, 61] {
        Some(ConditionOp::LtEq)
    } else if w == seq![62u8, 61] {
        Some(ConditionOp::GtEq)
    } else {
        None
    }
}

/// The bytes of a lowering input's source text.
pub open spec fn source_bytes(input: &CstFile) -> Seq<u8> {
    encode_utf8(input.source@)
}

/// A span selects text: it is ordered, in bounds and cuts no character.
pub open spec fn span_selects(source: Seq<u8>, span: Span) -> bool {
    &&& span.start <= span.end <= source.len()
    &&& at_boundary(source, span.start as int)
    &&& at_boundary(source, span.end as int)
}

/// The source bytes a span selects: nothing where the span is out of
/// bounds, reversed or cuts a character.
pub open spec fn span_text(source: Seq<u8>, span: Span) -> Seq<u8> {
    if span_selects(source, span) {
        source.subrange(span.start as int, span.end as int)
    } else {
        Seq::empty()
    }
}

/// The value of an integer literal spelling; 0 where it is not one.
pub open spec fn integer_value(t: Seq<u8>) -> i128 {
    match spec_parse_i128(t) {
        Some(v) => v,
        None => 0,
    }
}

/// The text of a string literal spelling: without its backticks where it
/// has them at both ends, else the spelling itself.
pub open spec fn string_text(t: Seq<u8>) -> Seq<u8> {
    if t.len() >= 2 && t[0] == 96 && t[t.len() - 1] == 96 {
        t.subrange(1, t.len() - 1)
    } else {
        t
    }
}

/// The unary operator of a spelling: `-` negates, anything else is `not`.
pub open spec fn spec_unary_op(t: Seq<u8>) -> UnaryOp {
    if t == seq![45u8] {
        UnaryOp::Negate
    } else {
        UnaryOp::Not
    }
}

/// The binary operator of a spelling, `+` where it names none.
pub open spec fn binary_op_or_add(t: Seq<u8>) -> BinaryOp {
    match spec_binary_op(t) {
        Some(op) => op,
        None => BinaryOp::Add,
    }
}

/// The match-condition operator of a spelling, `equals` where it names none.
pub open spec fn condition_op_or_equals(t: Seq<u8>) -> ConditionOp {
    match spec_condition_op(t) {
        Some(op) => op,
        None => ConditionOp::Equals,
    }
}

/// The HIR quantifier of a syntax quantifier.
pub open spec fn spec_quantifier_kind(k: CstQuantifierKind) -> QuantifierKind {
    match k {
        CstQuantifierKind::All => QuantifierKind::All,
        CstQuantifierKind::Any => QuantifierKind::Any,
        CstQuantifierKind::One => QuantifierKind::One,
        CstQuantifierKind::NoneOf => QuantifierKind::NoneOf,
    }
}

/// What a node of kind `node` at `span` lowers to as an expression, one
/// level deep: the HIR expression kind, the literal value or operator read
/// from the source, and the number of operands; kinds that are not
/// expressions become `Error`.
pub open spec fn expr_kind_from(source: Seq<u8>, node: NodeKind, span: Span, e: ExprKind) -> bool {
    let text = span_text(source, span);
    match node {
        NodeKind::LitInteger => e == ExprKind::Literal(Literal::Integer(integer_value(text))),
        NodeKind::LitFloat => e matches ExprKind::Literal(Literal::Float(v)) && encode_utf8(v@)
            == text,
        NodeKind::LitString => e matches ExprKind::Literal(Literal::String(v)) && encode_utf8(v@)
            == string_text(text),
        NodeKind::LitChar => e matches ExprKind::Literal(Literal::Char(v)) && encode_utf8(v@)
            == text,
        NodeKind::LitRegex => e matches ExprKind::Literal(Literal::Regex(v)) && encode_utf8(v@)
            == text,
        NodeKind::LitBool(v) => e == ExprKind::Literal(Literal::Bool(v)),
        NodeKind::Ident(name) => e == ExprKind::Name(Name { span: name }),
        NodeKind::UnaryOp { op, .. } => e matches ExprKind::Unary { op: o, .. } && o
            == spec_unary_op(span_text(source, op)),
        NodeKind::BinaryOp { op, .. } => e matches ExprKind::Binary { op: o, .. } && o
            == binary_op_or_add(span_text(source, op)),
        NodeKind::Call { args, .. } => e matches ExprKind::Call { arguments, .. }
            && arguments@.len() == args@.len(),
        NodeKind::ChainExpr { steps, .. } => e matches ExprKind::Chain { steps: lowered, .. }
            && lowered@.len() == steps@.len(),
        NodeKind::Index { .. } => e is Index,
        NodeKind::MatchExpr { .. } => e is Match,
        NodeKind::Quantifier { kind, conditions } => e matches ExprKind::Quantifier {
            kind: q,
            conditions: lowered,
        } && q == spec_quantifier_kind(kind) && lowered@.len() == conditions@.len(),
        NodeKind::InterpolatedString { parts } => e matches ExprKind::InterpolatedString {
            parts: lowered,
        } && lowered@.len() == parts@.len(),
        _ => e is Error,
    }
}

/// `b` keeps every element of `a` in place and may add more after them.
pub open spec fn extends<A>(a: Seq<A>, b: Seq<A>) -> bool {
    &&& a.len() <= b.len()
    &&& forall|i: int| 0 <= i < a.len() ==> #[trigger] b[i] == a[i]
}

/// Lowering only appends to the arena: what was allocated stays in place.
pub open spec fn arena_extends(a: HirArena, b: HirArena) -> bool {
    &&& extends(a.nodes@, b.nodes@)
    &&& extends(a.bodies@, b.bodies@)
    &&& extends(a.exprs@, b.exprs@)
    &&& extends(a.matches@, b.matches@)
    &&& extends(a.match_arms@, b.match_arms@)
    &&& extends(a.conditions@, b.conditions@)
}

/// `e` is what node `id` lowers to as an expression, one level deep: it
/// keeps the node's span; a missing node becomes an `Error` without a span.
pub open spec fn expr_lowered(source: Seq<u8>, nodes: Seq<CstNode>, id: NodeId, e: Expr) -> bool {
    if (id.0 as int) < nodes.len() {
        e.span == nodes[id.0 as int].span && expr_kind_from(
            source,
            nodes[id.0 as int].kind,
            nodes[id.0 as int].span,
            e.kind,
        )
    } else {
        e == (Expr { span: Span { start: 0, end: 0 }, kind: ExprKind::Error })
    }
}

/// The span of node `id`, or the placeholder span where there is no such node.
pub open spec fn node_span(nodes: Seq<CstNode>, id: NodeId) -> Span {
    if (id.0 as int) < nodes.len() {
        nodes[id.0 as int].span
    } else {
        Span { start: 0, end: 0 }
    }
}

/// The type reference an optional type node lowers to: a reference to the
/// node's span.
pub open spec fn opt_type_lowered(nodes: Seq<CstNode>, id: Option<NodeId>, t: Option<TypeRef>) -> bool {
    match id {
        Some(type_id) => t == Some(TypeRef { name: Name { span: node_span(nodes, type_id) } }),
        None => t is None,
    }
}

/// `n` is what node `id` lowers to as a module item, one level deep: a
/// constant, struct, enum or function keeping its span, name, annotation
/// count, member count and type references; any other node becomes an
/// error node with its span.
pub open spec fn item_lowered(nodes: Seq<CstNode>, id: NodeId, n: HirNode) -> bool {
    if (id.0 as int) < nodes.len() {
        let node = nodes[id.0 as int];
        match node.kind {
            NodeKind::AssignStmt { annotations, target, type_annotation, .. } => {
                &&& n matches HirNode::Item(item)
                &&& item.span == node.span
                &&& item.annotations@.len() == annotations@.len()
                &&& item.kind matches ItemKind::Const(c)
                &&& c.name == (Name { span: node_span(nodes, target) })
                &&& opt_type_lowered(nodes, type_annotation, c.type_annotation)
            },
            NodeKind::StructDef { annotations, name, fields } => {
                &&& n matches HirNode::Item(item)
                &&& item.span == node.span
                &&& item.annotations@.len() == annotations@.len()
                &&& item.kind matches ItemKind::Struct(d)
                &&& d.name == (Name { span: name })
                &&& d.fields@.len() == fields@.len()
            },
            NodeKind::EnumDef { annotations, name, variants } => {
                &&& n matches HirNode::Item(item)
                &&& item.span == node.span
                &&& item.annotations@.len() == annotations@.len()
                &&& item.kind matches ItemKind::Enum(d)
                &&& d.name == (Name { span: name })
                &&& d.variants@.len() == variants@.len()
            },
            NodeKind::FunctionDef { annotations, name, params, return_type, .. } => {
                &&& n matches HirNode::Item(item)
                &&& item.span == node.span
                &&& item.annotations@.len() == annotations@.len()
                &&& item.kind matches ItemKind::Function(f)
                &&& f.name == (Name { span: name })
                &&& f.params@.len() == params@.len()
                &&& opt_type_lowered(nodes, return_type, f.return_type)
            },
            _ => n == (HirNode::Error { span: node.span }),
        }
    } else {
        n == (HirNode::Error { span: Span { start: 0, end: 0 } })
    }
}

/// Each id of `hir` names, in `arena`, a node that `f` accepts as the
/// lowering of the matching node of `cst`, where arena ids are exact.
pub open spec fn links(
    arena: Seq<HirNode>,
    hir: Seq<HirId>,
    cst: Seq<NodeId>,
    f: spec_fn(NodeId, HirNode) -> bool,
) -> bool {
    arena.len() <= u32::MAX + 1 ==> forall|k: int|
        0 <= k < hir.len() && k < cst.len() ==> (#[trigger] hir[k]).0 < arena.len() && f(
            cst[k],
            arena[hir[k].0 as int],
        )
}

/// The members of item `n` lowered from node `id` name the lowerings of the
/// node's members: annotations, fields, variants and parameters in the
/// node arena, a constant's value in the expression arena and a function's
/// body in the body arena, where arena ids are exact.
pub open spec fn item_links(
    source: Seq<u8>,
    nodes: Seq<CstNode>,
    a: HirArena,
    id: NodeId,
    n: HirNode,
) -> bool {
    (id.0 as int) < nodes.len() && n is Item ==> {
        let item = n->Item_0;
        let ann = |c: NodeId, h: HirNode| annotation_lowered(nodes, c, h);
        match nodes[id.0 as int].kind {
            NodeKind::AssignStmt { annotations, value, .. } => {
                &&& links(a.nodes@, item.annotations@, annotations@, ann)
                &&& a.exprs@.len() <= u32::MAX + 1 && item.kind is Const ==> tree_lowered(
                    source,
                    nodes,
                    a.exprs@,
                    value,
                    item.kind->Const_0.value.0 as int,
                )
            },
            NodeKind::StructDef { annotations, fields, .. } => {
                &&& links(a.nodes@, item.annotations@, annotations@, ann)
                &&& item.kind is Struct ==> links(
                    a.nodes@,
                    item.kind->Struct_0.fields@,
                    fields@,
                    |c: NodeId, h: HirNode| field_lowered(nodes, c, h),
                )
            },
            NodeKind::EnumDef { annotations, variants, .. } => {
                &&& links(a.nodes@, item.annotations@, annotations@, ann)
                &&& item.kind is Enum ==> links(
                    a.nodes@,
                    item.kind->Enum_0.variants@,
                    variants@,
                    |c: NodeId, h: HirNode| variant_lowered(nodes, c, h),
                )
            },
            NodeKind::FunctionDef { annotations, params, body, .. } => {
                &&& links(a.nodes@, item.annotations@, annotations@, ann)
                &&& item.kind is Function ==> links(
                    a.nodes@,
                    item.kind->Function_0.params@,
                    params@,
                    |c: NodeId, h: HirNode| param_lowered(nodes, c, h),
                )
                &&& a.bodies@.len() <= u32::MAX + 1 && item.kind is Function ==> {
                    let b = item.kind->Function_0.body;
                    b.0 < a.bodies@.len() && body_lowered(nodes, body, a.bodies@[b.0 as int])
                }
            },
            _ => true,
        }
    }
}

/// `n` is what node `id` lowers to as a struct field, one level deep: its
/// span, name and annotation count, and a shape that follows which of a type
/// and a default it has; a field with neither, or a node that is not a
/// field, becomes an error node.
pub open spec fn field_lowered(nodes: Seq<CstNode>, id: NodeId, n: HirNode) -> bool {
    if (id.0 as int) < nodes.len() {
        let node = nodes[id.0 as int];
        match node.kind {
            NodeKind::FieldDef { annotations, name, type_annotation, default_value } => {
                if type_annotation is None && default_value is None {
                    n == (HirNode::Error { span: node.span })
                } else {
                    &&& n matches HirNode::Field(f)
                    &&& f.span == node.span
                    &&& f.annotations@.len() == annotations@.len()
                    &&& f.name == (Name { span: name })
                    &&& match type_annotation {
                        Some(t) => {
                            let type_ref = TypeRef { name: Name { span: node_span(nodes, t) } };
                            if default_value is Some {
                                f.shape matches FieldShape::Typed { type_ref: tr, .. } && tr
                                    == type_ref
                            } else {
                                f.shape == (FieldShape::Required { type_ref })
                            }
                        },
                        None => f.shape is Inferred,
                    }
                }
            },
            _ => n == (HirNode::Error { span: node.span }),
        }
    } else {
        n == (HirNode::Error { span: Span { start: 0, end: 0 } })
    }
}

/// The expression a field shape defaults to, if any.
pub open spec fn shape_default(shape: FieldShape) -> Option<ExprId> {
    match shape {
        FieldShape::Inferred { default } => Some(default),
        FieldShape::Typed { default, .. } => Some(default),
        FieldShape::Required { .. } => None,
    }
}

/// The default of field `n` lowered from node `id` is the lowering of the
/// node's default value, where arena ids are exact.
pub open spec fn field_default_lowered(
    source: Seq<u8>,
    nodes: Seq<CstNode>,
    exprs: Seq<Expr>,
    id: NodeId,
    n: HirNode,
) -> bool {
    exprs.len() <= u32::MAX + 1 && (id.0 as int) < nodes.len() && n is Field
        && nodes[id.0 as int].kind is FieldDef && nodes[id.0 as int].kind->FieldDef_default_value is Some
        ==> match shape_default(n->Field_0.shape) {
        Some(d) => tree_lowered(
            source,
            nodes,
            exprs,
            nodes[id.0 as int].kind->FieldDef_default_value->0,
            d.0 as int,
        ),
        None => false,
    }
}

/// `n` is what node `id` lowers to as a function parameter.
pub open spec fn param_lowered(nodes: Seq<CstNode>, id: NodeId, n: HirNode) -> bool {
    if (id.0 as int) < nodes.len() {
        let node = nodes[id.0 as int];
        match node.kind {
            NodeKind::Param { name, type_annotation } => n == HirNode::Param(
                Param {
                    span: node.span,
                    name: Name { span: name },
                    type_ref: TypeRef { name: Name { span: node_span(nodes, type_annotation) } },
                },
            ),
            _ => n == (HirNode::Error { span: node.span }),
        }
    } else {
        n == (HirNode::Error { span: Span { start: 0, end: 0 } })
    }
}

/// `n` is what node `id` lowers to as an enum variant.
pub open spec fn variant_lowered(nodes: Seq<CstNode>, id: NodeId, n: HirNode) -> bool {
    if (id.0 as int) < nodes.len() {
        let node = nodes[id.0 as int];
        match node.kind {
            NodeKind::Ident(name) => n == HirNode::EnumVariant(
                EnumVariant { span: node.span, name: Name { span: name } },
            ),
            _ => n == (HirNode::Error { span: node.span }),
        }
    } else {
        n == (HirNode::Error { span: Span { start: 0, end: 0 } })
    }
}

/// `n` is what node `id` lowers to as an annotation, one level deep.
pub open spec fn annotation_lowered(nodes: Seq<CstNode>, id: NodeId, n: HirNode) -> bool {
    if (id.0 as int) < nodes.len() {
        let node = nodes[id.0 as int];
        match node.kind {
            NodeKind::Annotation { name, arguments } => {
                &&& n matches HirNode::Annotation(a)
                &&& a.span == node.span
                &&& a.name == (Name { span: name })
                &&& a.arguments@.len() == arguments@.len()
            },
            _ => n == (HirNode::Error { span: node.span }),
        }
    } else {
        n == (HirNode::Error { span: Span { start: 0, end: 0 } })
    }
}

/// `a` is what node `id` lowers to as an annotation argument, one level
/// deep: it keeps the node's span and the argument's name.
pub open spec fn annotation_arg_lowered(nodes: Seq<CstNode>, id: NodeId, a: AnnotationArg) -> bool {
    if (id.0 as int) < nodes.len() {
        let node = nodes[id.0 as int];
        &&& a.span == node.span
        &&& match node.kind {
            NodeKind::AnnotationArg { name, .. } => match name {
                Some(n) => a.name == Some(Name { span: n }),
                None => a.name is None,
            },
            _ => a.name is None,
        }
    } else {
        a.span == (Span { start: 0, end: 0 }) && a.name is None
    }
}

/// `st` is what node `id` lowers to as a statement, one level deep.
pub open spec fn stmt_lowered(nodes: Seq<CstNode>, id: NodeId, st: Stmt) -> bool {
    if (id.0 as int) < nodes.len() {
        let node = nodes[id.0 as int];
        match node.kind {
            NodeKind::ExprStmt { .. } => st matches Stmt::Expr { span, .. } && span == node.span,
            NodeKind::AssignStmt { annotations, type_annotation, .. } => {
                &&& st matches Stmt::Assign { span, annotations: a, type_annotation: t, .. }
                &&& span == node.span
                &&& a@.len() == annotations@.len()
                &&& opt_type_lowered(nodes, type_annotation, t)
            },
            NodeKind::StructDef { .. } => st is Item,
            NodeKind::EnumDef { .. } => st is Item,
            NodeKind::FunctionDef { .. } => st is Item,
            _ => st is Error,
        }
    } else {
        st is Error
    }
}

/// The expressions of statement `st` are the lowerings of the statement
/// node's expressions, where arena ids are exact.
pub open spec fn stmt_trees(
    source: Seq<u8>,
    nodes: Seq<CstNode>,
    exprs: Seq<Expr>,
    id: NodeId,
    st: Stmt,
) -> bool {
    exprs.len() <= u32::MAX + 1 && (id.0 as int) < nodes.len() ==> match nodes[id.0 as int].kind {
        NodeKind::ExprStmt { expr } => st matches Stmt::Expr { expr: x, .. } && tree_lowered(
            source,
            nodes,
            exprs,
            expr,
            x.0 as int,
        ),
        NodeKind::AssignStmt { target, value, .. } => st matches Stmt::Assign {
            target: x,
            value: y,
            ..
        } && tree_lowered(source, nodes, exprs, target, x.0 as int) && tree_lowered(
            source,
            nodes,
            exprs,
            value,
            y.0 as int,
        ),
        _ => true,
    }
}

/// `b` is what node `id` lowers to as a body: a block keeps its span and one
/// statement per statement node; any other node becomes a body holding one
/// error statement; a missing node an empty body without a span.
pub open spec fn body_lowered(nodes: Seq<CstNode>, id: NodeId, b: Body) -> bool {
    if (id.0 as int) < nodes.len() {
        let node = nodes[id.0 as int];
        &&& b.span == node.span
        &&& match node.kind {
            NodeKind::Block { statements } => b.statements@.len() == statements@.len() && forall|k: int|
                0 <= k < statements@.len() ==> stmt_lowered(
                    nodes,
                    statements@[k],
                    #[trigger] b.statements@[k],
                ),
            _ => b.statements@.len() == 1 && b.statements@[0] is Error,
        }
    } else {
        b.span == (Span { start: 0, end: 0 }) && b.statements@.len() == 0
    }
}

/// `a` is what node `id` lowers to as a match arm, one level deep: it has a
/// condition exactly where the arm has a pattern.
pub open spec fn arm_lowered(nodes: Seq<CstNode>, id: NodeId, a: MatchArm) -> bool {
    &&& a.span == node_span(nodes, id)
    &&& (a.condition is Some <==> arm_has_pattern(nodes, id))
}

/// The node a match arm's body lowers from: the arm's body, or the node
/// itself where it is not an arm.
pub open spec fn arm_body_node(nodes: Seq<CstNode>, id: NodeId) -> NodeId {
    if (id.0 as int) < nodes.len() && nodes[id.0 as int].kind is MatchArm {
        nodes[id.0 as int].kind->MatchArm_body
    } else {
        id
    }
}

/// The node the expression of a pattern lowers from: the right side of a
/// predicate, else the pattern itself.
pub open spec fn pattern_operand(nodes: Seq<CstNode>, id: NodeId) -> NodeId {
    if (id.0 as int) < nodes.len() && nodes[id.0 as int].kind is PatternCondition {
        nodes[id.0 as int].kind->PatternCondition_rhs
    } else {
        id
    }
}

/// The expression a condition tests against.
pub open spec fn condition_operand(c: ConditionKind) -> ExprId {
    match c {
        ConditionKind::Equals(e) => e,
        ConditionKind::Predicate { rhs, .. } => rhs,
    }
}

/// Node `id` is a match arm with a pattern.
pub open spec fn arm_has_pattern(nodes: Seq<CstNode>, id: NodeId) -> bool {
    if (id.0 as int) < nodes.len() {
        match nodes[id.0 as int].kind {
            NodeKind::MatchArm { pattern, .. } => pattern is Some,
            _ => false,
        }
    } else {
        false
    }
}

/// `c` is what node `id` lowers to as a match condition, one level deep: a
/// predicate pattern keeps its operator, anything else compares by equality.
pub open spec fn condition_lowered(source: Seq<u8>, nodes: Seq<CstNode>, id: NodeId, c: Condition) -> bool {
    &&& c.span == node_span(nodes, id)
    &&& if (id.0 as int) < nodes.len() && nodes[id.0 as int].kind is PatternCondition {
        c.kind matches ConditionKind::Predicate { op, .. } && op == condition_op_or_equals(
            span_text(source, nodes[id.0 as int].kind->PatternCondition_op),
        )
    } else {
        c.kind is Equals
    }
}

/// The node a call argument's value lowers from: the value of a named
/// argument, else the argument node itself.
pub open spec fn call_arg_value(nodes: Seq<CstNode>, id: NodeId) -> NodeId {
    if (id.0 as int) < nodes.len() && nodes[id.0 as int].kind is NamedArg {
        nodes[id.0 as int].kind->NamedArg_value
    } else {
        id
    }
}

/// `a` is what node `id` lowers to as a call argument, one level deep.
pub open spec fn call_arg_lowered(nodes: Seq<CstNode>, id: NodeId, a: CallArg) -> bool {
    &&& a.span == node_span(nodes, id)
    &&& if (id.0 as int) < nodes.len() && nodes[id.0 as int].kind is NamedArg {
        a.name == Some(Name { span: nodes[id.0 as int].kind->NamedArg_name })
    } else {
        a.name is None
    }
}

/// `c` is what a chain step lowers to, one level deep: its span runs from
/// the dot to the end of the step, and it keeps the step's kind and
/// argument count.
pub open spec fn chain_step_lowered(step: CstChainStep, c: ChainStep) -> bool {
    match step.kind {
        CstChainStepKind::FieldAccess(name) => c == ChainStep {
            span: Span { start: step.dot_token.start, end: name.end },
            kind: ChainStepKind::Field { name: Name { span: name } },
        },
        CstChainStepKind::Call { args, close_paren, .. } => {
            &&& c.span == (Span { start: step.dot_token.start, end: close_paren.end })
            &&& c.kind matches ChainStepKind::Call { arguments }
            &&& arguments@.len() == args@.len()
        },
        CstChainStepKind::Index { close_bracket, .. } => {
            &&& c.span == (Span { start: step.dot_token.start, end: close_bracket.end })
            &&& c.kind is Index
        },
    }
}

/// The expression at `e` of `exprs` is the lowering of node `id` as a whole
/// tree: it is what the node lowers to (`expr_lowered`), and the operands of
/// unary, binary, index, call, chain, quantifier and interpolated-string
/// expressions name, in turn, the lowerings of the operand nodes.
pub open spec fn tree_lowered(
    source: Seq<u8>,
    nodes: Seq<CstNode>,
    exprs: Seq<Expr>,
    id: NodeId,
    e: int,
) -> bool
    decreases id.0,
{
    &&& 0 <= e < exprs.len()
    &&& expr_lowered(source, nodes, id, exprs[e])
    &&& (id.0 as int) < nodes.len() ==> match nodes[id.0 as int].kind {
        NodeKind::UnaryOp { expr, .. } => exprs[e].kind matches ExprKind::Unary { expr: x, .. }
            && expr.0 < id.0 && tree_lowered(source, nodes, exprs, expr, x.0 as int),
        NodeKind::BinaryOp { lhs, rhs, .. } => exprs[e].kind matches ExprKind::Binary {
            lhs: x,
            rhs: y,
            ..
        } && lhs.0 < id.0 && rhs.0 < id.0 && tree_lowered(source, nodes, exprs, lhs, x.0 as int)
            && tree_lowered(source, nodes, exprs, rhs, y.0 as int),
        NodeKind::Index { base, index, .. } => exprs[e].kind matches ExprKind::Index {
            base: x,
            index: y,
        } && base.0 < id.0 && index.0 < id.0 && tree_lowered(source, nodes, exprs, base, x.0 as int)
            && tree_lowered(source, nodes, exprs, index, y.0 as int),
        NodeKind::ChainExpr { base, steps } => exprs[e].kind matches ExprKind::Chain {
            base: x,
            steps: lowered,
        } && base.0 < id.0 && tree_lowered(source, nodes, exprs, base, x.0 as int) && forall|k: int|
            0 <= k < steps@.len() && k < lowered@.len() ==> match (#[trigger] steps@[k]).kind {
                CstChainStepKind::Call { args, .. } => lowered@[k].kind matches ChainStepKind::Call {
                    arguments,
                } && forall|j: int|
                    0 <= j < args@.len() && j < arguments@.len() ==> call_arg_value(nodes, args@[j]).0
                        < id.0 && tree_lowered(
                        source,
                        nodes,
                        exprs,
                        call_arg_value(nodes, #[trigger] args@[j]),
                        arguments@[j].value.0 as int,
                    ),
                CstChainStepKind::Index { index, .. } => lowered@[k].kind matches ChainStepKind::Index {
                    index: y,
                } && index.0 < id.0 && tree_lowered(source, nodes, exprs, index, y.0 as int),
                CstChainStepKind::FieldAccess(_) => true,
            },
        NodeKind::Call { func, args } => exprs[e].kind matches ExprKind::Call {
            callee: x,
            arguments,
        } && func.0 < id.0 && tree_lowered(source, nodes, exprs, func, x.0 as int) && forall|k: int|
            0 <= k < args@.len() && k < arguments@.len() ==> call_arg_value(nodes, args@[k]).0 < id.0
                && tree_lowered(
                source,
                nodes,
                exprs,
                call_arg_value(nodes, #[trigger] args@[k]),
                arguments@[k].value.0 as int,
            ),
        NodeKind::Quantifier { conditions, .. } => exprs[e].kind matches ExprKind::Quantifier {
            conditions: lowered,
            ..
        } && forall|k: int|
            0 <= k < conditions@.len() && k < lowered@.len() ==> conditions@[k].0 < id.0
                && tree_lowered(
                source,
                nodes,
                exprs,
                #[trigger] conditions@[k],
                lowered@[k].0 as int,
            ),
        NodeKind::InterpolatedString { parts } => exprs[e].kind matches ExprKind::InterpolatedString {
            parts: lowered,
        } && forall|k: int|
            0 <= k < parts@.len() && k < lowered@.len() ==> match #[trigger] parts@[k] {
                CstInterpolatedPart::Expr(n) => lowered@[k] matches InterpolatedPart::Expr(x) && n.0
                    < id.0 && tree_lowered(source, nodes, exprs, n, x.0 as int),
                CstInterpolatedPart::Text(t) => lowered@[k] matches InterpolatedPart::Text(u) && u@
                    == t@,
            },
        _ => true,
    }
}

/// A lowered tree stays lowered when the arena grows.
pub proof fn lemma_tree_extends(
    source: Seq<u8>,
    nodes: Seq<CstNode>,
    a: Seq<Expr>,
    b: Seq<Expr>,
    id: NodeId,
    e: int,
)
    requires
        tree_lowered(source, nodes, a, id, e),
        extends(a, b),
    ensures
        tree_lowered(source, nodes, b, id, e),
    decreases id.0,
{
    assert(b[e] == a[e]);
    if (id.0 as int) < nodes.len() {
        match nodes[id.0 as int].kind {
            NodeKind::UnaryOp { expr, .. } => {
                let x = a[e].kind->Unary_expr;
                lemma_tree_extends(source, nodes, a, b, expr, x.0 as int);
            },
            NodeKind::BinaryOp { lhs, rhs, .. } => {
                let x = a[e].kind->Binary_lhs;
                let y = a[e].kind->Binary_rhs;
                lemma_tree_extends(source, nodes, a, b, lhs, x.0 as int);
                lemma_tree_extends(source, nodes, a, b, rhs, y.0 as int);
            },
            NodeKind::Index { base, index, .. } => {
                let x = a[e].kind->Index_base;
                let y = a[e].kind->Index_index;
                lemma_tree_extends(source, nodes, a, b, base, x.0 as int);
                lemma_tree_extends(source, nodes, a, b, index, y.0 as int);
            },
            NodeKind::ChainExpr { base, steps } => {
                let x = a[e].kind->Chain_base;
                let lowered = a[e].kind->Chain_steps;
                lemma_tree_extends(source, nodes, a, b, base, x.0 as int);
                assert forall|k: int| 0 <= k < steps@.len() && k < lowered@.len() implies match (
                #[trigger] steps@[k]).kind {
                    CstChainStepKind::Call { args, .. } => lowered@[k].kind matches ChainStepKind::Call {
                        arguments,
                    } && forall|j: int|
                        0 <= j < args@.len() && j < arguments@.len() ==> call_arg_value(
                            nodes,
                            args@[j],
                        ).0 < id.0 && tree_lowered(
                            source,
                            nodes,
                            b,
                            call_arg_value(nodes, #[trigger] args@[j]),
                            arguments@[j].value.0 as int,
                        ),
                    CstChainStepKind::Index { index, .. } => lowered@[k].kind matches ChainStepKind::Index {
                        index: y,
                    } && index.0 < id.0 && tree_lowered(source, nodes, b, index, y.0 as int),
                    CstChainStepKind::FieldAccess(_) => true,
                } by {
                    match steps@[k].kind {
                        CstChainStepKind::Call { args, .. } => {
                            let arguments = lowered@[k].kind->Call_arguments;
                            assert forall|j: int|
                                0 <= j < args@.len() && j < arguments@.len() implies call_arg_value(
                                nodes,
                                args@[j],
                            ).0 < id.0 && tree_lowered(
                                source,
                                nodes,
                                b,
                                call_arg_value(nodes, #[trigger] args@[j]),
                                arguments@[j].value.0 as int,
                            ) by {
                                lemma_tree_extends(
                                    source,
                                    nodes,
                                    a,
                                    b,
                                    call_arg_value(nodes, args@[j]),
                                    arguments@[j].value.0 as int,
                                );
                            }
                        },
                        CstChainStepKind::Index { index, .. } => {
                            let y = lowered@[k].kind->Index_index;
                            lemma_tree_extends(source, nodes, a, b, index, y.0 as int);
                        },
                        CstChainStepKind::FieldAccess(_) => {},
                    }
                }
            },
            NodeKind::Call { func, args } => {
                let x = a[e].kind->Call_callee;
                let arguments = a[e].kind->Call_arguments;
                lemma_tree_extends(source, nodes, a, b, func, x.0 as int);
                assert forall|k: int|
                    0 <= k < args@.len() && k < arguments@.len() implies call_arg_value(
                    nodes,
                    args@[k],
                ).0 < id.0 && tree_lowered(
                    source,
                    nodes,
                    b,
                    call_arg_value(nodes, #[trigger] args@[k]),
                    arguments@[k].value.0 as int,
                ) by {
                    lemma_tree_extends(
                        source,
                        nodes,
                        a,
                        b,
                        call_arg_value(nodes, args@[k]),
                        arguments@[k].value.0 as int,
                    );
                }
            },
            NodeKind::Quantifier { conditions, .. } => {
                let lowered = a[e].kind->Quantifier_conditions;
                assert forall|k: int|
                    0 <= k < conditions@.len() && k < lowered@.len() implies conditions@[k].0 < id.0
                    && tree_lowered(
                    source,
                    nodes,
                    b,
                    #[trigger] conditions@[k],
                    lowered@[k].0 as int,
                ) by {
                    lemma_tree_extends(source, nodes, a, b, conditions@[k], lowered@[k].0 as int);
                }
            },
            NodeKind::InterpolatedString { parts } => {
                let lowered = a[e].kind->InterpolatedString_parts;
                assert forall|k: int| 0 <= k < parts@.len() && k < lowered@.len() implies match #[trigger] parts@[k] {
                    CstInterpolatedPart::Expr(n) => lowered@[k] matches InterpolatedPart::Expr(x) && n.0
                        < id.0 && tree_lowered(source, nodes, b, n, x.0 as int),
                    CstInterpolatedPart::Text(t) => lowered@[k] matches InterpolatedPart::Text(u) && u@
                        == t@,
                } by {
                    match parts@[k] {
                        CstInterpolatedPart::Expr(n) => {
                            let x = lowered@[k]->Expr_0;
                            lemma_tree_extends(source, nodes, a, b, n, x.0 as int);
                        },
                        CstInterpolatedPart::Text(t) => {},
                    }
                }
            },
            _ => {},
        }
    }
}

/// The operands of lowered chain step `c` name the lowerings of the operand
/// nodes of `step`, all below `bound`.
pub open spec fn step_tree(
    source: Seq<u8>,
    nodes: Seq<CstNode>,
    exprs: Seq<Expr>,
    bound: int,
    step: CstChainStep,
    c: ChainStep,
) -> bool {
    match step.kind {
        CstChainStepKind::Call { args, .. } => c.kind matches ChainStepKind::Call { arguments }
            && forall|j: int|
            0 <= j < args@.len() && j < arguments@.len() ==> call_arg_value(nodes, args@[j]).0 < bound
                && tree_lowered(
                source,
                nodes,
                exprs,
                call_arg_value(nodes, #[trigger] args@[j]),
                arguments@[j].value.0 as int,
            ),
        CstChainStepKind::Index { index, .. } => c.kind matches ChainStepKind::Index { index: y }
            && index.0 < bound && tree_lowered(source, nodes, exprs, index, y.0 as int),
        CstChainStepKind::FieldAccess(_) => true,
    }
}

/// A lowered chain step stays lowered when the arena grows.
pub proof fn lemma_step_tree_extends(
    source: Seq<u8>,
    nodes: Seq<CstNode>,
    a: Seq<Expr>,
    b: Seq<Expr>,
    bound: int,
    step: CstChainStep,
    c: ChainStep,
)
    requires
        step_tree(source, nodes, a, bound, step, c),
        extends(a, b),
    ensures
        step_tree(source, nodes, b, bound, step, c),
{
    match step.kind {
        CstChainStepKind::Call { args, .. } => {
            let arguments = c.kind->Call_arguments;
            assert forall|j: int|
                0 <= j < args@.len() && j < arguments@.len() implies call_arg_value(
                nodes,
                args@[j],
            ).0 < bound && tree_lowered(
                source,
                nodes,
                b,
                call_arg_value(nodes, #[trigger] args@[j]),
                arguments@[j].value.0 as int,
            ) by {
                lemma_tree_extends(
                    source,
                    nodes,
                    a,
                    b,
                    call_arg_value(nodes, args@[j]),
                    arguments@[j].value.0 as int,
                );
            }
        },
        CstChainStepKind::Index { index, .. } => {
            lemma_tree_extends(source, nodes, a, b, index, c.kind->Index_index.0 as int);
        },
        CstChainStepKind::FieldAccess(_) => {},
    }
}

/// Match `m` in arena `a` is the lowering of match node `id`: it keeps the
/// node's span, its scrutinee is the lowering of the node's scrutinee, and
/// it has one arm per arm node, each the lowering of that node; where arena
/// ids are exact.
pub open spec fn match_lowered(
    source: Seq<u8>,
    nodes: Seq<CstNode>,
    a: HirArena,
    id: NodeId,
    m: MatchId,
) -> bool {
    (id.0 as int) < nodes.len() && nodes[id.0 as int].kind is MatchExpr && a.matches@.len()
        <= u32::MAX + 1 ==> {
        let node = nodes[id.0 as int];
        let arm_ids = node.kind->MatchExpr_arms;
        &&& m.0 < a.matches@.len()
        &&& a.matches@[m.0 as int].span == node.span
        &&& a.matches@[m.0 as int].arms@.len() == arm_ids@.len()
        &&& a.exprs@.len() <= u32::MAX + 1 ==> tree_lowered(
            source,
            nodes,
            a.exprs@,
            node.kind->MatchExpr_scrutinee,
            a.matches@[m.0 as int].scrutinee.0 as int,
        )
        &&& a.match_arms@.len() <= u32::MAX + 1 ==> forall|k: int|
            0 <= k < arm_ids@.len() ==> (#[trigger] a.matches@[m.0 as int].arms@[k]).0
                < a.match_arms@.len() && arm_lowered(
                nodes,
                arm_ids@[k],
                a.match_arms@[a.matches@[m.0 as int].arms@[k].0 as int],
            )
    }
}

/// Map an operator spelling to its binary operator.
pub fn binary_op(operator: &[u8]) -> (r: Option<BinaryOp>)
    ensures
        r == spec_binary_op(operator@),
{
    let table: Vec<(Vec<u8>, BinaryOp)> = vec![
        (vec![60u8], BinaryOp::Lt),
        (vec![108u8, 101, 115, 115], BinaryOp::Less),
        (vec![62u8], BinaryOp::Gt),
        (vec![109u8, 111, 114, 101], BinaryOp::More),
        (vec![60u8, 61], BinaryOp::LtEq),
        (vec![108u8, 101, 97, 115, 116], BinaryOp::Least),
        (vec![62u8, 61], BinaryOp::GtEq),
        (vec![109u8, 111, 115, 116], BinaryOp::Most),
        (vec![101u8, 113, 117, 97, 108, 115], BinaryOp::Equals),
        (vec![99u8, 111, 110, 116, 97, 105, 110, 115], BinaryOp::Contains),
        (vec![109u8, 97, 116, 99, 104, 101, 115], BinaryOp::Matches),
        (vec![115u8, 116, 97, 114, 116, 115], BinaryOp::Starts),
        (vec![101u8, 110, 100, 115], BinaryOp::Ends),
        (vec![105u8, 110], BinaryOp::In),
        (vec![43u8], BinaryOp::Add),
        (vec![45u8], BinaryOp::Subtract),
        (vec![42u8], BinaryOp::Multiply),
        (vec![47u8], BinaryOp::Divide),
        (vec![37u8], BinaryOp::Remainder),
    ];
    let mut i: usize = 0;
    while i < table.len()
        invariant
            i <= table@.len(),
            table@.len() == 19,
            table@[0].0@ == seq![60u8] && table@[0].1 == BinaryOp::Lt,
            table@[1].0@ == seq![108u8, 101, 115, 115] && table@[1].1 == BinaryOp::Less,
            table@[2].0@ == seq![62u8] && table@[2].1 == BinaryOp::Gt,
            table@[3].0@ == seq![109u8, 111, 114, 101] && table@[3].1 == BinaryOp::More,
            table@[4].0@ == seq![60u8, 61] && table@[4].1 == BinaryOp::LtEq,
            table@[5].0@ == seq![108u8, 101, 97, 115, 116] && table@[5].1 == BinaryOp::Least,
            table@[6].0@ == seq![62u8, 61] && table@[6].1 == BinaryOp::GtEq,
            table@[7].0@ == seq![109u8, 111, 115, 116] && table@[7].1 == BinaryOp::Most,
            table@[8].0@ == seq![101u8, 113, 117, 97, 108, 115] && table@[8].1 == BinaryOp::Equals,
            table@[9].0@ == seq![99u8, 111, 110, 116, 97, 105, 110, 115] && table@[9].1
                == BinaryOp::Contains,
            table@[10].0@ == seq![109u8, 97, 116, 99, 104, 101, 115] && table@[10].1
                == BinaryOp::Matches,
            table@[11].0@ == seq![115u8, 116, 97, 114, 116, 115] && table@[11].1
                == BinaryOp::Starts,
            table@[12].0@ == seq![101u8, 110, 100, 115] && table@[12].1 == BinaryOp::Ends,
            table@[13].0@ == seq![105u8, 110] && table@[13].1 == BinaryOp::In,
            table@[14].0@ == seq![43u8] && table@[14].1 == BinaryOp::Add,
            table@[15].0@ == seq![45u8] && table@[15].1 == BinaryOp::Subtract,
            table@[16].0@ == seq![42u8] && table@[16].1 == BinaryOp::Multiply,
            table@[17].0@ == seq![47u8] && table@[17].1 == BinaryOp::Divide,
            table@[18].0@ == seq![37u8] && table@[18].1 == BinaryOp::Remainder,
            forall|j: int| 0 <= j < i ==> table@[j].0@ != operator@,
        decreases table.len() - i,
    {
        if bytes_equal(table[i].0.as_slice(), operator) {
            return Some(table[i].1);
        }
        i = i + 1;
    }
    None
}

/// Map an operator spelling to its match-condition operator.
pub fn condition_op(operator: &[u8]) -> (r: Option<ConditionOp>)
    ensures
        r == spec_condition_op(operator@),
{
    let table: Vec<(Vec<u8>, ConditionOp)> = vec![
        (vec![99u8, 111, 110, 116, 97, 105, 110, 115], ConditionOp::Contains),
        (vec![109u8, 97, 116, 99, 104, 101, 115], ConditionOp::Matches),
        (vec![115u8, 116, 97, 114, 116, 115], ConditionOp::Starts),
        (vec![101u8, 110, 100, 115], ConditionOp::Ends),
        (vec![108u8, 101, 115, 115], ConditionOp::Less),
        (vec![109u8, 111, 114, 101], ConditionOp::More),
        (vec![108u8, 101, 97, 115, 116], ConditionOp::Least),
        (vec![109u8, 111, 115, 116], ConditionOp::Most),
        (vec![101u8, 113, 117, 97, 108, 115], ConditionOp::Equals),
        (vec![105u8, 110], ConditionOp::In),
        (vec![60u8], ConditionOp::Lt),
        (vec![62u8], ConditionOp::Gt),
        (vec![60u8, 61], ConditionOp::LtEq),
        (vec![62u8, 61], ConditionOp::GtEq),
    ];
    let mut i: usize = 0;
    while i < table.len()
        invariant
            i <= table@.len(),
            table@.len() == 14,
            table@[0].0@ == seq![99u8, 111, 110, 116, 97, 105, 110, 115] && table@[0].1
                == ConditionOp::Contains,
            table@[1].0@ == seq![109u8, 97, 116, 99, 104, 101, 115] && table@[1].1
                == ConditionOp::Matches,
            table@[2].0@ == seq![115u8, 116, 97, 114, 116, 115] && table@[2].1
                == ConditionOp::Starts,
            table@[3].0@ == seq![101u8, 110, 100, 115] && table@[3].1 == ConditionOp::Ends,
            table@[4].0@ == seq![108u8, 101, 115, 115] && table@[4].1 == ConditionOp::Less,
            table@[5].0@ == seq![109u8, 111, 114, 101] && table@[5].1 == ConditionOp::More,
            table@[6].0@ == seq![108u8, 101, 97, 115, 116] && table@[6].1 == ConditionOp::Least,
            table@[7].0@ == seq![109u8, 111, 115, 116] && table@[7].1 == ConditionOp::Most,
            table@[8].0@ == seq![101u8, 113, 117, 97, 108, 115] && table@[8].1
                == ConditionOp::Equals,
            table@[9].0@ == seq![105u8, 110] && table@[9].1 == ConditionOp::In,
            table@[10].0@ == seq![60u8] && table@[10].1 == ConditionOp::Lt,
            table@[11].0@ == seq![62u8] && table@[11].1 == ConditionOp::Gt,
            table@[12].0@ == seq![60u8, 61] && table@[12].1 == ConditionOp::LtEq,
            table@[13].0@ == seq![62u8, 61] && table@[13].1 == ConditionOp::GtEq,
            forall|j: int| 0 <= j < i ==> table@[j].0@ != operator@,
        decreases table.len() - i,
    {
        if bytes_equal(table[i].0.as_slice(), operator) {
            return Some(table[i].1);
        }
        i = i + 1;
    }
    None
}

/// The name of a node kind, as messages spell it.
pub open spec fn spec_node_kind_name(kind: NodeKind) -> Seq<char> {
    match kind {
        NodeKind::Module => "Module"@,
        NodeKind::FunctionDef { .. } => "FunctionDef"@,
        NodeKind::StructDef { .. } => "StructDef"@,
        NodeKind::AnonymousStructType { .. } => "AnonymousStructType"@,
        NodeKind::AnonymousEnumType { .. } => "AnonymousEnumType"@,
        NodeKind::LitRegex => "LitRegex"@,
        NodeKind::Array { .. } => "Array"@,
        NodeKind::ObjectLiteral { .. } => "ObjectLiteral"@,
        NodeKind::ObjectField { .. } => "ObjectField"@,
        NodeKind::EnumDef { .. } => "EnumDef"@,
        NodeKind::FieldDef { .. } => "FieldDef"@,
        NodeKind::Annotation { .. } => "Annotation"@,
        NodeKind::AnnotationArg { .. } => "AnnotationArg"@,
        NodeKind::ExprStmt { .. } => "ExprStmt"@,
        NodeKind::AssignStmt { .. } => "AssignStmt"@,
        NodeKind::NamedArg { .. } => "NamedArg"@,
        NodeKind::MatchArm { .. } => "MatchArm"@,
        NodeKind::LitInteger => "LitInteger"@,
        NodeKind::LitFloat => "LitFloat"@,
        NodeKind::LitString => "LitString"@,
        NodeKind::LitChar => "LitChar"@,
        NodeKind::LitBool(_) => "LitBool"@,
        NodeKind::Ident(_) => "Ident"@,
        NodeKind::BinaryOp { .. } => "BinaryOp"@,
        NodeKind::UnaryOp { .. } => "UnaryOp"@,
        NodeKind::Call { .. } => "Call"@,
        NodeKind::ChainExpr { .. } => "ChainExpr"@,
        NodeKind::InterpolatedString { .. } => "InterpolatedString"@,
        NodeKind::MatchExpr { .. } => "MatchExpr"@,
        NodeKind::Quantifier { .. } => "Quantifier"@,
        NodeKind::ConditionExpr { .. } => "ConditionExpr"@,
        NodeKind::Block { .. } => "Block"@,
        NodeKind::Param { .. } => "Param"@,
        NodeKind::PatternLiteral => "PatternLiteral"@,
        NodeKind::PatternWildcard => "PatternWildcard"@,
        NodeKind::PatternCondition { .. } => "PatternCondition"@,
        NodeKind::PatternDestructure { .. } => "PatternDestructure"@,
        NodeKind::Index { .. } => "Index"@,
        NodeKind::ImportItem { .. } => "ImportItem"@,
        NodeKind::ImportDecl => "ImportDecl"@,
        NodeKind::ExportDecl => "ExportDecl"@,
        NodeKind::Error => "Error"@,
    }
}

/// The variant name of a node kind, for diagnostics.
fn node_kind_name(kind: &NodeKind) -> (r: &'static str)
    ensures
        r@ == spec_node_kind_name(*kind),
{
    match kind {
        NodeKind::Module => "Module",
        NodeKind::FunctionDef { .. } => "FunctionDef",
        NodeKind::StructDef { .. } => "StructDef",
        NodeKind::AnonymousStructType { .. } => "AnonymousStructType",
        NodeKind::AnonymousEnumType { .. } => "AnonymousEnumType",
        NodeKind::LitRegex => "LitRegex",
        NodeKind::Array { .. } => "Array",
        NodeKind::ObjectLiteral { .. } => "ObjectLiteral",
        NodeKind::ObjectField { .. } => "ObjectField",
        NodeKind::EnumDef { .. } => "EnumDef",
        NodeKind::FieldDef { .. } => "FieldDef",
        NodeKind::Annotation { .. } => "Annotation",
        NodeKind::AnnotationArg { .. } => "AnnotationArg",
        NodeKind::ExprStmt { .. } => "ExprStmt",
        NodeKind::AssignStmt { .. } => "AssignStmt",
        NodeKind::NamedArg { .. } => "NamedArg",
        NodeKind::MatchArm { .. } => "MatchArm",
        NodeKind::LitInteger => "LitInteger",
        NodeKind::LitFloat => "LitFloat",
        NodeKind::LitString => "LitString",
        NodeKind::LitChar => "LitChar",
        NodeKind::LitBool(_) => "LitBool",
        NodeKind::Ident(_) => "Ident",
        NodeKind::BinaryOp { .. } => "BinaryOp",
        NodeKind::UnaryOp { .. } => "UnaryOp",
        NodeKind::Call { .. } => "Call",
        NodeKind::ChainExpr { .. } => "ChainExpr",
        NodeKind::InterpolatedString { .. } => "InterpolatedString",
        NodeKind::MatchExpr { .. } => "MatchExpr",
        NodeKind::Quantifier { .. } => "Quantifier",
        NodeKind::ConditionExpr { .. } => "ConditionExpr",
        NodeKind::Block { .. } => "Block",
        NodeKind::Param { .. } => "Param",
        NodeKind::PatternLiteral => "PatternLiteral",
        NodeKind::PatternWildcard => "PatternWildcard",
        NodeKind::PatternCondition { .. } => "PatternCondition",
        NodeKind::PatternDestructure { .. } => "PatternDestructure",
        NodeKind::Index { .. } => "Index",
        NodeKind::ImportItem { .. } => "ImportItem",
        NodeKind::ImportDecl => "ImportDecl",
        NodeKind::ExportDecl => "ExportDecl",
        NodeKind::Error => "Error",
    }
}

/// The i128 that `str::parse` reads from a spelling: an optional sign, then
/// one or more decimal digits, in range.
pub open spec fn digits_value(d: Seq<u8>) -> int
    decreases d.len(),
{
    if d.len() == 0 {
        0
    } else {
        digits_value(d.drop_last()) * 10 + (d.last() - 48)
    }
}

/// Every byte is an ASCII decimal digit.
pub open spec fn all_digits(d: Seq<u8>) -> bool {
    forall|i: int| 0 <= i < d.len() ==> 48 <= #[trigger] d[i] <= 57
}

/// What `str::parse::<i128>` returns for a spelling.
pub open spec fn spec_parse_i128(t: Seq<u8>) -> Option<i128> {
    let neg = t.len() > 0 && t[0] == 45;
    let d = if t.len() > 0 && (t[0] == 45 || t[0] == 43) {
        t.drop_first()
    } else {
        t
    };
    let v = if neg {
        -digits_value(d)
    } else {
        digits_value(d)
    };
    if d.len() == 0 || !all_digits(d) || v < i128::MIN || v > i128::MAX {
        None
    } else {
        Some(v as i128)
    }
}

/// Trusted: `str::parse::<i128>`. Its documentation accepts an optional
/// `+` or `-` followed by decimal digits only, and fails when the value does
/// not fit; this item states exactly that.
#[verifier::external_body]
fn parse_i128(text: &str) -> (r: Option<i128>)
    ensures
        r == spec_parse_i128(text.spec_bytes()),
{
    text.parse::<i128>().ok()
}

/// `a` followed by `b`.
fn concat(a: &str, b: &str) -> (r: String)
    ensures
        r@ == a@ + b@,
{
    let mut m = String::from_str(a);
    m.append(b);
    m
}

impl<'a> LoweringContext<'a> {
    /// Every id reachable from here refers backwards.
    spec fn input_ok(&self) -> bool {
        refers_back(self.input.nodes@)
    }

    /// Record an error diagnostic.
    fn report(&mut self, code: &str, message: String, span: Span)
        ensures
            final(self).input == old(self).input,
            arena_extends(old(self).arena, final(self).arena),
            final(self).arena == old(self).arena,
            final(self).diagnostics@.len() == old(self).diagnostics@.len() + 1,
            final(self).diagnostics@ == old(self).diagnostics@.push(final(self).diagnostics@.last()),
            final(self).diagnostics@.last().code@ == code@,
            final(self).diagnostics@.last().severity == Severity::Error,
            final(self).diagnostics@.last().primary == span,
    {
        self.diagnostics.push(Diagnostic::error(code, message, span));
    }

    /// The node an id addresses; a missing node is reported.
    fn node(&mut self, id: NodeId) -> (r: Option<&'a CstNode>)
        ensures
            final(self).input == old(self).input,
            arena_extends(old(self).arena, final(self).arena),
            final(self).arena == old(self).arena,
            (id.0 as int) < old(self).input.nodes@.len() ==> r == Some(
                &old(self).input.nodes@[id.0 as int],
            ),
            (id.0 as int) >= old(self).input.nodes@.len() ==> r is None,
    {
        let input = self.input;
        if (id.0 as usize) < input.nodes.len() {
            return Some(&input.nodes[id.0 as usize]);
        }
        let mut message = String::from_str("CST node ");
        message.append(id.0.to_string().as_str());
        message.append(" is outside the node arena");
        self.report("invalid-cst-node", message, Span::dummy());
        None
    }

    /// The source text of a span; a span outside the source is reported.
    fn source_text(&mut self, span: Span) -> (r: Option<String>)
        ensures
            final(self).input == old(self).input,
            arena_extends(old(self).arena, final(self).arena),
            final(self).arena == old(self).arena,
            r is Some <==> span_selects(source_bytes(old(self).input), span),
            r matches Some(t) ==> encode_utf8(t@) == span_text(source_bytes(old(self).input), span),
    {
        let input = self.input;
        match str_get(input.source.as_str(), span.start, span.end) {
            Some(text) => Some(text.to_owned()),
            None => {
                let mut message = String::from_str("source span ");
                message.append(span.start.to_string().as_str());
                message.append("..");
                message.append(span.end.to_string().as_str());
                message.append(" is outside the input");
                self.report("invalid-source-span", message, span);
                None
            },
        }
    }

    /// The source text of a span, empty when it is outside the source.
    fn source(&mut self, span: Span) -> (r: String)
        ensures
            final(self).input == old(self).input,
            arena_extends(old(self).arena, final(self).arena),
            final(self).arena == old(self).arena,
            encode_utf8(r@) == span_text(source_bytes(old(self).input), span),
    {
        match self.source_text(span) {
            Some(text) => text,
            None => String::new(),
        }
    }

    /// A placeholder node for an unsupported or malformed item.
    fn error_node(&mut self, span: Span) -> (r: HirId)
        ensures
            final(self).input == old(self).input,
            arena_extends(old(self).arena, final(self).arena),
            final(self).arena.nodes@ == old(self).arena.nodes@.push(HirNode::Error { span }),
            old(self).arena.nodes@.len() <= u32::MAX ==> r.0 == old(self).arena.nodes@.len(),
    {
        self.arena.alloc_node(HirNode::Error { span })
    }

    /// A placeholder expression that keeps the source span.
    fn error_expr(&mut self, span: Span) -> (r: ExprId)
        ensures
            final(self).input == old(self).input,
            arena_extends(old(self).arena, final(self).arena),
            final(self).arena.exprs@ == old(self).arena.exprs@.push(
                Expr { span, kind: ExprKind::Error },
            ),
            old(self).arena.exprs@.len() <= u32::MAX ==> r.0 == old(self).arena.exprs@.len(),
    {
        self.arena.alloc_expr(Expr { span, kind: ExprKind::Error })
    }

    /// Lower one expression into the expression arena.
    fn lower_expr(&mut self, id: NodeId) -> (r: ExprId)
        requires
            old(self).input_ok(),
        ensures
            final(self).input == old(self).input,
            arena_extends(old(self).arena, final(self).arena),
            final(self).arena.exprs@.len() > old(self).arena.exprs@.len(),
            expr_lowered(
                source_bytes(old(self).input),
                old(self).input.nodes@,
                id,
                final(self).arena.exprs@.last(),
            ),
            final(self).arena.exprs@.len() <= u32::MAX + 1 ==> r.0 == final(self).arena.exprs@.len()
                - 1,
            final(self).arena.exprs@.len() <= u32::MAX + 1 ==> tree_lowered(
                source_bytes(old(self).input),
                old(self).input.nodes@,
                final(self).arena.exprs@,
                id,
                final(self).arena.exprs@.len() - 1,
            ),
            final(self).arena.exprs@.last().kind matches ExprKind::Match(m) ==> match_lowered(
                source_bytes(old(self).input),
                old(self).input.nodes@,
                final(self).arena,
                id,
                m,
            ),
        decreases id.0, 2nat,
    {
        let node = match self.node(id) {
            Some(node) => node,
            None => {
                return self.error_expr(Span::dummy());
            },
        };
        proof {
            assert(refers_back_at(self.input.nodes@, id.0 as int));
        }
        let span = node.span;
        let ghost src = source_bytes(self.input);
        let ghost nodes = self.input.nodes@;
        let expression = match &node.kind {
            NodeKind::LitInteger => ExprKind::Literal(Literal::Integer(self.parse_integer(span))),
            NodeKind::LitFloat => ExprKind::Literal(Literal::Float(self.source(span))),
            NodeKind::LitString => ExprKind::Literal(Literal::String(self.parse_string(span))),
            NodeKind::LitChar => ExprKind::Literal(Literal::Char(self.source(span))),
            NodeKind::LitRegex => ExprKind::Literal(Literal::Regex(self.source(span))),
            NodeKind::LitBool(value) => ExprKind::Literal(Literal::Bool(*value)),
            NodeKind::Ident(name) => ExprKind::Name(Name { span: *name }),
            NodeKind::UnaryOp { op, expr } => {
                let op = self.lower_unary_op(*op);
                let operand = self.lower_expr(*expr);
                let ghost s1 = self.arena.exprs@;
                let r = self.arena.alloc_expr(Expr { span, kind: ExprKind::Unary { op, expr: operand } });
                proof {
                    if self.arena.exprs@.len() <= u32::MAX + 1 {
                        lemma_tree_extends(src, nodes, s1, self.arena.exprs@, *expr, operand.0 as int);
                    }
                }
                return r;
            },
            NodeKind::BinaryOp { op, lhs, rhs } => {
                let op = self.lower_binary_op(*op);
                let left = self.lower_expr(*lhs);
                let ghost s1 = self.arena.exprs@;
                let right = self.lower_expr(*rhs);
                let ghost s2 = self.arena.exprs@;
                let r = self.arena.alloc_expr(
                    Expr { span, kind: ExprKind::Binary { op, lhs: left, rhs: right } },
                );
                proof {
                    if self.arena.exprs@.len() <= u32::MAX + 1 {
                        lemma_tree_extends(src, nodes, s1, self.arena.exprs@, *lhs, left.0 as int);
                        lemma_tree_extends(src, nodes, s2, self.arena.exprs@, *rhs, right.0 as int);
                    }
                }
                return r;
            },
            NodeKind::Call { func, args } => {
                let callee = self.lower_expr(*func);
                let mut arguments: Vec<CallArg> = Vec::new();
                let mut i: usize = 0;
                while i < args.len()
                    invariant
                        self.input_ok(),
                        self.input == old(self).input,
                        src == source_bytes(self.input),
                        nodes == self.input.nodes@,
                        arena_extends(old(self).arena, self.arena),
                        ids_below(args@, id.0 as int),
                        i <= args@.len(),
                        arguments@.len() == i,
                        self.arena.exprs@.len() <= u32::MAX + 1 ==> tree_lowered(
                            src,
                            nodes,
                            self.arena.exprs@,
                            *func,
                            callee.0 as int,
                        ),
                        self.arena.exprs@.len() <= u32::MAX + 1 ==> forall|k: int|
                            0 <= k < i ==> call_arg_value(nodes, args@[k]).0 < id.0 && tree_lowered(
                                src,
                                nodes,
                                self.arena.exprs@,
                                call_arg_value(nodes, #[trigger] args@[k]),
                                arguments@[k].value.0 as int,
                            ),
                    decreases args.len() - i,
                {
                    let ghost before = self.arena.exprs@;
                    let argument = self.lower_call_arg(args[i]);
                    proof {
                        let after = self.arena.exprs@;
                        if after.len() <= u32::MAX + 1 {
                            lemma_tree_extends(src, nodes, before, after, *func, callee.0 as int);
                            assert forall|k: int| 0 <= k < i implies call_arg_value(
                                nodes,
                                args@[k],
                            ).0 < id.0 && tree_lowered(
                                src,
                                nodes,
                                after,
                                call_arg_value(nodes, #[trigger] args@[k]),
                                arguments@[k].value.0 as int,
                            ) by {
                                lemma_tree_extends(
                                    src,
                                    nodes,
                                    before,
                                    after,
                                    call_arg_value(nodes, args@[k]),
                                    arguments@[k].value.0 as int,
                                );
                            }
                            if (args@[i as int].0 as int) < nodes.len() {
                                assert(refers_back_at(nodes, args@[i as int].0 as int));
                            }
                        }
                    }
                    arguments.push(argument);
                    i = i + 1;
                }
                let ghost s1 = self.arena.exprs@;
                let r = self.arena.alloc_expr(
                    Expr { span, kind: ExprKind::Call { callee, arguments } },
                );
                proof {
                    let fin = self.arena.exprs@;
                    if fin.len() <= u32::MAX + 1 {
                        lemma_tree_extends(src, nodes, s1, fin, *func, callee.0 as int);
                        let lowered = fin.last().kind->Call_arguments;
                        assert forall|k: int| 0 <= k < args@.len() && k < lowered@.len() implies call_arg_value(
                            nodes,
                            args@[k],
                        ).0 < id.0 && tree_lowered(
                            src,
                            nodes,
                            fin,
                            call_arg_value(nodes, #[trigger] args@[k]),
                            lowered@[k].value.0 as int,
                        ) by {
                            lemma_tree_extends(
                                src,
                                nodes,
                                s1,
                                fin,
                                call_arg_value(nodes, args@[k]),
                                lowered@[k].value.0 as int,
                            );
                        }
                    }
                }
                return r;
            },
            NodeKind::ChainExpr { base, steps } => {
                let lowered_base = self.lower_expr(*base);
                let mut lowered: Vec<ChainStep> = Vec::new();
                let mut i: usize = 0;
                while i < steps.len()
                    invariant
                        self.input_ok(),
                        self.input == old(self).input,
                        src == source_bytes(self.input),
                        nodes == self.input.nodes@,
                        arena_extends(old(self).arena, self.arena),
                        i <= steps@.len(),
                        lowered@.len() == i,
                        forall|k: int|
                            0 <= k < steps@.len() ==> step_refs_below(
                                #[trigger] steps@[k],
                                id.0 as int,
                            ),
                        self.arena.exprs@.len() <= u32::MAX + 1 ==> tree_lowered(
                            src,
                            nodes,
                            self.arena.exprs@,
                            *base,
                            lowered_base.0 as int,
                        ),
                        self.arena.exprs@.len() <= u32::MAX + 1 ==> forall|k: int|
                            0 <= k < i ==> step_tree(
                                src,
                                nodes,
                                self.arena.exprs@,
                                id.0 as int,
                                #[trigger] steps@[k],
                                lowered@[k],
                            ),
                    decreases steps.len() - i,
                {
                    let ghost before = self.arena.exprs@;
                    let step = self.lower_chain_step(&steps[i], Ghost(id.0 as int));
                    proof {
                        if self.arena.exprs@.len() <= u32::MAX + 1 {
                            lemma_tree_extends(
                                src,
                                nodes,
                                before,
                                self.arena.exprs@,
                                *base,
                                lowered_base.0 as int,
                            );
                            assert forall|k: int| 0 <= k < i implies step_tree(
                                src,
                                nodes,
                                self.arena.exprs@,
                                id.0 as int,
                                #[trigger] steps@[k],
                                lowered@[k],
                            ) by {
                                lemma_step_tree_extends(
                                    src,
                                    nodes,
                                    before,
                                    self.arena.exprs@,
                                    id.0 as int,
                                    steps@[k],
                                    lowered@[k],
                                );
                            }
                        }
                    }
                    lowered.push(step);
                    i = i + 1;
                }
                let ghost s1 = self.arena.exprs@;
                let r = self.arena.alloc_expr(
                    Expr { span, kind: ExprKind::Chain { base: lowered_base, steps: lowered } },
                );
                proof {
                    let fin = self.arena.exprs@;
                    if fin.len() <= u32::MAX + 1 {
                        lemma_tree_extends(src, nodes, s1, fin, *base, lowered_base.0 as int);
                        let ls = fin.last().kind->Chain_steps;
                        assert forall|k: int| 0 <= k < steps@.len() && k < ls@.len() implies step_tree(
                            src,
                            nodes,
                            fin,
                            id.0 as int,
                            #[trigger] steps@[k],
                            ls@[k],
                        ) by {
                            lemma_step_tree_extends(src, nodes, s1, fin, id.0 as int, steps@[k], ls@[k]);
                        }
                    }
                }
                return r;
            },
            NodeKind::Index { base, index, .. } => {
                let lowered_base = self.lower_expr(*base);
                let ghost s1 = self.arena.exprs@;
                let lowered_index = self.lower_expr(*index);
                let ghost s2 = self.arena.exprs@;
                let r = self.arena.alloc_expr(
                    Expr { span, kind: ExprKind::Index { base: lowered_base, index: lowered_index } },
                );
                proof {
                    if self.arena.exprs@.len() <= u32::MAX + 1 {
                        lemma_tree_extends(src, nodes, s1, self.arena.exprs@, *base, lowered_base.0 as int);
                        lemma_tree_extends(
                            src,
                            nodes,
                            s2,
                            self.arena.exprs@,
                            *index,
                            lowered_index.0 as int,
                        );
                    }
                }
                return r;
            },
            NodeKind::MatchExpr { scrutinee, arms } => {
                let match_id = self.lower_match(span, *scrutinee, arms, Ghost(id.0 as int));
                let ghost s1 = self.arena.exprs@;
                let ghost m1 = self.arena.matches@;
                let r = self.arena.alloc_expr(Expr { span, kind: ExprKind::Match(match_id) });
                proof {
                    if self.arena.exprs@.len() <= u32::MAX + 1 && m1.len() <= u32::MAX + 1 {
                        lemma_tree_extends(
                            src,
                            nodes,
                            s1,
                            self.arena.exprs@,
                            *scrutinee,
                            m1.last().scrutinee.0 as int,
                        );
                    }
                }
                return r;
            },
            NodeKind::Quantifier { kind, conditions } => {
                let kind = lower_quantifier_kind(*kind);
                let mut lowered: Vec<ExprId> = Vec::new();
                let mut i: usize = 0;
                while i < conditions.len()
                    invariant
                        self.input_ok(),
                        self.input == old(self).input,
                        src == source_bytes(self.input),
                        nodes == self.input.nodes@,
                        arena_extends(old(self).arena, self.arena),
                        i <= conditions@.len(),
                        lowered@.len() == i,
                        ids_below(conditions@, id.0 as int),
                        self.arena.exprs@.len() <= u32::MAX + 1 ==> forall|k: int|
                            0 <= k < i ==> tree_lowered(
                                src,
                                nodes,
                                self.arena.exprs@,
                                #[trigger] conditions@[k],
                                lowered@[k].0 as int,
                            ),
                    decreases conditions.len() - i,
                {
                    let ghost before = self.arena.exprs@;
                    let condition = self.lower_expr(conditions[i]);
                    proof {
                        let after = self.arena.exprs@;
                        if after.len() <= u32::MAX + 1 {
                            assert forall|k: int| 0 <= k < i implies tree_lowered(
                                src,
                                nodes,
                                after,
                                #[trigger] conditions@[k],
                                lowered@[k].0 as int,
                            ) by {
                                lemma_tree_extends(
                                    src,
                                    nodes,
                                    before,
                                    after,
                                    conditions@[k],
                                    lowered@[k].0 as int,
                                );
                            }
                        }
                    }
                    lowered.push(condition);
                    i = i + 1;
                }
                let ghost s1 = self.arena.exprs@;
                let r = self.arena.alloc_expr(
                    Expr { span, kind: ExprKind::Quantifier { kind, conditions: lowered } },
                );
                proof {
                    let fin = self.arena.exprs@;
                    if fin.len() <= u32::MAX + 1 {
                        let ls = fin.last().kind->Quantifier_conditions;
                        assert forall|k: int| 0 <= k < conditions@.len() && k < ls@.len() implies conditions@[k].0 < id.0
                            && tree_lowered(
                            src,
                            nodes,
                            fin,
                            #[trigger] conditions@[k],
                            ls@[k].0 as int,
                        ) by {
                            lemma_tree_extends(src, nodes, s1, fin, conditions@[k], ls@[k].0 as int);
                        }
                    }
                }
                return r;
            },
            NodeKind::InterpolatedString { parts } => {
                let mut lowered: Vec<InterpolatedPart> = Vec::new();
                let mut i: usize = 0;
                while i < parts.len()
                    invariant
                        self.input_ok(),
                        self.input == old(self).input,
                        src == source_bytes(self.input),
                        nodes == self.input.nodes@,
                        arena_extends(old(self).arena, self.arena),
                        i <= parts@.len(),
                        lowered@.len() == i,
                        forall|k: int|
                            0 <= k < parts@.len() ==> part_refs_below(
                                #[trigger] parts@[k],
                                id.0 as int,
                            ),
                        self.arena.exprs@.len() <= u32::MAX + 1 ==> forall|k: int|
                            0 <= k < i ==> match #[trigger] parts@[k] {
                                CstInterpolatedPart::Expr(n) => lowered@[k] matches InterpolatedPart::Expr(
                                    x,
                                ) && n.0 < id.0 && tree_lowered(src, nodes, self.arena.exprs@, n, x.0 as int),
                                CstInterpolatedPart::Text(t) => lowered@[k] matches InterpolatedPart::Text(
                                    u,
                                ) && u@ == t@,
                            },
                    decreases parts.len() - i,
                {
                    proof {
                        assert(part_refs_below(parts@[i as int], id.0 as int));
                    }
                    let ghost before = self.arena.exprs@;
                    let part = match &parts[i] {
                        CstInterpolatedPart::Text(text) => InterpolatedPart::Text(text.clone()),
                        CstInterpolatedPart::Expr(e) => InterpolatedPart::Expr(self.lower_expr(*e)),
                    };
                    proof {
                        let after = self.arena.exprs@;
                        if after.len() <= u32::MAX + 1 {
                            assert forall|k: int| 0 <= k < i implies match #[trigger] parts@[k] {
                                CstInterpolatedPart::Expr(n) => lowered@[k] matches InterpolatedPart::Expr(
                                    x,
                                ) && n.0 < id.0 && tree_lowered(src, nodes, after, n, x.0 as int),
                                CstInterpolatedPart::Text(t) => lowered@[k] matches InterpolatedPart::Text(
                                    u,
                                ) && u@ == t@,
                            } by {
                                match parts@[k] {
                                    CstInterpolatedPart::Expr(n) => {
                                        let x = lowered@[k]->Expr_0;
                                        lemma_tree_extends(src, nodes, before, after, n, x.0 as int);
                                    },
                                    CstInterpolatedPart::Text(t) => {},
                                }
                            }
                        }
                    }
                    lowered.push(part);
                    i = i + 1;
                }
                let ghost s1 = self.arena.exprs@;
                let r = self.arena.alloc_expr(
                    Expr { span, kind: ExprKind::InterpolatedString { parts: lowered } },
                );
                proof {
                    let fin = self.arena.exprs@;
                    if fin.len() <= u32::MAX + 1 {
                        let ls = fin.last().kind->InterpolatedString_parts;
                        assert forall|k: int| 0 <= k < parts@.len() && k < ls@.len() implies match #[trigger] parts@[k] {
                            CstInterpolatedPart::Expr(n) => ls@[k] matches InterpolatedPart::Expr(x) && n.0
                                < id.0 && tree_lowered(src, nodes, fin, n, x.0 as int),
                            CstInterpolatedPart::Text(t) => ls@[k] matches InterpolatedPart::Text(u) && u@
                                == t@,
                        } by {
                            match parts@[k] {
                                CstInterpolatedPart::Expr(n) => {
                                    let x = ls@[k]->Expr_0;
                                    lemma_tree_extends(src, nodes, s1, fin, n, x.0 as int);
                                },
                                CstInterpolatedPart::Text(t) => {},
                            }
                        }
                    }
                }
                return r;
            },
            other => {
                let message = concat(
                    concat("cannot lower ", node_kind_name(other)).as_str(),
                    " as an expression",
                );
                self.report("unsupported-expression", message, span);
                ExprKind::Error
            },
        };
        self.arena.alloc_expr(Expr { span, kind: expression })
    }

    /// Lower a call argument, unwrapping a named argument.
    fn lower_call_arg(&mut self, id: NodeId) -> (r: CallArg)
        requires
            old(self).input_ok(),
        ensures
            final(self).input == old(self).input,
            arena_extends(old(self).arena, final(self).arena),
            call_arg_lowered(old(self).input.nodes@, id, r),
            final(self).arena.exprs@.len() > old(self).arena.exprs@.len(),
            expr_lowered(
                source_bytes(old(self).input),
                old(self).input.nodes@,
                call_arg_value(old(self).input.nodes@, id),
                final(self).arena.exprs@.last(),
            ),
            final(self).arena.exprs@.len() <= u32::MAX + 1 ==> r.value.0 == final(self).arena.exprs@.len()
                - 1,
            final(self).arena.exprs@.len() <= u32::MAX + 1 ==> tree_lowered(
                source_bytes(old(self).input),
                old(self).input.nodes@,
                final(self).arena.exprs@,
                call_arg_value(old(self).input.nodes@, id),
                r.value.0 as int,
            ),
        decreases id.0, 3nat,
    {
        let node = match self.node(id) {
            Some(node) => node,
            None => {
                let value = self.error_expr(Span::dummy());
                return CallArg { span: Span::dummy(), name: None, value };
            },
        };
        proof {
            assert(refers_back_at(self.input.nodes@, id.0 as int));
        }
        let span = node.span;
        match &node.kind {
            NodeKind::NamedArg { name, value } => {
                let value = self.lower_expr(*value);
                CallArg { span, name: Some(Name { span: *name }), value }
            },
            _ => {
                let value = self.lower_expr(id);
                CallArg { span, name: None, value }
            },
        }
    }

    /// Lower one chain step; its operands are below `bound`.
    fn lower_chain_step(&mut self, step: &CstChainStep, Ghost(bound): Ghost<int>) -> (r: ChainStep)
        requires
            old(self).input_ok(),
            step_refs_below(*step, bound),
            bound >= 0,
        ensures
            final(self).input == old(self).input,
            arena_extends(old(self).arena, final(self).arena),
            chain_step_lowered(*step, r),
            final(self).arena.exprs@.len() <= u32::MAX + 1 ==> step_tree(
                source_bytes(old(self).input),
                old(self).input.nodes@,
                final(self).arena.exprs@,
                bound,
                *step,
                r,
            ),
        decreases bound, 1nat,
    {
        let ghost src = source_bytes(self.input);
        let ghost nodes = self.input.nodes@;
        let (kind, end) = match &step.kind {
            CstChainStepKind::FieldAccess(name) => (
                ChainStepKind::Field { name: Name { span: *name } },
                name.end,
            ),
            CstChainStepKind::Call { args, close_paren, .. } => {
                let mut arguments: Vec<CallArg> = Vec::new();
                let mut i: usize = 0;
                while i < args.len()
                    invariant
                        self.input_ok(),
                        self.input == old(self).input,
                        arena_extends(old(self).arena, self.arena),
                        ids_below(args@, bound),
                        i <= args@.len(),
                        arguments@.len() == i,
                        src == source_bytes(self.input),
                        nodes == self.input.nodes@,
                        self.arena.exprs@.len() <= u32::MAX + 1 ==> forall|k: int|
                            0 <= k < i ==> call_arg_value(nodes, args@[k]).0 < bound && tree_lowered(
                                src,
                                nodes,
                                self.arena.exprs@,
                                call_arg_value(nodes, #[trigger] args@[k]),
                                arguments@[k].value.0 as int,
                            ),
                    decreases args.len() - i,
                {
                    let ghost before = self.arena.exprs@;
                    let argument = self.lower_call_arg(args[i]);
                    proof {
                        let after = self.arena.exprs@;
                        if after.len() <= u32::MAX + 1 {
                            assert forall|k: int| 0 <= k < i implies call_arg_value(
                                nodes,
                                args@[k],
                            ).0 < bound && tree_lowered(
                                src,
                                nodes,
                                after,
                                call_arg_value(nodes, #[trigger] args@[k]),
                                arguments@[k].value.0 as int,
                            ) by {
                                lemma_tree_extends(
                                    src,
                                    nodes,
                                    before,
                                    after,
                                    call_arg_value(nodes, args@[k]),
                                    arguments@[k].value.0 as int,
                                );
                            }
                            if (args@[i as int].0 as int) < nodes.len() {
                                assert(refers_back_at(nodes, args@[i as int].0 as int));
                            }
                        }
                    }
                    arguments.push(argument);
                    i = i + 1;
                }
                (ChainStepKind::Call { arguments }, close_paren.end)
            },
            CstChainStepKind::Index { index, close_bracket, .. } => {
                let index = self.lower_expr(*index);
                (ChainStepKind::Index { index }, close_bracket.end)
            },
        };
        ChainStep { span: Span::new(step.dot_token.start, end), kind }
    }

    /// Lower a unary operator from its spelling.
    fn lower_unary_op(&mut self, span: Span) -> (r: UnaryOp)
        ensures
            final(self).input == old(self).input,
            arena_extends(old(self).arena, final(self).arena),
            final(self).arena == old(self).arena,
            r == spec_unary_op(span_text(source_bytes(old(self).input), span)),
    {
        let operator = self.source(span);
        let bytes = operator.as_str().as_bytes();
        proof {
            if bytes@.len() == 1 && bytes@[0] == 45 {
                assert(bytes@ =~= seq![45u8]);
            }
        }
        if bytes.len() == 1 && bytes[0] == 45 {
            UnaryOp::Negate
        } else if bytes.len() == 3 && bytes[0] == 110 && bytes[1] == 111 && bytes[2] == 116 {
            UnaryOp::Not
        } else {
            let mut message = String::from_str("unsupported unary operator `");
            message.append(operator.as_str());
            message.append("`");
            self.report("unsupported-unary-operator", message, span);
            UnaryOp::Not
        }
    }

    /// Lower a binary operator from its spelling.
    fn lower_binary_op(&mut self, span: Span) -> (r: BinaryOp)
        ensures
            final(self).input == old(self).input,
            arena_extends(old(self).arena, final(self).arena),
            final(self).arena == old(self).arena,
            r == binary_op_or_add(span_text(source_bytes(old(self).input), span)),
    {
        let operator = self.source(span);
        match binary_op(operator.as_str().as_bytes()) {
            Some(value) => value,
            None => {
                let mut message = String::from_str("unsupported binary operator `");
                message.append(operator.as_str());
                message.append("`");
                self.report("unsupported-binary-operator", message, span);
                BinaryOp::Add
            },
        }
    }

    /// Lower a match-condition operator from its spelling.
    fn lower_condition_op(&mut self, span: Span) -> (r: ConditionOp)
        ensures
            final(self).input == old(self).input,
            arena_extends(old(self).arena, final(self).arena),
            final(self).arena == old(self).arena,
            r == condition_op_or_equals(span_text(source_bytes(old(self).input), span)),
    {
        let operator = self.source(span);
        match condition_op(operator.as_str().as_bytes()) {
            Some(value) => value,
            None => {
                let mut message = String::from_str("unsupported match condition operator `");
                message.append(operator.as_str());
                message.append("`");
                self.report("unsupported-condition-operator", message, span);
                ConditionOp::Equals
            },
        }
    }

    /// The value of an integer literal; an invalid one is reported as 0.
    fn parse_integer(&mut self, span: Span) -> (r: i128)
        ensures
            final(self).input == old(self).input,
            arena_extends(old(self).arena, final(self).arena),
            final(self).arena == old(self).arena,
            r == integer_value(span_text(source_bytes(old(self).input), span)),
    {
        let source = self.source(span);
        match parse_i128(source.as_str()) {
            Some(value) => value,
            None => {
                let mut message = String::from_str("invalid integer literal `");
                message.append(source.as_str());
                message.append("`");
                self.report("invalid-integer-literal", message, span);
                0
            },
        }
    }

    /// The text of a string literal without its backticks.
    fn parse_string(&mut self, span: Span) -> (r: String)
        ensures
            final(self).input == old(self).input,
            arena_extends(old(self).arena, final(self).arena),
            final(self).arena == old(self).arena,
            encode_utf8(r@) == string_text(span_text(source_bytes(old(self).input), span)),
    {
        let source = self.source(span);
        let text = source.as_str();
        let bytes = text.as_bytes();
        let n = bytes.len();
        if n >= 2 && bytes[0] == 96 && bytes[n - 1] == 96 {
            proof {
                encode_utf8_valid_utf8(source@);
                lemma_first(bytes@);
                let rest = bytes@.subrange(1, n as int);
                if n > 2 {
                    lemma_first(rest);
                    assert(rest[0] == bytes@[1]);
                }
            }
            match str_get(text, 1, n - 1) {
                Some(inner) => {
                    return inner.to_owned();
                },
                None => {},
            }
        }
        source
    }

    /// Lower a match expression into the match, arm and condition arenas.
    fn lower_match(
        &mut self,
        span: Span,
        scrutinee: NodeId,
        arm_ids: &Vec<NodeId>,
        Ghost(bound): Ghost<int>,
    ) -> (r: MatchId)
        requires
            old(self).input_ok(),
            scrutinee.0 < bound,
            ids_below(arm_ids@, bound),
        ensures
            final(self).input == old(self).input,
            arena_extends(old(self).arena, final(self).arena),
            final(self).arena.matches@.len() > old(self).arena.matches@.len(),
            final(self).arena.matches@.last().span == span,
            final(self).arena.matches@.last().arms@.len() == arm_ids@.len(),
            final(self).arena.exprs@.len() <= u32::MAX + 1 ==> tree_lowered(
                source_bytes(old(self).input),
                old(self).input.nodes@,
                final(self).arena.exprs@,
                scrutinee,
                final(self).arena.matches@.last().scrutinee.0 as int,
            ),
            final(self).arena.match_arms@.len() <= u32::MAX + 1 ==> forall|k: int|
                0 <= k < arm_ids@.len() ==> (#[trigger] final(self).arena.matches@.last().arms@[k]).0
                    < final(self).arena.match_arms@.len() && arm_lowered(
                    old(self).input.nodes@,
                    arm_ids@[k],
                    final(self).arena.match_arms@[final(self).arena.matches@.last().arms@[k].0 as int],
                ),
            final(self).arena.matches@.len() <= u32::MAX + 1 ==> r.0
                == final(self).arena.matches@.len() - 1,
        decreases bound, 1nat,
    {
        let scrutinee_node = scrutinee;
        let scrutinee = self.lower_expr(scrutinee);
        let ghost s1 = self.arena.exprs@;
        let mut arms: Vec<MatchArmId> = Vec::new();
        let mut i: usize = 0;
        while i < arm_ids.len()
            invariant
                i <= arm_ids@.len(),
                arms@.len() == i,
                self.input_ok(),
                self.input == old(self).input,
                arena_extends(old(self).arena, self.arena),
                ids_below(arm_ids@, bound),
                extends(s1, self.arena.exprs@),
                self.arena.match_arms@.len() <= u32::MAX + 1 ==> forall|k: int|
                    0 <= k < i ==> (#[trigger] arms@[k]).0 < self.arena.match_arms@.len()
                        && arm_lowered(
                        self.input.nodes@,
                        arm_ids@[k],
                        self.arena.match_arms@[arms@[k].0 as int],
                    ),
            decreases arm_ids.len() - i,
        {
            let arm = self.lower_match_arm(arm_ids[i]);
            arms.push(arm);
            i = i + 1;
        }
        proof {
            if self.arena.exprs@.len() <= u32::MAX + 1 {
                lemma_tree_extends(
                    source_bytes(self.input),
                    self.input.nodes@,
                    s1,
                    self.arena.exprs@,
                    scrutinee_node,
                    scrutinee.0 as int,
                );
            }
        }
        self.arena.alloc_match(Match { span, scrutinee, arms })
    }

    /// Lower one arm: a pattern and a body, without a condition for the default.
    fn lower_match_arm(&mut self, id: NodeId) -> (r: MatchArmId)
        requires
            old(self).input_ok(),
        ensures
            final(self).input == old(self).input,
            arena_extends(old(self).arena, final(self).arena),
            final(self).arena.match_arms@.len() > old(self).arena.match_arms@.len(),
            arm_lowered(old(self).input.nodes@, id, final(self).arena.match_arms@.last()),
            final(self).arena.match_arms@.len() <= u32::MAX + 1 ==> r.0
                == final(self).arena.match_arms@.len() - 1,
            final(self).arena.bodies@.len() <= u32::MAX + 1 ==> {
                let b = final(self).arena.match_arms@.last().body;
                b.0 < final(self).arena.bodies@.len() && body_lowered(
                    old(self).input.nodes@,
                    arm_body_node(old(self).input.nodes@, id),
                    final(self).arena.bodies@[b.0 as int],
                )
            },
            final(self).arena.conditions@.len() <= u32::MAX + 1 ==> (
            final(self).arena.match_arms@.last().condition matches Some(c) ==> c.0
                < final(self).arena.conditions@.len() && condition_lowered(
                source_bytes(old(self).input),
                old(self).input.nodes@,
                old(self).input.nodes@[id.0 as int].kind->MatchArm_pattern->0,
                final(self).arena.conditions@[c.0 as int],
            )),
        decreases id.0, 3nat,
    {
        let node = match self.node(id) {
            Some(node) => node,
            None => {
                let body = self.lower_body(id);
                return self.arena.alloc_match_arm(
                    MatchArm { span: Span::dummy(), condition: None, body },
                );
            },
        };
        proof {
            assert(refers_back_at(self.input.nodes@, id.0 as int));
        }
        let span = node.span;
        match &node.kind {
            NodeKind::MatchArm { pattern, body } => {
                let condition = match pattern {
                    Some(pattern) => Some(self.lower_pattern(*pattern)),
                    None => None,
                };
                let body = self.lower_body(*body);
                self.arena.alloc_match_arm(MatchArm { span, condition, body })
            },
            _ => {
                self.report(
                    "invalid-match-arm",
                    String::from_str("expected a MatchArm CST node"),
                    span,
                );
                let body = self.lower_body(id);
                self.arena.alloc_match_arm(MatchArm { span, condition: None, body })
            },
        }
    }

    /// Lower a pattern into an equality or predicate condition.
    fn lower_pattern(&mut self, id: NodeId) -> (r: ConditionId)
        requires
            old(self).input_ok(),
        ensures
            final(self).input == old(self).input,
            arena_extends(old(self).arena, final(self).arena),
            final(self).arena.conditions@.len() > old(self).arena.conditions@.len(),
            condition_lowered(
                source_bytes(old(self).input),
                old(self).input.nodes@,
                id,
                final(self).arena.conditions@.last(),
            ),
            final(self).arena.conditions@.len() <= u32::MAX + 1 ==> r.0
                == final(self).arena.conditions@.len() - 1,
            final(self).arena.exprs@.len() <= u32::MAX + 1 ==> tree_lowered(
                source_bytes(old(self).input),
                old(self).input.nodes@,
                final(self).arena.exprs@,
                pattern_operand(old(self).input.nodes@, id),
                condition_operand(final(self).arena.conditions@.last().kind).0 as int,
            ),
        decreases id.0, 3nat,
    {
        let node = match self.node(id) {
            Some(node) => node,
            None => {
                let error = self.error_expr(Span::dummy());
                return self.arena.alloc_condition(
                    Condition { span: Span::dummy(), kind: ConditionKind::Equals(error) },
                );
            },
        };
        proof {
            assert(refers_back_at(self.input.nodes@, id.0 as int));
        }
        let span = node.span;
        let kind = match &node.kind {
            NodeKind::PatternCondition { op, rhs } => {
                let op = self.lower_condition_op(*op);
                let rhs = self.lower_expr(*rhs);
                ConditionKind::Predicate { op, rhs }
            },
            _ => ConditionKind::Equals(self.lower_expr(id)),
        };
        self.arena.alloc_condition(Condition { span, kind })
    }

    /// Lower a block into a body.
    fn lower_body(&mut self, id: NodeId) -> (r: BodyId)
        requires
            old(self).input_ok(),
        ensures
            final(self).input == old(self).input,
            arena_extends(old(self).arena, final(self).arena),
            final(self).arena.bodies@.len() > old(self).arena.bodies@.len(),
            body_lowered(old(self).input.nodes@, id, final(self).arena.bodies@.last()),
            final(self).arena.bodies@.len() <= u32::MAX + 1 ==> r.0
                == final(self).arena.bodies@.len() - 1,
        decreases id.0, 2nat,
    {
        let node = match self.node(id) {
            Some(node) => node,
            None => {
                return self.arena.alloc_body(Body { span: Span::dummy(), statements: Vec::new() });
            },
        };
        proof {
            assert(refers_back_at(self.input.nodes@, id.0 as int));
        }
        let span = node.span;
        match &node.kind {
            NodeKind::Block { statements } => {
                let mut lowered: Vec<Stmt> = Vec::new();
                let mut i: usize = 0;
                while i < statements.len()
                    invariant
                        i <= statements@.len(),
                        lowered@.len() == i,
                        self.input_ok(),
                        self.input == old(self).input,
                        arena_extends(old(self).arena, self.arena),
                        ids_below(statements@, id.0 as int),
                        forall|k: int|
                            0 <= k < i ==> stmt_lowered(
                                self.input.nodes@,
                                statements@[k],
                                #[trigger] lowered@[k],
                            ),
                    decreases statements.len() - i,
                {
                    let statement = self.lower_statement(statements[i]);
                    lowered.push(statement);
                    i = i + 1;
                }
                self.arena.alloc_body(Body { span, statements: lowered })
            },
            _ => {
                self.report(
                    "invalid-body",
                    String::from_str("expected a Block CST node for a body"),
                    span,
                );
                let error = self.error_node(span);
                self.arena.alloc_body(Body { span, statements: vec![Stmt::Error(error)] })
            },
        }
    }

    /// Lower a block statement: an expression, an assignment or a nested item.
    fn lower_statement(&mut self, id: NodeId) -> (r: Stmt)
        requires
            old(self).input_ok(),
        ensures
            final(self).input == old(self).input,
            arena_extends(old(self).arena, final(self).arena),
            stmt_lowered(old(self).input.nodes@, id, r),
            stmt_trees(
                source_bytes(old(self).input),
                old(self).input.nodes@,
                final(self).arena.exprs@,
                id,
                r,
            ),
        decreases id.0, 5nat,
    {
        let node = match self.node(id) {
            Some(node) => node,
            None => {
                return Stmt::Error(self.error_node(Span::dummy()));
            },
        };
        proof {
            assert(refers_back_at(self.input.nodes@, id.0 as int));
        }
        let span = node.span;
        match &node.kind {
            NodeKind::ExprStmt { expr } => Stmt::Expr { span, expr: self.lower_expr(*expr) },
            NodeKind::AssignStmt { annotations, target, type_annotation, value } => {
                let annotations = self.lower_annotations(annotations, Ghost(id.0 as int));
                let lowered_target = self.lower_expr(*target);
                let ghost s1 = self.arena.exprs@;
                let type_annotation = match type_annotation {
                    Some(type_id) => Some(self.lower_type(*type_id)),
                    None => None,
                };
                let lowered_value = self.lower_expr(*value);
                proof {
                    if self.arena.exprs@.len() <= u32::MAX + 1 {
                        lemma_tree_extends(
                            source_bytes(self.input),
                            self.input.nodes@,
                            s1,
                            self.arena.exprs@,
                            *target,
                            lowered_target.0 as int,
                        );
                    }
                }
                Stmt::Assign {
                    span,
                    annotations,
                    target: lowered_target,
                    type_annotation,
                    value: lowered_value,
                }
            },
            NodeKind::StructDef { .. } | NodeKind::EnumDef { .. } | NodeKind::FunctionDef {
                ..
            } => Stmt::Item(self.lower_item(id)),
            other => {
                let message = concat(
                    concat("cannot lower ", node_kind_name(other)).as_str(),
                    " inside a body",
                );
                self.report("unsupported-body-statement", message, span);
                Stmt::Error(self.error_node(span))
            },
        }
    }

    /// Lower one module-level node into an item, or an error node.
    fn lower_item(&mut self, id: NodeId) -> (r: HirId)
        requires
            old(self).input_ok(),
        ensures
            final(self).input == old(self).input,
            arena_extends(old(self).arena, final(self).arena),
            final(self).arena.nodes@.len() > old(self).arena.nodes@.len(),
            item_lowered(old(self).input.nodes@, id, final(self).arena.nodes@.last()),
            final(self).arena.nodes@.len() <= u32::MAX + 1 ==> r.0 == final(self).arena.nodes@.len()
                - 1,
            item_links(
                source_bytes(old(self).input),
                old(self).input.nodes@,
                final(self).arena,
                id,
                final(self).arena.nodes@.last(),
            ),
        decreases id.0, 4nat,
    {
        let node = match self.node(id) {
            Some(node) => node,
            None => {
                return self.error_node(Span::dummy());
            },
        };
        proof {
            assert(refers_back_at(self.input.nodes@, id.0 as int));
        }
        let span = node.span;
        match &node.kind {
            NodeKind::AssignStmt { annotations, target, type_annotation, value } => {
                let lowered_annotations = self.lower_annotations(annotations, Ghost(id.0 as int));
                let name = self.lower_name(*target, "constant name");
                let type_annotation = match type_annotation {
                    Some(type_id) => Some(self.lower_type(*type_id)),
                    None => None,
                };
                let value = self.lower_expr(*value);
                self.arena.alloc_node(
                    HirNode::Item(
                        Item {
                            span,
                            annotations: lowered_annotations,
                            kind: ItemKind::Const(ConstDef { name, type_annotation, value }),
                        },
                    ),
                )
            },
            NodeKind::StructDef { annotations, name, fields } => {
                let lowered_annotations = self.lower_annotations(annotations, Ghost(id.0 as int));
                let mut lowered: Vec<HirId> = Vec::new();
                let mut i: usize = 0;
                while i < fields.len()
                    invariant
                        i <= fields@.len(),
                        lowered@.len() == i,
                        links(
                            self.arena.nodes@,
                            lowered_annotations@,
                            annotations@,
                            |c: NodeId, h: HirNode| annotation_lowered(self.input.nodes@, c, h),
                        ),
                        links(
                            self.arena.nodes@,
                            lowered@,
                            fields@,
                            |c: NodeId, h: HirNode| field_lowered(self.input.nodes@, c, h),
                        ),
                        self.input_ok(),
                        self.input == old(self).input,
                        arena_extends(old(self).arena, self.arena),
                        ids_below(fields@, id.0 as int),
                    decreases fields.len() - i,
                {
                    let field = self.lower_field(fields[i]);
                    lowered.push(field);
                    i = i + 1;
                }
                self.arena.alloc_node(
                    HirNode::Item(
                        Item {
                            span,
                            annotations: lowered_annotations,
                            kind: ItemKind::Struct(
                                StructDef { name: Name { span: *name }, fields: lowered },
                            ),
                        },
                    ),
                )
            },
            NodeKind::EnumDef { annotations, name, variants } => {
                let lowered_annotations = self.lower_annotations(annotations, Ghost(id.0 as int));
                let mut lowered: Vec<HirId> = Vec::new();
                let mut i: usize = 0;
                while i < variants.len()
                    invariant
                        i <= variants@.len(),
                        lowered@.len() == i,
                        links(
                            self.arena.nodes@,
                            lowered_annotations@,
                            annotations@,
                            |c: NodeId, h: HirNode| annotation_lowered(self.input.nodes@, c, h),
                        ),
                        links(
                            self.arena.nodes@,
                            lowered@,
                            variants@,
                            |c: NodeId, h: HirNode| variant_lowered(self.input.nodes@, c, h),
                        ),
                        self.input_ok(),
                        self.input == old(self).input,
                        arena_extends(old(self).arena, self.arena),
                    decreases variants.len() - i,
                {
                    let variant = self.lower_variant(variants[i]);
                    lowered.push(variant);
                    i = i + 1;
                }
                self.arena.alloc_node(
                    HirNode::Item(
                        Item {
                            span,
                            annotations: lowered_annotations,
                            kind: ItemKind::Enum(
                                EnumDef { name: Name { span: *name }, variants: lowered },
                            ),
                        },
                    ),
                )
            },
            NodeKind::FunctionDef { annotations, name, params, return_type, body } => {
                let lowered_annotations = self.lower_annotations(annotations, Ghost(id.0 as int));
                let mut lowered: Vec<HirId> = Vec::new();
                let mut i: usize = 0;
                while i < params.len()
                    invariant
                        i <= params@.len(),
                        lowered@.len() == i,
                        links(
                            self.arena.nodes@,
                            lowered_annotations@,
                            annotations@,
                            |c: NodeId, h: HirNode| annotation_lowered(self.input.nodes@, c, h),
                        ),
                        links(
                            self.arena.nodes@,
                            lowered@,
                            params@,
                            |c: NodeId, h: HirNode| param_lowered(self.input.nodes@, c, h),
                        ),
                        self.input_ok(),
                        self.input == old(self).input,
                        arena_extends(old(self).arena, self.arena),
                    decreases params.len() - i,
                {
                    let param = self.lower_param(params[i]);
                    lowered.push(param);
                    i = i + 1;
                }
                let return_type = match return_type {
                    Some(type_id) => Some(self.lower_type(*type_id)),
                    None => None,
                };
                let body = self.lower_body(*body);
                self.arena.alloc_node(
                    HirNode::Item(
                        Item {
                            span,
                            annotations: lowered_annotations,
                            kind: ItemKind::Function(
                                FunctionDef {
                                    name: Name { span: *name },
                                    params: lowered,
                                    return_type,
                                    body,
                                },
                            ),
                        },
                    ),
                )
            },
            NodeKind::ExprStmt { .. } | NodeKind::ImportDecl | NodeKind::ExportDecl
            | NodeKind::Module | NodeKind::Block { .. } => {
                let message = concat(
                    concat("cannot lower ", node_kind_name(&node.kind)).as_str(),
                    " as a module item",
                );
                self.report("unsupported-module-item", message, span);
                self.error_node(span)
            },
            other => {
                let message = concat(
                    concat("unexpected CST node ", node_kind_name(other)).as_str(),
                    " at module level",
                );
                self.report("invalid-module-item", message, span);
                self.error_node(span)
            },
        }
    }

    /// Lower one struct field, making its shape explicit.
    fn lower_field(&mut self, id: NodeId) -> (r: HirId)
        requires
            old(self).input_ok(),
        ensures
            final(self).input == old(self).input,
            arena_extends(old(self).arena, final(self).arena),
            final(self).arena.nodes@.len() > old(self).arena.nodes@.len(),
            field_lowered(old(self).input.nodes@, id, final(self).arena.nodes@.last()),
            final(self).arena.nodes@.len() <= u32::MAX + 1 ==> r.0 == final(self).arena.nodes@.len()
                - 1,
            field_default_lowered(
                source_bytes(old(self).input),
                old(self).input.nodes@,
                final(self).arena.exprs@,
                id,
                final(self).arena.nodes@.last(),
            ),
        decreases id.0, 3nat,
    {
        let node = match self.node(id) {
            Some(node) => node,
            None => {
                return self.error_node(Span::dummy());
            },
        };
        proof {
            assert(refers_back_at(self.input.nodes@, id.0 as int));
        }
        let span = node.span;
        match &node.kind {
            NodeKind::FieldDef { annotations, name, type_annotation, default_value } => {
                let annotations = self.lower_annotations(annotations, Ghost(id.0 as int));
                let shape = match (type_annotation, default_value) {
                    (None, Some(default)) => FieldShape::Inferred {
                        default: self.lower_expr(*default),
                    },
                    (Some(type_id), Some(default)) => {
                        let type_ref = self.lower_type(*type_id);
                        let default = self.lower_expr(*default);
                        FieldShape::Typed { type_ref, default }
                    },
                    (Some(type_id), None) => FieldShape::Required {
                        type_ref: self.lower_type(*type_id),
                    },
                    (None, None) => {
                        self.report(
                            "invalid-struct-field",
                            String::from_str("struct field has neither a type nor a default value"),
                            span,
                        );
                        return self.error_node(span);
                    },
                };
                self.arena.alloc_node(
                    HirNode::Field(Field { span, annotations, name: Name { span: *name }, shape }),
                )
            },
            _ => {
                self.report(
                    "invalid-struct-field",
                    String::from_str("expected a FieldDef CST node"),
                    span,
                );
                self.error_node(span)
            },
        }
    }

    /// Lower a function parameter.
    fn lower_param(&mut self, id: NodeId) -> (r: HirId)
        ensures
            final(self).input == old(self).input,
            arena_extends(old(self).arena, final(self).arena),
            final(self).arena.nodes@.len() > old(self).arena.nodes@.len(),
            param_lowered(old(self).input.nodes@, id, final(self).arena.nodes@.last()),
            final(self).arena.nodes@.len() <= u32::MAX + 1 ==> r.0 == final(self).arena.nodes@.len()
                - 1,
    {
        let node = match self.node(id) {
            Some(node) => node,
            None => {
                return self.error_node(Span::dummy());
            },
        };
        let span = node.span;
        match &node.kind {
            NodeKind::Param { name, type_annotation } => {
                let type_ref = self.lower_type(*type_annotation);
                self.arena.alloc_node(HirNode::Param(Param { span, name: Name { span: *name }, type_ref }))
            },
            _ => {
                self.report(
                    "invalid-function-parameter",
                    String::from_str("expected a Param CST node"),
                    span,
                );
                self.error_node(span)
            },
        }
    }

    /// Lower a simple enum variant.
    fn lower_variant(&mut self, id: NodeId) -> (r: HirId)
        ensures
            final(self).input == old(self).input,
            arena_extends(old(self).arena, final(self).arena),
            final(self).arena.nodes@.len() > old(self).arena.nodes@.len(),
            variant_lowered(old(self).input.nodes@, id, final(self).arena.nodes@.last()),
            final(self).arena.nodes@.len() <= u32::MAX + 1 ==> r.0 == final(self).arena.nodes@.len()
                - 1,
    {
        let node = match self.node(id) {
            Some(node) => node,
            None => {
                return self.error_node(Span::dummy());
            },
        };
        let span = node.span;
        match &node.kind {
            NodeKind::Ident(name) => self.arena.alloc_node(
                HirNode::EnumVariant(EnumVariant { span, name: Name { span: *name } }),
            ),
            _ => {
                self.report(
                    "invalid-enum-variant",
                    String::from_str("expected an identifier enum variant"),
                    span,
                );
                self.error_node(span)
            },
        }
    }

    /// Lower a type name; a type that is not a name is reported.
    fn lower_type(&mut self, id: NodeId) -> (r: TypeRef)
        ensures
            final(self).input == old(self).input,
            arena_extends(old(self).arena, final(self).arena),
            r == (TypeRef { name: Name { span: node_span(old(self).input.nodes@, id) } }),
    {
        let node = match self.node(id) {
            Some(node) => node,
            None => {
                return TypeRef { name: Name { span: Span::dummy() } };
            },
        };
        let span = node.span;
        match &node.kind {
            NodeKind::Ident(_) => {},
            _ => {
                self.report(
                    "invalid-type-reference",
                    String::from_str("type annotation must be an identifier"),
                    span,
                );
            },
        }
        TypeRef { name: Name { span } }
    }

    /// Lower annotations in source order; their ids are below `bound`.
    fn lower_annotations(&mut self, ids: &Vec<NodeId>, Ghost(bound): Ghost<int>) -> (r: Vec<HirId>)
        requires
            old(self).input_ok(),
            ids_below(ids@, bound),
            bound >= 0,
        ensures
            final(self).input == old(self).input,
            arena_extends(old(self).arena, final(self).arena),
            r@.len() == ids@.len(),
            links(
                final(self).arena.nodes@,
                r@,
                ids@,
                |c: NodeId, h: HirNode| annotation_lowered(old(self).input.nodes@, c, h),
            ),
        decreases bound, 2nat,
    {
        let mut lowered: Vec<HirId> = Vec::new();
        let mut i: usize = 0;
        while i < ids.len()
            invariant
                self.input_ok(),
                self.input == old(self).input,
                arena_extends(old(self).arena, self.arena),
                ids_below(ids@, bound),
                i <= ids@.len(),
                lowered@.len() == i,
                links(
                    self.arena.nodes@,
                    lowered@,
                    ids@,
                    |c: NodeId, h: HirNode| annotation_lowered(self.input.nodes@, c, h),
                ),
            decreases ids.len() - i,
        {
            let annotation = self.lower_annotation(ids[i]);
            lowered.push(annotation);
            i = i + 1;
        }
        lowered
    }

    /// Lower one annotation and its arguments.
    fn lower_annotation(&mut self, id: NodeId) -> (r: HirId)
        requires
            old(self).input_ok(),
        ensures
            final(self).input == old(self).input,
            arena_extends(old(self).arena, final(self).arena),
            final(self).arena.nodes@.len() > old(self).arena.nodes@.len(),
            annotation_lowered(old(self).input.nodes@, id, final(self).arena.nodes@.last()),
            final(self).arena.nodes@.len() <= u32::MAX + 1 ==> r.0 == final(self).arena.nodes@.len()
                - 1,
        decreases id.0, 3nat,
    {
        let node = match self.node(id) {
            Some(node) => node,
            None => {
                return self.error_node(Span::dummy());
            },
        };
        proof {
            assert(refers_back_at(self.input.nodes@, id.0 as int));
        }
        let span = node.span;
        match &node.kind {
            NodeKind::Annotation { name, arguments } => {
                let mut lowered: Vec<AnnotationArg> = Vec::new();
                let mut i: usize = 0;
                while i < arguments.len()
                    invariant
                        i <= arguments@.len(),
                        lowered@.len() == i,
                        self.input_ok(),
                        self.input == old(self).input,
                        arena_extends(old(self).arena, self.arena),
                        ids_below(arguments@, id.0 as int),
                    decreases arguments.len() - i,
                {
                    let argument = self.lower_annotation_arg(arguments[i]);
                    lowered.push(argument);
                    i = i + 1;
                }
                self.arena.alloc_node(
                    HirNode::Annotation(
                        Annotation { span, name: Name { span: *name }, arguments: lowered },
                    ),
                )
            },
            _ => {
                self.report(
                    "invalid-annotation",
                    String::from_str("expected an Annotation CST node"),
                    span,
                );
                self.error_node(span)
            },
        }
    }

    /// Lower one positional or named annotation argument.
    fn lower_annotation_arg(&mut self, id: NodeId) -> (r: AnnotationArg)
        requires
            old(self).input_ok(),
        ensures
            final(self).input == old(self).input,
            arena_extends(old(self).arena, final(self).arena),
            annotation_arg_lowered(old(self).input.nodes@, id, r),
            final(self).arena.exprs@.len() <= u32::MAX + 1 && (id.0 as int) < old(
                self,
            ).input.nodes@.len() && old(self).input.nodes@[id.0 as int].kind is AnnotationArg
                ==> tree_lowered(
                source_bytes(old(self).input),
                old(self).input.nodes@,
                final(self).arena.exprs@,
                old(self).input.nodes@[id.0 as int].kind->AnnotationArg_value,
                r.value.0 as int,
            ),
            final(self).arena.exprs@.len() > old(self).arena.exprs@.len(),
            final(self).arena.exprs@.len() <= u32::MAX + 1 ==> r.value.0 == final(self).arena.exprs@.len()
                - 1,
        decreases id.0, 3nat,
    {
        let node = match self.node(id) {
            Some(node) => node,
            None => {
                let value = self.error_expr(Span::dummy());
                return AnnotationArg { span: Span::dummy(), name: None, value };
            },
        };
        proof {
            assert(refers_back_at(self.input.nodes@, id.0 as int));
        }
        let span = node.span;
        match &node.kind {
            NodeKind::AnnotationArg { name, value } => {
                let name = match name {
                    Some(n) => Some(Name { span: *n }),
                    None => None,
                };
                let value = self.lower_expr(*value);
                AnnotationArg { span, name, value }
            },
            _ => {
                self.report(
                    "invalid-annotation-argument",
                    String::from_str("expected an AnnotationArg CST node"),
                    span,
                );
                let value = self.error_expr(span);
                AnnotationArg { span, name: None, value }
            },
        }
    }

    /// Lower a name; a target that is not a name is reported.
    fn lower_name(&mut self, id: NodeId, role: &str) -> (r: Name)
        ensures
            final(self).input == old(self).input,
            arena_extends(old(self).arena, final(self).arena),
            r == (Name { span: node_span(old(self).input.nodes@, id) }),
    {
        let node = match self.node(id) {
            Some(node) => node,
            None => {
                return Name { span: Span::dummy() };
            },
        };
        let span = node.span;
        match &node.kind {
            NodeKind::Ident(_) => {},
            _ => {
                let message = concat(role, " must be an identifier");
                self.report("invalid-name", message, span);
            },
        }
        Name { span }
    }
}

/// Lower a quantifier kind.
fn lower_quantifier_kind(kind: CstQuantifierKind) -> (r: QuantifierKind)
    ensures
        r == spec_quantifier_kind(kind),
{
    match kind {
        CstQuantifierKind::All => QuantifierKind::All,
        CstQuantifierKind::Any => QuantifierKind::Any,
        CstQuantifierKind::One => QuantifierKind::One,
        CstQuantifierKind::NoneOf => QuantifierKind::NoneOf,
    }
}

/// Node `id` exists and is an expression statement.
pub open spec fn is_expr_stmt(nodes: Seq<CstNode>, id: NodeId) -> bool {
    (id.0 as int) < nodes.len() && nodes[id.0 as int].kind is ExprStmt
}

/// The expression statements among `ids`, in order.
pub open spec fn expr_stmts(nodes: Seq<CstNode>, ids: Seq<NodeId>) -> Seq<NodeId>
    decreases ids.len(),
{
    if ids.len() == 0 {
        seq![]
    } else if is_expr_stmt(nodes, ids.last()) {
        expr_stmts(nodes, ids.drop_last()).push(ids.last())
    } else {
        expr_stmts(nodes, ids.drop_last())
    }
}

/// The ids among `ids` that are not expression statements, in order.
pub open spec fn item_nodes(nodes: Seq<CstNode>, ids: Seq<NodeId>) -> Seq<NodeId>
    decreases ids.len(),
{
    if ids.len() == 0 {
        seq![]
    } else if is_expr_stmt(nodes, ids.last()) {
        item_nodes(nodes, ids.drop_last())
    } else {
        item_nodes(nodes, ids.drop_last()).push(ids.last())
    }
}

/// Module statement `st` is what expression statement node `id` lowers to:
/// it keeps the node's span, and its expression is the lowering of the
/// node's expression, where arena ids are exact.
pub open spec fn module_stmt_lowered(
    source: Seq<u8>,
    nodes: Seq<CstNode>,
    exprs: Seq<Expr>,
    id: NodeId,
    st: Stmt,
) -> bool {
    &&& st matches Stmt::Expr { span, expr }
    &&& span == nodes[id.0 as int].span
    &&& exprs.len() <= u32::MAX + 1 ==> tree_lowered(
        source,
        nodes,
        exprs,
        nodes[id.0 as int].kind->ExprStmt_expr,
        st->Expr_expr.0 as int,
    )
}

/// Lowered module statements stay lowered when the expression arena grows.
pub proof fn lemma_module_stmts_extend(
    source: Seq<u8>,
    nodes: Seq<CstNode>,
    a: Seq<Expr>,
    b: Seq<Expr>,
    ids: Seq<NodeId>,
    stmts: Seq<Stmt>,
)
    requires
        extends(a, b),
        stmts.len() == ids.len(),
        forall|k: int|
            0 <= k < ids.len() ==> module_stmt_lowered(source, nodes, a, ids[k], #[trigger] stmts[k]),
    ensures
        forall|k: int|
            0 <= k < ids.len() ==> module_stmt_lowered(source, nodes, b, ids[k], #[trigger] stmts[k]),
{
    assert forall|k: int| 0 <= k < ids.len() implies module_stmt_lowered(
        source,
        nodes,
        b,
        ids[k],
        #[trigger] stmts[k],
    ) by {
        assert(module_stmt_lowered(source, nodes, a, ids[k], stmts[k]));
        if b.len() <= u32::MAX + 1 {
            lemma_tree_extends(
                source,
                nodes,
                a,
                b,
                nodes[ids[k].0 as int].kind->ExprStmt_expr,
                stmts[k]->Expr_expr.0 as int,
            );
        }
    }
}

/// An item's links stay in place when the arena grows.
pub proof fn lemma_item_links_extend(
    source: Seq<u8>,
    nodes: Seq<CstNode>,
    a: HirArena,
    b: HirArena,
    id: NodeId,
    n: HirNode,
)
    requires
        item_links(source, nodes, a, id, n),
        arena_extends(a, b),
    ensures
        item_links(source, nodes, b, id, n),
{
    if (id.0 as int) < nodes.len() && n is Item {
        let item = n->Item_0;
        match nodes[id.0 as int].kind {
            NodeKind::AssignStmt { value, .. } => {
                if b.exprs@.len() <= u32::MAX + 1 && item.kind is Const {
                    lemma_tree_extends(
                        source,
                        nodes,
                        a.exprs@,
                        b.exprs@,
                        value,
                        item.kind->Const_0.value.0 as int,
                    );
                }
            },
            _ => {},
        }
    }
}

/// Lowered module items stay lowered when the arena grows.
pub proof fn lemma_items_extend(
    source: Seq<u8>,
    nodes: Seq<CstNode>,
    a: HirArena,
    b: HirArena,
    ids: Seq<NodeId>,
    items: Seq<HirId>,
)
    requires
        arena_extends(a, b),
        items.len() == ids.len(),
        a.nodes@.len() <= u32::MAX + 1 ==> forall|k: int|
            0 <= k < ids.len() ==> (#[trigger] items[k]).0 < a.nodes@.len() && item_lowered(
                nodes,
                ids[k],
                a.nodes@[items[k].0 as int],
            ) && item_links(source, nodes, a, ids[k], a.nodes@[items[k].0 as int]),
    ensures
        b.nodes@.len() <= u32::MAX + 1 ==> forall|k: int|
            0 <= k < ids.len() ==> (#[trigger] items[k]).0 < b.nodes@.len() && item_lowered(
                nodes,
                ids[k],
                b.nodes@[items[k].0 as int],
            ) && item_links(source, nodes, b, ids[k], b.nodes@[items[k].0 as int]),
{
    if b.nodes@.len() <= u32::MAX + 1 {
        assert forall|k: int| 0 <= k < ids.len() implies (#[trigger] items[k]).0 < b.nodes@.len()
            && item_lowered(nodes, ids[k], b.nodes@[items[k].0 as int]) && item_links(
            source,
            nodes,
            b,
            ids[k],
            b.nodes@[items[k].0 as int],
        ) by {
            assert(b.nodes@[items[k].0 as int] == a.nodes@[items[k].0 as int]);
            lemma_item_links_extend(source, nodes, a, b, ids[k], a.nodes@[items[k].0 as int]);
        }
    }
}

/// The root of `input` exists and is a module.
pub open spec fn root_is_module(input: &CstFile) -> bool {
    (input.root.0 as int) < input.nodes@.len() && input.nodes@[input.root.0 as int].kind is Module
}

/// Lower a syntax snapshot into an indexed HIR file: module-level
/// expression statements form the module body, in source order; every
/// other module-level node becomes an item. Problems are reported as
/// diagnostics rather than failures.
pub fn lower_file(input: &CstFile) -> (r: HirFile)
    requires
        refers_back(input.nodes@),
    ensures
        r.file_id == input.file_id,
        r.arena.bodies@.len() > 0,
        r.arena.bodies@.len() <= u32::MAX + 1 ==> r.module_body.0 == r.arena.bodies@.len() - 1,
        r.arena.bodies@.last().span == node_span(input.nodes@, input.root),
        root_is_module(input) ==> {
            let children = input.nodes@[input.root.0 as int].children@;
            let body = r.arena.bodies@.last();
            let stmts = expr_stmts(input.nodes@, children);
            let others = item_nodes(input.nodes@, children);
            &&& body.statements@.len() == stmts.len()
            &&& r.items@.len() == others.len()
            &&& forall|k: int|
                0 <= k < stmts.len() ==> module_stmt_lowered(
                    source_bytes(input),
                    input.nodes@,
                    r.arena.exprs@,
                    stmts[k],
                    #[trigger] body.statements@[k],
                )
            &&& r.arena.nodes@.len() <= u32::MAX + 1 ==> forall|k: int|
                0 <= k < others.len() ==> (#[trigger] r.items@[k]).0 < r.arena.nodes@.len()
                    && item_lowered(input.nodes@, others[k], r.arena.nodes@[r.items@[k].0 as int])
                    && item_links(
                    source_bytes(input),
                    input.nodes@,
                    r.arena,
                    others[k],
                    r.arena.nodes@[r.items@[k].0 as int],
                )
        },
        !root_is_module(input) ==> r.items@.len() == 0 && r.arena.bodies@.last().statements@.len()
            == 0 && r.diagnostics@.len() == 1 && r.diagnostics@[0].code@ == "invalid-cst-root"@
            && r.diagnostics@[0].severity == Severity::Error,
{
    let mut context = LoweringContext { input, arena: HirArena::default(), diagnostics: Vec::new() };
    let mut items: Vec<HirId> = Vec::new();
    let mut module_statements: Vec<Stmt> = Vec::new();
    let root_index = input.root.0 as usize;
    let module_span = if root_index < input.nodes.len() {
        input.nodes[root_index].span
    } else {
        Span::dummy()
    };
    if root_index >= input.nodes.len() {
        context.report(
            "invalid-cst-root",
            String::from_str("CST root does not address a node"),
            Span::dummy(),
        );
    } else {
        let root = &input.nodes[root_index];
        match &root.kind {
            NodeKind::Module => {
                let children = &root.children;
                let ghost mut stmt_nodes: Seq<NodeId> = seq![];
                let ghost mut item_ids: Seq<NodeId> = seq![];
                let mut i: usize = 0;
                while i < children.len()
                    invariant
                        context.input == input,
                        context.input_ok(),
                        children == &input.nodes@[root_index as int].children,
                        i <= children@.len(),
                        stmt_nodes == expr_stmts(input.nodes@, children@.subrange(0, i as int)),
                        item_ids == item_nodes(input.nodes@, children@.subrange(0, i as int)),
                        module_statements@.len() == stmt_nodes.len(),
                        items@.len() == item_ids.len(),
                        forall|k: int|
                            0 <= k < stmt_nodes.len() ==> module_stmt_lowered(
                                source_bytes(input),
                                input.nodes@,
                                context.arena.exprs@,
                                stmt_nodes[k],
                                #[trigger] module_statements@[k],
                            ),
                        context.arena.nodes@.len() <= u32::MAX + 1 ==> forall|k: int|
                            0 <= k < item_ids.len() ==> (#[trigger] items@[k]).0
                                < context.arena.nodes@.len() && item_lowered(
                                input.nodes@,
                                item_ids[k],
                                context.arena.nodes@[items@[k].0 as int],
                            ) && item_links(
                                source_bytes(input),
                                input.nodes@,
                                context.arena,
                                item_ids[k],
                                context.arena.nodes@[items@[k].0 as int],
                            ),
                    decreases children.len() - i,
                {
                    proof {
                        assert(children@.subrange(0, i + 1).drop_last() =~= children@.subrange(
                            0,
                            i as int,
                        ));
                    }
                    let child = children[i];
                    let ghost before = context.arena.exprs@;
                    let ghost before_arena = context.arena;
                    match context.node(child) {
                        Some(node) => match &node.kind {
                            NodeKind::ExprStmt { expr } => {
                                let span = node.span;
                                let expr = context.lower_expr(*expr);
                                proof {
                                    lemma_module_stmts_extend(
                                        source_bytes(input),
                                        input.nodes@,
                                        before,
                                        context.arena.exprs@,
                                        stmt_nodes,
                                        module_statements@,
                                    );
                                    lemma_items_extend(
                                        source_bytes(input),
                                        input.nodes@,
                                        before_arena,
                                        context.arena,
                                        item_ids,
                                        items@,
                                    );
                                    stmt_nodes = stmt_nodes.push(child);
                                }
                                module_statements.push(Stmt::Expr { span, expr });
                            },
                            _ => {
                                let item = context.lower_item(child);
                                proof {
                                    lemma_module_stmts_extend(
                                        source_bytes(input),
                                        input.nodes@,
                                        before,
                                        context.arena.exprs@,
                                        stmt_nodes,
                                        module_statements@,
                                    );
                                    lemma_items_extend(
                                        source_bytes(input),
                                        input.nodes@,
                                        before_arena,
                                        context.arena,
                                        item_ids,
                                        items@,
                                    );
                                    item_ids = item_ids.push(child);
                                }
                                items.push(item);
                            },
                        },
                        None => {
                            let item = context.lower_item(child);
                            proof {
                                lemma_module_stmts_extend(
                                    source_bytes(input),
                                    input.nodes@,
                                    before,
                                    context.arena.exprs@,
                                    stmt_nodes,
                                    module_statements@,
                                );
                                lemma_items_extend(
                                    source_bytes(input),
                                    input.nodes@,
                                    before_arena,
                                    context.arena,
                                    item_ids,
                                    items@,
                                );
                                item_ids = item_ids.push(child);
                            }
                            items.push(item);
                        },
                    }
                    i = i + 1;
                }
                assert(children@.subrange(0, children@.len() as int) =~= children@);
            },
            other => {
                let message = concat(
                    "expected a Module CST root, found ",
                    node_kind_name(other),
                );
                context.report("invalid-cst-root", message, root.span);
            },
        }
    }
    let module_body = context.arena.alloc_body(Body { span: module_span, statements: module_statements });
    HirFile {
        file_id: input.file_id,
        items,
        module_body,
        arena: context.arena,
        diagnostics: context.diagnostics,
    }
}

} // verus!
