use vstd::prelude::*;
use crate::diagnostics::Diagnostic;
use crate::span::{FileId, Span};

verus! {

/// An index into the node arena.
#[derive(Clone, Copy, Debug, PartialEq, Eq, Hash, PartialOrd, Ord, Structural)]
pub struct HirId(pub u32);

/// An index into the body arena.
#[derive(Clone, Copy, Debug, PartialEq, Eq, Hash, PartialOrd, Ord, Structural)]
pub struct BodyId(pub u32);

/// An index into the expression arena.
#[derive(Clone, Copy, Debug, PartialEq, Eq, Hash, PartialOrd, Ord, Structural)]
pub struct ExprId(pub u32);

/// An index into the match arena.
#[derive(Clone, Copy, Debug, PartialEq, Eq, Hash, PartialOrd, Ord, Structural)]
pub struct MatchId(pub u32);

/// An index into the match-arm arena.
#[derive(Clone, Copy, Debug, PartialEq, Eq, Hash, PartialOrd, Ord, Structural)]
pub struct MatchArmId(pub u32);

/// An index into the condition arena.
#[derive(Clone, Copy, Debug, PartialEq, Eq, Hash, PartialOrd, Ord, Structural)]
pub struct ConditionId(pub u32);

impl HirId {
    /// The id of arena index `index`; ids are 32-bit.
    pub fn new(index: usize) -> (r: Self)
        ensures
            index <= u32::MAX ==> r.0 == index,
    {
        #[verifier::truncate]
        let id = index as u32;
        HirId(id)
    }

    /// The arena index this id addresses.
    pub fn index(self) -> (r: usize)
        ensures
            r == self.0,
    {
        self.0 as usize
    }
}

impl BodyId {
    /// The id of arena index `index`; ids are 32-bit.
    pub fn new(index: usize) -> (r: Self)
        ensures
            index <= u32::MAX ==> r.0 == index,
    {
        #[verifier::truncate]
        let id = index as u32;
        BodyId(id)
    }

    /// The arena index this id addresses.
    pub fn index(self) -> (r: usize)
        ensures
            r == self.0,
    {
        self.0 as usize
    }
}

impl ExprId {
    /// The id of arena index `index`; ids are 32-bit.
    pub fn new(index: usize) -> (r: Self)
        ensures
            index <= u32::MAX ==> r.0 == index,
    {
        #[verifier::truncate]
        let id = index as u32;
        ExprId(id)
    }

    /// The arena index this id addresses.
    pub fn index(self) -> (r: usize)
        ensures
            r == self.0,
    {
        self.0 as usize
    }
}

impl MatchId {
    /// The id of arena index `index`; ids are 32-bit.
    pub fn new(index: usize) -> (r: Self)
        ensures
            index <= u32::MAX ==> r.0 == index,
    {
        #[verifier::truncate]
        let id = index as u32;
        MatchId(id)
    }

    /// The arena index this id addresses.
    pub fn index(self) -> (r: usize)
        ensures
            r == self.0,
    {
        self.0 as usize
    }
}

impl MatchArmId {
    /// The id of arena index `index`; ids are 32-bit.
    pub fn new(index: usize) -> (r: Self)
        ensures
            index <= u32::MAX ==> r.0 == index,
    {
        #[verifier::truncate]
        let id = index as u32;
        MatchArmId(id)
    }

    /// The arena index this id addresses.
    pub fn index(self) -> (r: usize)
        ensures
            r == self.0,
    {
        self.0 as usize
    }
}

impl ConditionId {
    /// The id of arena index `index`; ids are 32-bit.
    pub fn new(index: usize) -> (r: Self)
        ensures
            index <= u32::MAX ==> r.0 == index,
    {
        #[verifier::truncate]
        let id = index as u32;
        ConditionId(id)
    }

    /// The arena index this id addresses.
    pub fn index(self) -> (r: usize)
        ensures
            r == self.0,
    {
        self.0 as usize
    }
}

/// A source-backed name kept for later symbol resolution.
#[derive(Clone, Copy, Debug, PartialEq, Eq, Structural)]
pub struct Name {
    pub span: Span,
}

/// A type name kept until semantic type resolution.
#[derive(Clone, Copy, Debug, PartialEq, Eq, Structural)]
pub struct TypeRef {
    pub name: Name,
}

/// An indexed function, block or module body.
#[derive(Clone, Debug, PartialEq)]
pub struct Body {
    pub span: Span,
    pub statements: Vec<Stmt>,
}

/// A statement holding only arena references.
#[derive(Clone, Debug, PartialEq)]
pub enum Stmt {
    Expr { span: Span, expr: ExprId },
    Assign {
        span: Span,
        annotations: Vec<HirId>,
        target: ExprId,
        type_annotation: Option<TypeRef>,
        value: ExprId,
    },
    Item(HirId),
    Error(HirId),
}

/// An expression of the expression arena.
#[derive(Clone, Debug, PartialEq)]
pub struct Expr {
    pub span: Span,
    pub kind: ExprKind,
}

/// Expression forms, independent of source layout.
#[derive(Clone, Debug, PartialEq)]
pub enum ExprKind {
    Literal(Literal),
    Name(Name),
    Unary { op: UnaryOp, expr: ExprId },
    Binary { op: BinaryOp, lhs: ExprId, rhs: ExprId },
    Call { callee: ExprId, arguments: Vec<CallArg> },
    InterpolatedString { parts: Vec<InterpolatedPart> },
    Chain { base: ExprId, steps: Vec<ChainStep> },
    Index { base: ExprId, index: ExprId },
    Match(MatchId),
    Quantifier { kind: QuantifierKind, conditions: Vec<ExprId> },
    Error,
}

/// A text or expression segment of an interpolated string.
#[derive(Clone, Debug, PartialEq)]
pub enum InterpolatedPart {
    Text(String),
    Expr(ExprId),
}

/// How a quantifier combines its conditions.
#[derive(Clone, Copy, Debug, PartialEq, Eq, Structural)]
pub enum QuantifierKind {
    All,
    Any,
    One,
    /// `none (...)` (the name `None` is reserved here).
    NoneOf,
}

/// Literal values without their delimiters.
#[derive(Clone, Debug, PartialEq)]
pub enum Literal {
    Integer(i128),
    /// A float literal, kept in its source spelling.
    Float(String),
    String(String),
    Bool(bool),
    Regex(String),
    Char(String),
}

/// Unary operators.
#[derive(Clone, Copy, Debug, PartialEq, Eq, Structural)]
pub enum UnaryOp {
    Negate,
    Not,
}

/// Binary operators, from condition words and symbols.
#[derive(Clone, Copy, Debug, PartialEq, Eq, Structural)]
pub enum BinaryOp {
    Lt,
    Less,
    Gt,
    More,
    LtEq,
    Least,
    GtEq,
    Most,
    Equals,
    Contains,
    Matches,
    Starts,
    Ends,
    In,
    Add,
    Subtract,
    Multiply,
    Divide,
    Remainder,
}

/// A positional or named call argument.
#[derive(Clone, Debug, PartialEq)]
pub struct CallArg {
    pub span: Span,
    pub name: Option<Name>,
    pub value: ExprId,
}

/// One step of a field and method chain.
#[derive(Clone, Debug, PartialEq)]
pub struct ChainStep {
    pub span: Span,
    pub kind: ChainStepKind,
}

/// What a chain step does.
#[derive(Clone, Debug, PartialEq)]
pub enum ChainStepKind {
    Field { name: Name },
    Call { arguments: Vec<CallArg> },
    Index { index: ExprId },
}

/// A node of the shared node arena.
#[derive(Clone, Debug, PartialEq)]
pub enum HirNode {
    Item(Item),
    Field(Field),
    EnumVariant(EnumVariant),
    Param(Param),
    Annotation(Annotation),
    Error { span: Span },
}

/// A module item.
#[derive(Clone, Debug, PartialEq)]
pub struct Item {
    pub span: Span,
    pub annotations: Vec<HirId>,
    pub kind: ItemKind,
}

/// The category of a module item.
#[derive(Clone, Debug, PartialEq)]
pub enum ItemKind {
    Const(ConstDef),
    Struct(StructDef),
    Enum(EnumDef),
    Function(FunctionDef),
    Unsupported { span: Span },
}

/// A constant: a name, an optional type and a value.
#[derive(Clone, Debug, PartialEq)]
pub struct ConstDef {
    pub name: Name,
    pub type_annotation: Option<TypeRef>,
    pub value: ExprId,
}

/// A struct and its field nodes.
#[derive(Clone, Debug, PartialEq)]
pub struct StructDef {
    pub name: Name,
    pub fields: Vec<HirId>,
}

/// An enum and its variant nodes.
#[derive(Clone, Debug, PartialEq)]
pub struct EnumDef {
    pub name: Name,
    pub variants: Vec<HirId>,
}

/// A simple enum variant.
#[derive(Clone, Debug, PartialEq)]
pub struct EnumVariant {
    pub span: Span,
    pub name: Name,
}

/// A function with an indexed body.
#[derive(Clone, Debug, PartialEq)]
pub struct FunctionDef {
    pub name: Name,
    pub params: Vec<HirId>,
    pub return_type: Option<TypeRef>,
    pub body: BodyId,
}

/// A typed parameter.
#[derive(Clone, Debug, PartialEq)]
pub struct Param {
    pub span: Span,
    pub name: Name,
    pub type_ref: TypeRef,
}

/// A struct field with its shape.
#[derive(Clone, Debug, PartialEq)]
pub struct Field {
    pub span: Span,
    pub annotations: Vec<HirId>,
    pub name: Name,
    pub shape: FieldShape,
}

/// The three valid forms of a struct field.
#[derive(Clone, Debug, PartialEq)]
pub enum FieldShape {
    Inferred { default: ExprId },
    Typed { type_ref: TypeRef, default: ExprId },
    Required { type_ref: TypeRef },
}

/// A declaration or field annotation.
#[derive(Clone, Debug, PartialEq)]
pub struct Annotation {
    pub span: Span,
    pub name: Name,
    pub arguments: Vec<AnnotationArg>,
}

/// A positional or named annotation argument.
#[derive(Clone, Debug, PartialEq)]
pub struct AnnotationArg {
    pub span: Span,
    pub name: Option<Name>,
    pub value: ExprId,
}

/// A match expression.
#[derive(Clone, Debug, PartialEq)]
pub struct Match {
    pub span: Span,
    pub scrutinee: ExprId,
    pub arms: Vec<MatchArmId>,
}

/// A match arm: an optional condition and a body.
#[derive(Clone, Debug, PartialEq)]
pub struct MatchArm {
    pub span: Span,
    pub condition: Option<ConditionId>,
    pub body: BodyId,
}

/// A match condition.
#[derive(Clone, Debug, PartialEq)]
pub struct Condition {
    pub span: Span,
    pub kind: ConditionKind,
}

/// Equality with a value, or a predicate.
#[derive(Clone, Debug, PartialEq)]
pub enum ConditionKind {
    Equals(ExprId),
    Predicate { op: ConditionOp, rhs: ExprId },
}

/// The predicate operators of match conditions.
#[derive(Clone, Copy, Debug, PartialEq, Eq, Structural)]
pub enum ConditionOp {
    Contains,
    Matches,
    Starts,
    Ends,
    Less,
    More,
    Least,
    Most,
    Equals,
    In,
    Lt,
    Gt,
    LtEq,
    GtEq,
}

/// Flat storage for every HIR entity, addressed by typed ids.
#[derive(Clone, Debug, PartialEq)]
pub struct HirArena {
    pub nodes: Vec<HirNode>,
    pub bodies: Vec<Body>,
    pub exprs: Vec<Expr>,
    pub matches: Vec<Match>,
    pub match_arms: Vec<MatchArm>,
    pub conditions: Vec<Condition>,
}

impl Default for HirArena {
    /// An empty arena.
    fn default() -> (r: Self)
        ensures
            r.nodes@.len() == 0,
            r.bodies@.len() == 0,
            r.exprs@.len() == 0,
            r.matches@.len() == 0,
            r.match_arms@.len() == 0,
            r.conditions@.len() == 0,
    {
        HirArena {
            nodes: Vec::new(),
            bodies: Vec::new(),
            exprs: Vec::new(),
            matches: Vec::new(),
            match_arms: Vec::new(),
            conditions: Vec::new(),
        }
    }
}

impl HirArena {
    /// Append a node and return its id.
    pub fn alloc_node(&mut self, node: HirNode) -> (id: HirId)
        ensures
            final(self).nodes@ == old(self).nodes@.push(node),
            final(self).bodies@ == old(self).bodies@,
            final(self).exprs@ == old(self).exprs@,
            final(self).matches@ == old(self).matches@,
            final(self).match_arms@ == old(self).match_arms@,
            final(self).conditions@ == old(self).conditions@,
            old(self).nodes@.len() <= u32::MAX ==> id.0 == old(self).nodes@.len(),
    {
        let id = HirId::new(self.nodes.len());
        self.nodes.push(node);
        id
    }

    /// Append a body and return its id.
    pub fn alloc_body(&mut self, body: Body) -> (id: BodyId)
        ensures
            final(self).bodies@ == old(self).bodies@.push(body),
            final(self).nodes@ == old(self).nodes@,
            final(self).exprs@ == old(self).exprs@,
            final(self).matches@ == old(self).matches@,
            final(self).match_arms@ == old(self).match_arms@,
            final(self).conditions@ == old(self).conditions@,
            old(self).bodies@.len() <= u32::MAX ==> id.0 == old(self).bodies@.len(),
    {
        let id = BodyId::new(self.bodies.len());
        self.bodies.push(body);
        id
    }

    /// Append an expression and return its id.
    pub fn alloc_expr(&mut self, expr: Expr) -> (id: ExprId)
        ensures
            final(self).exprs@ == old(self).exprs@.push(expr),
            final(self).nodes@ == old(self).nodes@,
            final(self).bodies@ == old(self).bodies@,
            final(self).matches@ == old(self).matches@,
            final(self).match_arms@ == old(self).match_arms@,
            final(self).conditions@ == old(self).conditions@,
            old(self).exprs@.len() <= u32::MAX ==> id.0 == old(self).exprs@.len(),
    {
        let id = ExprId::new(self.exprs.len());
        self.exprs.push(expr);
        id
    }

    /// Append a match and return its id.
    pub fn alloc_match(&mut self, value: Match) -> (id: MatchId)
        ensures
            final(self).matches@ == old(self).matches@.push(value),
            final(self).nodes@ == old(self).nodes@,
            final(self).bodies@ == old(self).bodies@,
            final(self).exprs@ == old(self).exprs@,
            final(self).match_arms@ == old(self).match_arms@,
            final(self).conditions@ == old(self).conditions@,
            old(self).matches@.len() <= u32::MAX ==> id.0 == old(self).matches@.len(),
    {
        let id = MatchId::new(self.matches.len());
        self.matches.push(value);
        id
    }

    /// Append a match arm and return its id.
    pub fn alloc_match_arm(&mut self, arm: MatchArm) -> (id: MatchArmId)
        ensures
            final(self).match_arms@ == old(self).match_arms@.push(arm),
            final(self).nodes@ == old(self).nodes@,
            final(self).bodies@ == old(self).bodies@,
            final(self).exprs@ == old(self).exprs@,
            final(self).matches@ == old(self).matches@,
            final(self).conditions@ == old(self).conditions@,
            old(self).match_arms@.len() <= u32::MAX ==> id.0 == old(self).match_arms@.len(),
    {
        let id = MatchArmId::new(self.match_arms.len());
        self.match_arms.push(arm);
        id
    }

    /// Append a condition and return its id.
    pub fn alloc_condition(&mut self, condition: Condition) -> (id: ConditionId)
        ensures
            final(self).conditions@ == old(self).conditions@.push(condition),
            final(self).nodes@ == old(self).nodes@,
            final(self).bodies@ == old(self).bodies@,
            final(self).exprs@ == old(self).exprs@,
            final(self).matches@ == old(self).matches@,
            final(self).match_arms@ == old(self).match_arms@,
            old(self).conditions@.len() <= u32::MAX ==> id.0 == old(self).conditions@.len(),
    {
        let id = ConditionId::new(self.conditions.len());
        self.conditions.push(condition);
        id
    }

    /// The node an id addresses, if any.
    pub fn node(&self, id: HirId) -> (r: Option<&HirNode>)
        ensures
            id.0 < self.nodes@.len() ==> r == Some(&self.nodes@[id.0 as int]),
            id.0 >= self.nodes@.len() ==> r is None,
    {
        if id.index() < self.nodes.len() {
            Some(&self.nodes[id.index()])
        } else {
            None
        }
    }

    /// The body an id addresses, if any.
    pub fn body(&self, id: BodyId) -> (r: Option<&Body>)
        ensures
            id.0 < self.bodies@.len() ==> r == Some(&self.bodies@[id.0 as int]),
            id.0 >= self.bodies@.len() ==> r is None,
    {
        if id.index() < self.bodies.len() {
            Some(&self.bodies[id.index()])
        } else {
            None
        }
    }

    /// The expression an id addresses, if any.
    pub fn expr(&self, id: ExprId) -> (r: Option<&Expr>)
        ensures
            id.0 < self.exprs@.len() ==> r == Some(&self.exprs@[id.0 as int]),
            id.0 >= self.exprs@.len() ==> r is None,
    {
        if id.index() < self.exprs.len() {
            Some(&self.exprs[id.index()])
        } else {
            None
        }
    }

    /// The match an id addresses, if any.
    pub fn match_expr(&self, id: MatchId) -> (r: Option<&Match>)
        ensures
            id.0 < self.matches@.len() ==> r == Some(&self.matches@[id.0 as int]),
            id.0 >= self.matches@.len() ==> r is None,
    {
        if id.index() < self.matches.len() {
            Some(&self.matches[id.index()])
        } else {
            None
        }
    }

    /// The match arm an id addresses, if any.
    pub fn match_arm(&self, id: MatchArmId) -> (r: Option<&MatchArm>)
        ensures
            id.0 < self.match_arms@.len() ==> r == Some(&self.match_arms@[id.0 as int]),
            id.0 >= self.match_arms@.len() ==> r is None,
    {
        if id.index() < self.match_arms.len() {
            Some(&self.match_arms[id.index()])
        } else {
            None
        }
    }

    /// The condition an id addresses, if any.
    pub fn condition(&self, id: ConditionId) -> (r: Option<&Condition>)
        ensures
            id.0 < self.conditions@.len() ==> r == Some(&self.conditions@[id.0 as int]),
            id.0 >= self.conditions@.len() ==> r is None,
    {
        if id.index() < self.conditions.len() {
            Some(&self.conditions[id.index()])
        } else {
            None
        }
    }
}

/// The lowered representation of one source file.
#[derive(Clone, Debug, PartialEq)]
pub struct HirFile {
    pub file_id: FileId,
    pub items: Vec<HirId>,
    /// The top-level expression statements, in source order.
    pub module_body: BodyId,
    pub arena: HirArena,
    pub diagnostics: Vec<Diagnostic>,
}

} // verus!
