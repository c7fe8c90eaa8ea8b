use vstd::prelude::*;
use crate::cst::{CstNode, NodeId, NodeKind};
use crate::grammar::{spec_prec_of, Assoc, TokenKind};
use crate::lex::{mode_fits, spec_next, tok, LexState, TokSpec};
use crate::lex_facts::{lemma_next_measure, lex_measure};

verus! {

// The expression fragment of the grammar, read off a token stream: literals,
// names, parentheses, prefix `-` and `not`, and binary operators by
// precedence climbing. A result of `None` means the tokens leave the
// fragment (or form no expression); the parser's contracts promise nothing
// there.

/// Where the parser stands in the token stream: the current token, the
/// lookahead, and the lexer state that yields the tokens after them.
pub struct Cursor {
    pub cur: TokSpec,
    pub next: TokSpec,
    pub lex: LexState,
}

/// A token without its text.
pub open spec fn strip(t: TokSpec) -> TokSpec {
    tok(t.kind, t.start, t.end)
}

/// The cursor one token further on.
pub open spec fn step(s: Seq<u8>, c: Cursor) -> Cursor {
    let (t, l) = spec_next(s, c.lex);
    Cursor { cur: c.next, next: strip(t), lex: l }
}

/// The lexer state of a cursor lies in the source.
pub open spec fn cursor_ok(s: Seq<u8>, c: Cursor) -> bool {
    &&& s.len() <= usize::MAX
    &&& 0 <= c.lex.pos <= s.len()
    &&& mode_fits(c.lex.pos as usize, c.lex.string_mode)
}

/// One for every token but `Eof`.
pub open spec fn weight(k: TokenKind) -> int {
    if k == TokenKind::Eof {
        0
    } else {
        1
    }
}

/// The input left at a cursor; every step over a token but `Eof` lowers it.
pub open spec fn cursor_measure(s: Seq<u8>, c: Cursor) -> int {
    lex_measure(s, c.lex) + weight(c.cur.kind) + weight(c.next.kind)
}

/// Stepping keeps a cursor in the source and never raises its measure;
/// stepping over a token other than `Eof` lowers it.
pub proof fn lemma_cursor_step(s: Seq<u8>, c: Cursor)
    requires
        cursor_ok(s, c),
    ensures
        cursor_ok(s, step(s, c)),
        0 <= cursor_measure(s, step(s, c)) <= cursor_measure(s, c),
        c.cur.kind != TokenKind::Eof ==> cursor_measure(s, step(s, c)) < cursor_measure(s, c),
{
    lemma_next_measure(s, c.lex);
}

/// The shape of an expression of the fragment; positions are byte offsets.
pub enum ExprTree {
    /// A literal token of the given kind and span.
    Lit(TokenKind, int, int),
    /// A name and its span.
    Name(int, int),
    /// A prefix operator's span and its operand.
    Unary(int, int, Box<ExprTree>),
    /// A binary operator's span and its operands.
    Binary(int, int, Box<ExprTree>, Box<ExprTree>),
}

/// The token kinds of literals.
pub open spec fn literal_token(k: TokenKind) -> bool {
    ||| k == TokenKind::IntLiteral
    ||| k == TokenKind::FloatLiteral
    ||| k == TokenKind::StringLiteral
    ||| k == TokenKind::RegexLiteral
    ||| k == TokenKind::TrueKw
    ||| k == TokenKind::FalseKw
}

/// The node a literal token of kind `k` parses to.
pub open spec fn literal_node(k: TokenKind) -> NodeKind {
    if k == TokenKind::IntLiteral {
        NodeKind::LitInteger
    } else if k == TokenKind::FloatLiteral {
        NodeKind::LitFloat
    } else if k == TokenKind::StringLiteral {
        NodeKind::LitString
    } else if k == TokenKind::RegexLiteral {
        NodeKind::LitRegex
    } else {
        NodeKind::LitBool(k == TokenKind::TrueKw)
    }
}

/// The expression at `c` whose binary operators bind at least as tightly as
/// `min`, and the cursor after it.
#[verifier::opaque]
pub open spec fn expr_at(s: Seq<u8>, c: Cursor, min: u8) -> Option<(ExprTree, Cursor)>
    decreases cursor_measure(s, c), 3int,
{
    if !cursor_ok(s, c) {
        None
    } else {
        match prefix_at(s, c) {
            Some((lhs, c1)) => if cursor_ok(s, c1) && cursor_measure(s, c1) < cursor_measure(s, c) {
                climb(s, lhs, c1, min)
            } else {
                None
            },
            None => None,
        }
    }
}

/// A prefix expression at `c`: `-` or `not` before a prefix expression, or
/// an atom.
#[verifier::opaque]
pub open spec fn prefix_at(s: Seq<u8>, c: Cursor) -> Option<(ExprTree, Cursor)>
    decreases cursor_measure(s, c), 2int,
{
    if !cursor_ok(s, c) {
        None
    } else if c.cur.kind == TokenKind::Minus || c.cur.kind == TokenKind::Not {
        proof {
            lemma_cursor_step(s, c);
        }
        match prefix_at(s, step(s, c)) {
            Some((e, c1)) => Some((ExprTree::Unary(c.cur.start, c.cur.end, Box::new(e)), c1)),
            None => None,
        }
    } else {
        atom_at(s, c)
    }
}

/// An atom at `c`: a literal, a name not followed by `(`, or an expression
/// in parentheses.
#[verifier::opaque]
pub open spec fn atom_at(s: Seq<u8>, c: Cursor) -> Option<(ExprTree, Cursor)>
    decreases cursor_measure(s, c), 1int,
{
    if !cursor_ok(s, c) {
        None
    } else if literal_token(c.cur.kind) {
        Some((ExprTree::Lit(c.cur.kind, c.cur.start, c.cur.end), step(s, c)))
    } else if c.cur.kind == TokenKind::Identifier && c.next.kind != TokenKind::LParen {
        Some((ExprTree::Name(c.cur.start, c.cur.end), step(s, c)))
    } else if c.cur.kind == TokenKind::LParen {
        proof {
            lemma_cursor_step(s, c);
        }
        match expr_at(s, step(s, c), 0) {
            Some((e, c1)) => if c1.cur.kind == TokenKind::RParen {
                Some((e, step(s, c1)))
            } else {
                None
            },
            None => None,
        }
    } else {
        None
    }
}

/// Precedence climbing from a left operand `lhs` at `c`: while the current
/// token is a binary operator binding at least as tightly as `min`, take it
/// and a right operand that binds tighter (left associative) or as tight
/// (right associative).
#[verifier::opaque]
pub open spec fn climb(s: Seq<u8>, lhs: ExprTree, c: Cursor, min: u8) -> Option<(ExprTree, Cursor)>
    decreases cursor_measure(s, c), 0int,
{
    let k = c.cur.kind;
    if !cursor_ok(s, c) {
        None
    } else if k == TokenKind::LParen || k == TokenKind::Dot || k == TokenKind::LBracket || k
        == TokenKind::LBrace {
        None
    } else {
        match spec_prec_of(k) {
            None => Some((lhs, c)),
            Some((prec, assoc)) => if prec < min {
                Some((lhs, c))
            } else {
                let next_min: u8 = match assoc {
                    Assoc::Left => (prec + 1) as u8,
                    Assoc::Right => prec,
                };
                proof {
                    lemma_cursor_step(s, c);
                }
                match expr_at(s, step(s, c), next_min) {
                    Some((rhs, c2)) => if cursor_ok(s, c2) && cursor_measure(s, c2) < cursor_measure(
                        s,
                        c,
                    ) {
                        climb(
                            s,
                            ExprTree::Binary(c.cur.start, c.cur.end, Box::new(lhs), Box::new(rhs)),
                            c2,
                            min,
                        )
                    } else {
                        None
                    },
                    None => None,
                }
            },
        }
    }
}

/// The token at `c` ends an expression: it is no binary operator and opens
/// no call, chain, index or match.
pub open spec fn ends_expression(c: Cursor) -> bool {
    &&& spec_prec_of(c.cur.kind) is None
    &&& c.cur.kind != TokenKind::LParen
    &&& c.cur.kind != TokenKind::Dot
    &&& c.cur.kind != TokenKind::LBracket
    &&& c.cur.kind != TokenKind::LBrace
}

/// Law: two operators of one precedence group to the left: `a - b - c`
/// reads as `(a - b) - c` and `a - b + c` as `(a - b) + c`.
pub proof fn equal_precedence_groups_left(s: Seq<u8>, c: Cursor)
    requires
        cursor_ok(s, c),
        literal_token(c.cur.kind),
        spec_prec_of(step(s, c).cur.kind) is Some,
        literal_token(step(s, step(s, c)).cur.kind),
        spec_prec_of(step(s, step(s, step(s, c))).cur.kind) == spec_prec_of(step(s, c).cur.kind),
        literal_token(step(s, step(s, step(s, step(s, c)))).cur.kind),
        ends_expression(step(s, step(s, step(s, step(s, step(s, c)))))),
    ensures
        ({
            let c1 = step(s, c);
            let c2 = step(s, c1);
            let c3 = step(s, c2);
            let c4 = step(s, c3);
            let c5 = step(s, c4);
            expr_at(s, c, 0) == Some(
                (
                    ExprTree::Binary(
                        c3.cur.start,
                        c3.cur.end,
                        Box::new(
                            ExprTree::Binary(
                                c1.cur.start,
                                c1.cur.end,
                                Box::new(ExprTree::Lit(c.cur.kind, c.cur.start, c.cur.end)),
                                Box::new(ExprTree::Lit(c2.cur.kind, c2.cur.start, c2.cur.end)),
                            ),
                        ),
                        Box::new(ExprTree::Lit(c4.cur.kind, c4.cur.start, c4.cur.end)),
                    ),
                    c5,
                ),
            )
        }),
{
    reveal(expr_at);
    reveal(prefix_at);
    reveal(atom_at);
    reveal(climb);
    let c1 = step(s, c);
    let c2 = step(s, c1);
    let c3 = step(s, c2);
    let c4 = step(s, c3);
    let c5 = step(s, c4);
    lemma_cursor_step(s, c);
    lemma_cursor_step(s, c1);
    lemma_cursor_step(s, c2);
    lemma_cursor_step(s, c3);
    lemma_cursor_step(s, c4);
    let (p, assoc) = spec_prec_of(c1.cur.kind)->0;
    let next_min: u8 = match assoc {
        Assoc::Left => (p + 1) as u8,
        Assoc::Right => p,
    };
    let a = ExprTree::Lit(c.cur.kind, c.cur.start, c.cur.end);
    let b = ExprTree::Lit(c2.cur.kind, c2.cur.start, c2.cur.end);
    let d = ExprTree::Lit(c4.cur.kind, c4.cur.start, c4.cur.end);
    let ab = ExprTree::Binary(c1.cur.start, c1.cur.end, Box::new(a), Box::new(b));
    assert(atom_at(s, c2) == Some((b, c3)));
    assert(prefix_at(s, c2) == Some((b, c3)));
    assert(climb(s, b, c3, next_min) == Some((b, c3)));
    assert(expr_at(s, c2, next_min) == Some((b, c3)));
    assert(atom_at(s, c4) == Some((d, c5)));
    assert(prefix_at(s, c4) == Some((d, c5)));
    assert(climb(s, d, c5, next_min) == Some((d, c5)));
    assert(expr_at(s, c4, next_min) == Some((d, c5)));
    let abd = ExprTree::Binary(c3.cur.start, c3.cur.end, Box::new(ab), Box::new(d));
    assert(climb(s, abd, c5, 0) == Some((abd, c5)));
    assert(climb(s, ab, c3, 0) == Some((abd, c5)));
    assert(climb(s, a, c1, 0) == Some((abd, c5)));
    assert(atom_at(s, c) == Some((a, c1)));
    assert(prefix_at(s, c) == Some((a, c1)));
}

/// Node `id` of `arena` is the root of a tree of the shape `t`.
pub open spec fn tree_is(arena: Seq<CstNode>, id: NodeId, t: ExprTree) -> bool
    decreases t,
{
    &&& id.0 < arena.len()
    &&& match t {
        ExprTree::Lit(k, a, b) => arena[id.0 as int].kind == literal_node(k)
            && arena[id.0 as int].span.start == a && arena[id.0 as int].span.end == b,
        ExprTree::Name(a, b) => arena[id.0 as int].kind matches NodeKind::Ident(sp) && sp.start
            == a && sp.end == b,
        ExprTree::Unary(a, b, e) => arena[id.0 as int].kind matches NodeKind::UnaryOp { op, expr }
            && op.start == a && op.end == b && tree_is(arena, expr, *e),
        ExprTree::Binary(a, b, l, r) => arena[id.0 as int].kind matches NodeKind::BinaryOp {
            op,
            lhs,
            rhs,
        } && op.start == a && op.end == b && tree_is(arena, lhs, *l) && tree_is(arena, rhs, *r),
    }
}

/// A tree stays in place when nodes are appended to its arena.
pub proof fn lemma_tree_grows(a: Seq<CstNode>, b: Seq<CstNode>, id: NodeId, t: ExprTree)
    requires
        tree_is(a, id, t),
        a.len() <= b.len(),
        forall|i: int| 0 <= i < a.len() ==> #[trigger] b[i] == a[i],
    ensures
        tree_is(b, id, t),
    decreases t,
{
    assert(b[id.0 as int] == a[id.0 as int]);
    match t {
        ExprTree::Lit(..) => {},
        ExprTree::Name(..) => {},
        ExprTree::Unary(_, _, e) => {
            let expr = a[id.0 as int].kind->UnaryOp_expr;
            lemma_tree_grows(a, b, expr, *e);
        },
        ExprTree::Binary(_, _, l, r) => {
            let lhs = a[id.0 as int].kind->BinaryOp_lhs;
            let rhs = a[id.0 as int].kind->BinaryOp_rhs;
            lemma_tree_grows(a, b, lhs, *l);
            lemma_tree_grows(a, b, rhs, *r);
        },
    }
}

/// A declaration of the fragment: `name = expression`, or an expression
/// statement; positions are byte offsets.
pub enum DeclTree {
    /// A constant assignment: the name's span and the value.
    Assign(int, int, ExprTree),
    /// A constant assignment with a named type: the name's span, the type
    /// name's span and the value.
    Typed(int, int, int, int, ExprTree),
    /// An expression statement.
    Expr(ExprTree),
}

/// The tokens at `c` open a function definition: `()` before `->` or `{`,
/// or `(` before `name:`.
pub open spec fn starts_definition(s: Seq<u8>, c: Cursor) -> bool {
    &&& c.cur.kind == TokenKind::LParen
    &&& ((c.next.kind == TokenKind::RParen && (step(s, c).next.kind == TokenKind::Arrow || step(
        s,
        c,
    ).next.kind == TokenKind::LBrace)) || (c.next.kind == TokenKind::Identifier && step(
        s,
        c,
    ).next.kind == TokenKind::Colon))
}

/// The declaration at `c`, and the cursor after it: a name, `=` and an
/// expression that opens no definition; a name, `:`, a type name, `=` and
/// an expression; or an expression statement (which starts neither with an
/// annotation, an import or an export).
pub open spec fn decl_at(s: Seq<u8>, c: Cursor) -> Option<(DeclTree, Cursor)> {
    let k = c.cur.kind;
    if !cursor_ok(s, c) || k == TokenKind::Hash || k == TokenKind::LBrace || k
        == TokenKind::Exports {
        None
    } else if k == TokenKind::Identifier && c.next.kind == TokenKind::Eq {
        let c2 = step(s, step(s, c));
        if starts_definition(s, c2) || c2.cur.kind == TokenKind::Struct || c2.cur.kind
            == TokenKind::Enum {
            None
        } else {
            match expr_at(s, c2, 0) {
                Some((e, c3)) => Some((DeclTree::Assign(c.cur.start, c.cur.end, e), c3)),
                None => None,
            }
        }
    } else if k == TokenKind::Identifier && c.next.kind == TokenKind::Colon {
        let c2 = step(s, step(s, c));
        if c2.cur.kind == TokenKind::Identifier && c2.next.kind == TokenKind::Eq {
            match expr_at(s, step(s, step(s, c2)), 0) {
                Some((e, c3)) => Some(
                    (DeclTree::Typed(c.cur.start, c.cur.end, c2.cur.start, c2.cur.end, e), c3),
                ),
                None => None,
            }
        } else {
            None
        }
    } else {
        match expr_at(s, c, 0) {
            Some((e, c1)) => Some((DeclTree::Expr(e), c1)),
            None => None,
        }
    }
}

/// The declarations from `c` up to the end of the input.
#[verifier::opaque]
pub open spec fn file_at(s: Seq<u8>, c: Cursor) -> Option<Seq<DeclTree>>
    decreases cursor_measure(s, c),
{
    if !cursor_ok(s, c) {
        None
    } else if c.cur.kind == TokenKind::Eof {
        Some(Seq::empty())
    } else {
        match decl_at(s, c) {
            Some((d, c1)) => if cursor_ok(s, c1) && cursor_measure(s, c1) < cursor_measure(s, c) {
                match file_at(s, c1) {
                    Some(ds) => Some(seq![d] + ds),
                    None => None,
                }
            } else {
                None
            },
            None => None,
        }
    }
}

/// The cursor of a parser that has just read the first two tokens from
/// lexer state `l`.
pub open spec fn start_cursor(s: Seq<u8>, l: LexState) -> Cursor {
    let (t1, l1) = spec_next(s, l);
    let (t2, l2) = spec_next(s, l1);
    Cursor { cur: strip(t1), next: strip(t2), lex: l2 }
}

/// Node `id` of `arena` is the declaration `d`.
pub open spec fn decl_is(arena: Seq<CstNode>, id: NodeId, d: DeclTree) -> bool {
    &&& id.0 < arena.len()
    &&& match d {
        DeclTree::Assign(a, b, e) => match arena[id.0 as int].kind {
            NodeKind::AssignStmt { annotations, target, type_annotation, value } => {
                &&& annotations@.len() == 0
                &&& type_annotation is None
                &&& target.0 < arena.len()
                &&& match arena[target.0 as int].kind {
                    NodeKind::Ident(sp) => sp.start == a && sp.end == b,
                    _ => false,
                }
                &&& tree_is(arena, value, e)
            },
            _ => false,
        },
        DeclTree::Typed(a, b, ta, tb, e) => match arena[id.0 as int].kind {
            NodeKind::AssignStmt { annotations, target, type_annotation, value } => {
                &&& annotations@.len() == 0
                &&& target.0 < arena.len()
                &&& match arena[target.0 as int].kind {
                    NodeKind::Ident(sp) => sp.start == a && sp.end == b,
                    _ => false,
                }
                &&& match type_annotation {
                    Some(ty) => ty.0 < arena.len() && match arena[ty.0 as int].kind {
                        NodeKind::Ident(sp) => sp.start == ta && sp.end == tb,
                        _ => false,
                    },
                    None => false,
                }
                &&& tree_is(arena, value, e)
            },
            _ => false,
        },
        DeclTree::Expr(e) => arena[id.0 as int].kind matches NodeKind::ExprStmt { expr } && tree_is(
            arena,
            expr,
            e,
        ),
    }
}

/// Node `id` of `arena` is a module whose children are the declarations
/// `ds`, in order.
pub open spec fn module_is(arena: Seq<CstNode>, id: NodeId, ds: Seq<DeclTree>) -> bool {
    &&& id.0 < arena.len()
    &&& arena[id.0 as int].kind is Module
    &&& arena[id.0 as int].children@.len() == ds.len()
    &&& forall|i: int|
        0 <= i < ds.len() ==> decl_is(arena, #[trigger] arena[id.0 as int].children@[i], ds[i])
}

/// A declaration stays in place when nodes are appended to its arena.
pub proof fn lemma_decl_grows(a: Seq<CstNode>, b: Seq<CstNode>, id: NodeId, d: DeclTree)
    requires
        decl_is(a, id, d),
        a.len() <= b.len(),
        forall|i: int| 0 <= i < a.len() ==> #[trigger] b[i] == a[i],
    ensures
        decl_is(b, id, d),
{
    assert(b[id.0 as int] == a[id.0 as int]);
    match d {
        DeclTree::Assign(_, _, e) => {
            let n = a[id.0 as int].kind;
            assert(b[n->AssignStmt_target.0 as int] == a[n->AssignStmt_target.0 as int]);
            lemma_tree_grows(a, b, n->AssignStmt_value, e);
        },
        DeclTree::Typed(_, _, _, _, e) => {
            let n = a[id.0 as int].kind;
            assert(b[n->AssignStmt_target.0 as int] == a[n->AssignStmt_target.0 as int]);
            let ty = n->AssignStmt_type_annotation->0;
            assert(b[ty.0 as int] == a[ty.0 as int]);
            lemma_tree_grows(a, b, n->AssignStmt_value, e);
        },
        DeclTree::Expr(e) => {
            lemma_tree_grows(a, b, a[id.0 as int].kind->ExprStmt_expr, e);
        },
    }
}

} // verus!
