use vstd::prelude::*;
use vstd::string::StringExecFns;
use crate::fragment::{
    climb, cursor_measure, cursor_ok, decl_at, decl_is, expr_at, file_at, lemma_decl_grows,
    lemma_tree_grows, module_is, prefix_at, start_cursor, step, tree_is, atom_at, Cursor, DeclTree,
    ExprTree,
};
use crate::cst::{
    ids_below, kind_refs_below, part_refs_below, step_refs_below, ChainStep, ChainStepKind,
    CstNode, InterpolatedPart, NodeId, NodeKind, QuantifierKind,
};
use crate::diagnostics::{Diagnostic, Severity};
use crate::grammar::{prec_of, spec_prec_of, Assoc, TokenKind};
use crate::interner::Symbol;
use crate::lex::{spec_next, tok, Lexer, LexerCheckpoint, Token};
use crate::lex_facts::{lemma_next_measure, lex_measure};
use crate::span::{FileId, Span};
use crate::text::{copy_range, string_from_utf8};

verus! {

/// A parse error, also reported as a diagnostic.
#[derive(Clone, Debug)]
pub struct ParseError {
    pub message: String,
    pub span: Span,
}

/// Node `i` of an arena over a source of `len` bytes is well formed: its id
/// is its index (ids are 32-bit, so this is exact below 2^32 nodes), its
/// span lies in the source, and its children and the nodes its kind names
/// are earlier nodes.
pub open spec fn node_ok(nodes: Seq<CstNode>, i: int, len: int) -> bool {
    &&& (i <= u32::MAX ==> nodes[i].id.0 == i)
    &&& nodes[i].span.start <= len
    &&& nodes[i].span.end <= len
    &&& forall|j: int|
        0 <= j < nodes[i].children@.len() ==> (#[trigger] nodes[i].children@[j]).0 < i
    &&& kind_refs_below(nodes[i].kind, i)
}

/// Every node of the arena is well formed.
pub open spec fn arena_ok(nodes: Seq<CstNode>, len: int) -> bool {
    forall|i: int| 0 <= i < nodes.len() ==> #[trigger] node_ok(nodes, i, len)
}

/// `b` extends arena `a`: nodes are only ever appended.
pub open spec fn arena_grows(a: Seq<CstNode>, b: Seq<CstNode>) -> bool {
    &&& a.len() <= b.len()
    &&& forall|i: int| 0 <= i < a.len() ==> #[trigger] b[i] == a[i]
}

/// The node kinds an expression parses to.
pub open spec fn expr_node_kind(k: NodeKind) -> bool {
    ||| k is LitInteger
    ||| k is LitFloat
    ||| k is LitString
    ||| k is LitRegex
    ||| k is LitBool
    ||| k is Ident
    ||| k is UnaryOp
    ||| k is BinaryOp
    ||| k is Call
    ||| k is ChainExpr
    ||| k is Index
    ||| k is MatchExpr
    ||| k is Quantifier
    ||| k is InterpolatedString
}

/// The node kinds a declaration parses to.
pub open spec fn decl_node_kind(k: NodeKind) -> bool {
    ||| k is ImportDecl
    ||| k is ExportDecl
    ||| k is FunctionDef
    ||| k is StructDef
    ||| k is EnumDef
    ||| k is AssignStmt
    ||| k is ExprStmt
}

/// The node kinds a type parses to.
pub open spec fn type_node_kind(k: NodeKind) -> bool {
    k is Ident || k is AnonymousStructType || k is AnonymousEnumType
}

/// The node kinds a call argument parses to.
pub open spec fn arg_node_kind(k: NodeKind) -> bool {
    expr_node_kind(k) || k is NamedArg
}

/// The node kinds a match pattern parses to.
pub open spec fn pattern_node_kind(k: NodeKind) -> bool {
    k is PatternCondition || expr_node_kind(k)
}

/// Every node that `ids` names in `nodes` has a kind that `ok` accepts.
pub open spec fn kinds_ok(nodes: Seq<CstNode>, ids: Seq<NodeId>, ok: spec_fn(NodeKind) -> bool) -> bool {
    forall|k: int| 0 <= k < ids.len() ==> ok(nodes[(#[trigger] ids[k]).0 as int].kind)
}

/// The node an optional id names, if any, has a kind that `ok` accepts.
pub open spec fn opt_kind_ok(nodes: Seq<CstNode>, id: Option<NodeId>, ok: spec_fn(NodeKind) -> bool) -> bool {
    match id {
        Some(i) => ok(nodes[i.0 as int].kind),
        None => true,
    }
}

/// The operands of a chain step are expressions.
pub open spec fn step_sorted(nodes: Seq<CstNode>, step: ChainStep) -> bool {
    match step.kind {
        ChainStepKind::FieldAccess(_) => true,
        ChainStepKind::Call { args, .. } => kinds_ok(nodes, args@, |k: NodeKind| expr_node_kind(k)),
        ChainStepKind::Index { index, .. } => expr_node_kind(nodes[index.0 as int].kind),
    }
}

/// The nodes a node of kind `kind` refers to have the kinds its grammar rule
/// gives them: expressions where an expression stands, declarations in
/// blocks, types after `:` and `->`, and so on.
pub open spec fn kind_sorted(kind: NodeKind, nodes: Seq<CstNode>) -> bool {
    let expr = |k: NodeKind| expr_node_kind(k);
    let annotation = |k: NodeKind| k is Annotation;
    let ty = |k: NodeKind| type_node_kind(k);
    match kind {
        NodeKind::FunctionDef { annotations, params, return_type, body, .. } => {
            &&& kinds_ok(nodes, annotations@, annotation)
            &&& kinds_ok(nodes, params@, |k: NodeKind| k is Param)
            &&& opt_kind_ok(nodes, return_type, ty)
            &&& nodes[body.0 as int].kind is Block
        },
        NodeKind::StructDef { annotations, fields, .. } => {
            &&& kinds_ok(nodes, annotations@, annotation)
            &&& kinds_ok(nodes, fields@, |k: NodeKind| k is FieldDef)
        },
        NodeKind::AnonymousStructType { fields } => kinds_ok(
            nodes,
            fields@,
            |k: NodeKind| k is FieldDef,
        ),
        NodeKind::AnonymousEnumType { variants } => kinds_ok(
            nodes,
            variants@,
            |k: NodeKind| k is Ident,
        ),
        NodeKind::EnumDef { annotations, variants, .. } => {
            &&& kinds_ok(nodes, annotations@, annotation)
            &&& kinds_ok(nodes, variants@, |k: NodeKind| k is Ident)
        },
        NodeKind::FieldDef { annotations, type_annotation, default_value, .. } => {
            &&& kinds_ok(nodes, annotations@, annotation)
            &&& opt_kind_ok(nodes, type_annotation, ty)
            &&& opt_kind_ok(nodes, default_value, expr)
        },
        NodeKind::Annotation { arguments, .. } => kinds_ok(
            nodes,
            arguments@,
            |k: NodeKind| k is AnnotationArg,
        ),
        NodeKind::AnnotationArg { value, .. } => expr_node_kind(nodes[value.0 as int].kind),
        NodeKind::ExprStmt { expr } => expr_node_kind(nodes[expr.0 as int].kind),
        NodeKind::AssignStmt { annotations, target, type_annotation, value } => {
            &&& kinds_ok(nodes, annotations@, annotation)
            &&& nodes[target.0 as int].kind is Ident
            &&& opt_kind_ok(nodes, type_annotation, ty)
            &&& expr_node_kind(nodes[value.0 as int].kind)
        },
        NodeKind::NamedArg { value, .. } => expr_node_kind(nodes[value.0 as int].kind),
        NodeKind::MatchArm { pattern, body } => {
            &&& opt_kind_ok(nodes, pattern, |k: NodeKind| pattern_node_kind(k))
            &&& nodes[body.0 as int].kind is Block
        },
        NodeKind::BinaryOp { lhs, rhs, .. } => expr_node_kind(nodes[lhs.0 as int].kind)
            && expr_node_kind(nodes[rhs.0 as int].kind),
        NodeKind::UnaryOp { expr, .. } => expr_node_kind(nodes[expr.0 as int].kind),
        NodeKind::Call { func, args } => expr_node_kind(nodes[func.0 as int].kind) && kinds_ok(
            nodes,
            args@,
            |k: NodeKind| arg_node_kind(k),
        ),
        NodeKind::ChainExpr { base, steps } => expr_node_kind(nodes[base.0 as int].kind) && forall|
            i: int,
        | 0 <= i < steps@.len() ==> step_sorted(nodes, #[trigger] steps@[i]),
        NodeKind::InterpolatedString { parts } => forall|i: int|
            0 <= i < parts@.len() ==> match #[trigger] parts@[i] {
                InterpolatedPart::Expr(e) => expr_node_kind(nodes[e.0 as int].kind),
                InterpolatedPart::Text(_) => true,
            },
        NodeKind::MatchExpr { scrutinee, arms } => expr_node_kind(nodes[scrutinee.0 as int].kind)
            && kinds_ok(nodes, arms@, |k: NodeKind| k is MatchArm),
        NodeKind::Quantifier { conditions, .. } => kinds_ok(nodes, conditions@, expr),
        NodeKind::PatternCondition { rhs, .. } => expr_node_kind(nodes[rhs.0 as int].kind),
        NodeKind::Block { statements } => kinds_ok(
            nodes,
            statements@,
            |k: NodeKind| decl_node_kind(k),
        ),
        NodeKind::Param { type_annotation, .. } => type_node_kind(
            nodes[type_annotation.0 as int].kind,
        ),
        NodeKind::Index { base, index, .. } => expr_node_kind(nodes[base.0 as int].kind)
            && expr_node_kind(nodes[index.0 as int].kind),
        NodeKind::ImportItem { alias, .. } => opt_kind_ok(nodes, alias, |k: NodeKind| k is Ident),
        _ => true,
    }
}

/// Every node of the arena is sorted: the parser builds trees of its grammar.
pub open spec fn arena_sorted(nodes: Seq<CstNode>) -> bool {
    forall|i: int| 0 <= i < nodes.len() ==> #[trigger] kind_sorted(nodes[i].kind, nodes)
}

/// Sortedness only reads the nodes a kind refers to, so it survives the
/// arena growing.
pub proof fn lemma_kind_sorted_grows(kind: NodeKind, a: Seq<CstNode>, b: Seq<CstNode>, n: int)
    requires
        kind_sorted(kind, a),
        kind_refs_below(kind, n),
        n <= a.len(),
        arena_grows(a, b),
    ensures
        kind_sorted(kind, b),
{
    match kind {
        NodeKind::ChainExpr { base, steps } => {
            assert forall|i: int| 0 <= i < steps@.len() implies step_sorted(b, #[trigger] steps@[i]) by {
                assert(step_sorted(a, steps@[i]));
                assert(step_refs_below(steps@[i], n));
            }
        },
        NodeKind::InterpolatedString { parts } => {
            assert forall|i: int| 0 <= i < parts@.len() implies match #[trigger] parts@[i] {
                InterpolatedPart::Expr(e) => expr_node_kind(b[e.0 as int].kind),
                InterpolatedPart::Text(_) => true,
            } by {
                assert(part_refs_below(parts@[i], n));
            }
        },
        _ => {},
    }
}

/// A token counts toward the parser's measure until the end is reached.
pub open spec fn token_weight(k: TokenKind) -> nat {
    if k == TokenKind::Eof {
        0
    } else {
        1
    }
}

/// The recursive-descent parser: it pulls tokens from the lexer with one
/// token of lookahead and appends nodes to an arena.
pub struct Parser<'a> {
    lexer: Lexer<'a>,
    nodes: Vec<CstNode>,
    diagnostics: Vec<Diagnostic>,
    file_id: FileId,
    /// The token that `advance` consumes.
    current: Token,
    /// The token after it.
    peek: Option<Token>,
    /// Inside a match-arm pattern, a `{` opens the arm body, not a match.
    suppress_match_postfix: bool,
    /// Every node came from a grammar rule: none was pushed from outside
    /// with operands of the wrong kinds.
    by_rules: Ghost<bool>,
}

/// A saved parser position; nodes and diagnostics are not rolled back.
struct ParserCheckpoint {
    current: Token,
    peek: Option<Token>,
    lexer_ck: LexerCheckpoint,
}

impl<'a> Parser<'a> {
    /// The source bytes being parsed.
    pub closed spec fn src(&self) -> Seq<u8> {
        self.lexer.src()
    }

    /// The lookahead token is of kind `k`.
    pub open spec fn peek_is(self, k: TokenKind) -> bool {
        match self.peeked() {
            Some(p) => p.kind == k,
            None => false,
        }
    }

    /// The kind of the token after the lookahead: what the lexer yields next.
    pub closed spec fn next_kind(&self) -> TokenKind {
        spec_next(self.lexer.src(), self.lexer.state()).0.kind
    }

    /// The kind of the token the lexer yields after `next_kind`'s.
    pub closed spec fn next2_kind(&self) -> TokenKind {
        spec_next(self.lexer.src(), spec_next(self.lexer.src(), self.lexer.state()).1).0.kind
    }

    /// The file the parsed nodes belong to.
    pub closed spec fn fid(&self) -> FileId {
        self.file_id
    }

    /// The node arena.
    pub closed spec fn arena(&self) -> Seq<CstNode> {
        self.nodes@
    }

    /// The diagnostics reported so far.
    pub closed spec fn diags(&self) -> Seq<Diagnostic> {
        self.diagnostics@
    }

    /// Where the parser stands in the token stream of its source.
    pub closed spec fn pos(&self) -> Cursor {
        Cursor {
            cur: tok(self.current.kind, self.current.span.start as int, self.current.span.end as int),
            next: match self.peek {
                Some(t) => tok(t.kind, t.span.start as int, t.span.end as int),
                None => tok(TokenKind::Eof, 0, 0),
            },
            lex: self.lexer.state(),
        }
    }

    /// A well-formed parser stands at a cursor in its source, and the
    /// cursor's measure is the parser's.
    pub proof fn lemma_pos(&self)
        requires
            self.wf(),
        ensures
            cursor_ok(self.src(), self.pos()),
            cursor_measure(self.src(), self.pos()) == self.measure(),
            self.pos().cur.kind == self.cur().kind,
            self.peeked() matches Some(p) && self.pos().next.kind == p.kind,
            self.next_kind() == step(self.src(), self.pos()).next.kind,
    {
        self.lexer.lemma_wf_state();
    }

    /// The current token.
    pub closed spec fn cur(&self) -> Token {
        self.current
    }

    /// The lookahead token.
    pub closed spec fn peeked(&self) -> Option<Token> {
        self.peek
    }

    /// How much input is left: the lexer's measure plus one for each of
    /// the current and lookahead tokens that is not `Eof`. Consuming a
    /// token other than `Eof` always decreases it.
    pub closed spec fn measure(&self) -> nat {
        (lex_measure(self.lexer.src(), self.lexer.state()) + token_weight(self.current.kind)
            + match self.peek {
            Some(t) => token_weight(t.kind),
            None => 0nat,
        }) as nat
    }

    /// The parser's invariant: lexer and tokens within the source, the
    /// lookahead present (and `Eof` only once the lexer is done), and a
    /// well-formed arena.
    pub closed spec fn wf(&self) -> bool {
        let len = self.lexer.src().len();
        &&& len <= usize::MAX
        &&& self.lexer.wf()
        &&& 0 <= self.lexer.state().pos <= len
        &&& self.current.span.start <= self.current.span.end <= len
        &&& self.peek matches Some(p) && p.span.start <= p.span.end <= len && (p.kind
            == TokenKind::Eof ==> self.lexer.state().pos == len
            && self.lexer.state().string_mode is None)
        &&& arena_ok(self.nodes@, len as int)
        &&& self.by_rules@ && self.nodes@.len() <= u32::MAX + 1 ==> arena_sorted(self.nodes@)
        &&& forall|i: int|
            0 <= i < self.diagnostics@.len() ==> (#[trigger] self.diagnostics@[i]).severity
                == Severity::Error
    }

    /// Every node of the arena came from a grammar rule of this parser.
    pub closed spec fn built_by_rules(&self) -> bool {
        self.by_rules@
    }

    /// `next` is a later state of this parser: still well formed, on the
    /// same source, with nodes and diagnostics only appended and no more
    /// input left than before.
    pub open spec fn steps_to(self, next: Self) -> bool {
        &&& next.wf()
        &&& next.src() == self.src()
        &&& arena_grows(self.arena(), next.arena())
        &&& self.diags().len() <= next.diags().len()
        &&& next.measure() <= self.measure()
        &&& next.built_by_rules() == self.built_by_rules()
    }

    /// What a parse step that yields one node guarantees: success consumed
    /// input and names a node of the arena; failure reported a diagnostic.
    pub open spec fn yields(self, next: Self, r: Result<NodeId, ParseError>) -> bool {
        &&& self.steps_to(next)
        &&& match r {
            Ok(id) => id.0 < next.arena().len() && next.measure() < self.measure(),
            Err(_) => self.diags().len() < next.diags().len(),
        }
    }

    /// Node ids name arena positions exactly: the arena holds at most 2^32
    /// nodes.
    pub open spec fn ids_exact(self) -> bool {
        self.arena().len() <= u32::MAX + 1
    }

    /// The node a successful step names, where ids are exact.
    pub open spec fn named(self, r: Result<NodeId, ParseError>) -> Option<CstNode> {
        match r {
            Ok(id) => if self.ids_exact() && id.0 < self.arena().len() {
                Some(self.arena()[id.0 as int])
            } else {
                None
            },
            Err(_) => None,
        }
    }

    /// Every id of `ids` names a declaration, where ids are exact.
    pub open spec fn all_decls(self, ids: Seq<NodeId>) -> bool {
        self.ids_exact() ==> forall|k: int|
            0 <= k < ids.len() ==> decl_node_kind(self.arena()[(#[trigger] ids[k]).0 as int].kind)
    }

    /// Node `id` has a kind that `ok` accepts, where ids are exact.
    pub open spec fn node_kind_ok(self, id: NodeId, ok: spec_fn(NodeKind) -> bool) -> bool {
        self.ids_exact() ==> ok(self.arena()[id.0 as int].kind)
    }

    /// Every id of `ids` names a node whose kind `ok` accepts, where ids are
    /// exact.
    pub open spec fn all_kind(self, ids: Seq<NodeId>, ok: spec_fn(NodeKind) -> bool) -> bool {
        self.ids_exact() ==> forall|k: int|
            0 <= k < ids.len() ==> ok(self.arena()[(#[trigger] ids[k]).0 as int].kind)
    }

    /// Prime the current and lookahead tokens from `lexer`.
    pub fn new(lexer: Lexer<'a>, file_id: FileId) -> (p: Parser<'a>)
        requires
            lexer.wf(),
            0 <= lexer.state().pos <= lexer.src().len(),
        ensures
            p.wf(),
            p.src() == lexer.src(),
            p.arena() == Seq::<CstNode>::empty(),
            p.fid() == file_id,
            p.built_by_rules(),
            p.diags() == Seq::<Diagnostic>::empty(),
            p.cur().kind == spec_next(lexer.src(), lexer.state()).0.kind,
            p.peek_is(spec_next(lexer.src(), spec_next(lexer.src(), lexer.state()).1).0.kind),
            p.pos() == start_cursor(lexer.src(), lexer.state()),
            p.next_kind() == spec_next(
                lexer.src(),
                spec_next(lexer.src(), spec_next(lexer.src(), lexer.state()).1).1,
            ).0.kind,
            p.next2_kind() == spec_next(
                lexer.src(),
                spec_next(
                    lexer.src(),
                    spec_next(lexer.src(), spec_next(lexer.src(), lexer.state()).1).1,
                ).1,
            ).0.kind,
    {
        let mut lexer = lexer;
        let ghost s = lexer.src();
        let n = lexer.source_len();
        proof {
            lexer.lemma_wf_state();
            lemma_next_measure(s, lexer.state());
        }
        let current = lexer.next_token();
        proof {
            lexer.lemma_wf_state();
            lemma_next_measure(s, lexer.state());
        }
        let peek = Some(lexer.next_token());
        let p = Parser {
            lexer,
            nodes: Vec::new(),
            diagnostics: Vec::new(),
            file_id,
            current,
            peek,
            suppress_match_postfix: false,
            by_rules: Ghost(true),
        };
        assert(p.arena() =~= Seq::<CstNode>::empty());
        p
    }

    /// The arena of a well-formed parser refers only backwards, and every
    /// node in it is sorted: the parser only builds trees of its grammar.
    pub proof fn lemma_arena(&self)
        requires
            self.wf(),
        ensures
            arena_ok(self.arena(), self.src().len() as int),
            crate::cst::refers_back(self.arena()),
            self.built_by_rules() && self.ids_exact() ==> arena_sorted(self.arena()),
    {
        let len = self.lexer.src().len() as int;
        assert(arena_ok(self.nodes@, len));
        assert forall|i: int| 0 <= i < self.nodes@.len() implies #[trigger]
            crate::cst::refers_back_at(self.nodes@, i) by {
            assert(node_ok(self.nodes@, i, len));
        }
    }

    /// The node arena.
    pub fn nodes(&self) -> (r: &Vec<CstNode>)
        ensures
            r@ == self.arena(),
    {
        &self.nodes
    }

    /// The diagnostics reported so far.
    pub fn diagnostics(&self) -> (r: &Vec<Diagnostic>)
        ensures
            r@ == self.diags(),
            self.wf() ==> forall|i: int|
                0 <= i < r@.len() ==> (#[trigger] r@[i]).severity == Severity::Error,
    {
        &self.diagnostics
    }

    /// Give back the node arena and the diagnostics.
    pub fn into_parts(self) -> (r: (Vec<CstNode>, Vec<Diagnostic>))
        ensures
            r.0@ == self.arena(),
            r.1@ == self.diags(),
    {
        (self.nodes, self.diagnostics)
    }

    /// The file being parsed.
    pub fn file_id(&self) -> (r: FileId)
        ensures
            r == self.fid(),
    {
        self.file_id
    }

    /// Consume the current token and advance to the next one.
    pub fn advance(&mut self)
        requires
            old(self).wf(),
        ensures
            old(self).steps_to(*final(self)),
            final(self).arena() == old(self).arena(),
            final(self).diags() == old(self).diags(),
            old(self).cur().kind != TokenKind::Eof ==> final(self).measure() < old(self).measure(),
            old(self).peeked() == Some(final(self).cur()),
            final(self).peeked() matches Some(p) && p.kind == old(self).next_kind(),
            final(self).next_kind() == old(self).next2_kind(),
            final(self).pos() == step(old(self).src(), old(self).pos()),
    {
        let ghost s = self.lexer.src();
        self.current = match self.peek {
            Some(t) => t,
            None => Token { kind: TokenKind::Eof, span: Span::dummy(), symbol: None },
        };
        proof {
            self.lexer.lemma_wf_state();
            lemma_next_measure(s, self.lexer.state());
        }
        let t = self.lexer.next_token();
        self.peek = Some(t);
    }

    /// The kind of the lookahead token.
    pub fn peek_kind(&self) -> (r: Option<TokenKind>)
        ensures
            r == match self.peeked() {
                Some(t) => Some(t.kind),
                None => None::<TokenKind>,
            },
    {
        match self.peek {
            Some(t) => Some(t.kind),
            None => None,
        }
    }

    /// The kind of the current token.
    pub fn current_kind(&self) -> (r: TokenKind)
        ensures
            r == self.cur().kind,
    {
        self.current.kind
    }

    /// The span of the current token.
    pub fn current_span(&self) -> (r: Span)
        ensures
            r == self.cur().span,
            self.wf() ==> r.start <= r.end <= self.src().len(),
    {
        self.current.span
    }

    /// The interned text of the current token, if it has one.
    pub fn current_symbol(&self) -> (r: Option<Symbol>)
        ensures
            r == self.cur().symbol,
    {
        self.current.symbol
    }

    /// Append a node whose children are earlier nodes and return its id. The
    /// node's operands must have the kinds its grammar rule gives them unless
    /// the arena already holds a node from outside the rules.
    fn push(&mut self, kind: NodeKind, span: Span, children: Vec<NodeId>) -> (id: NodeId)
        requires
            old(self).wf(),
            span.start <= old(self).src().len(),
            span.end <= old(self).src().len(),
            ids_below(children@, old(self).arena().len() as int),
            kind_refs_below(kind, old(self).arena().len() as int),
            old(self).built_by_rules() && old(self).arena().len() < u32::MAX + 1 ==> kind_sorted(
                kind,
                old(self).arena(),
            ),
        ensures
            old(self).steps_to(*final(self)),
            final(self).arena() == old(self).arena().push(
                CstNode { id, kind, span, children },
            ),
            final(self).diags() == old(self).diags(),
            final(self).measure() == old(self).measure(),
            final(self).cur() == old(self).cur(),
            final(self).peeked() == old(self).peeked(),
            final(self).next_kind() == old(self).next_kind(),
            final(self).next2_kind() == old(self).next2_kind(),
            final(self).pos() == old(self).pos(),
            id.0 < final(self).arena().len(),
            old(self).arena().len() <= u32::MAX ==> id.0 == old(self).arena().len(),
    {
        let n = self.nodes.len();
        #[verifier::truncate]
        let id = NodeId(n as u32);
        let ghost old_nodes = self.nodes@;
        let node = CstNode { id, kind, span, children };
        self.nodes.push(node);
        proof {
            let len = self.lexer.src().len() as int;
            assert forall|i: int| 0 <= i < self.nodes@.len() implies #[trigger] node_ok(
                self.nodes@,
                i,
                len,
            ) by {
                if i < old_nodes.len() {
                    assert(self.nodes@[i] == old_nodes[i]);
                    assert(node_ok(old_nodes, i, len));
                } else {
                    assert(self.nodes@[i] == node);
                }
            }
            if self.by_rules@ && self.nodes@.len() <= u32::MAX + 1 {
                assert(arena_grows(old_nodes, self.nodes@));
                assert forall|i: int| 0 <= i < self.nodes@.len() implies #[trigger] kind_sorted(
                    self.nodes@[i].kind,
                    self.nodes@,
                ) by {
                    if i < old_nodes.len() {
                        assert(self.nodes@[i] == old_nodes[i]);
                        assert(node_ok(old_nodes, i, len));
                        lemma_kind_sorted_grows(old_nodes[i].kind, old_nodes, self.nodes@, i);
                    } else {
                        lemma_kind_sorted_grows(kind, old_nodes, self.nodes@, old_nodes.len() as int);
                    }
                }
            }
        }
        id
    }

    /// Append a node whose children are earlier nodes and return its id. A
    /// node whose operands do not have the kinds its grammar rule gives them
    /// marks the arena as no longer built by the rules alone.
    pub fn push_node(&mut self, kind: NodeKind, span: Span, children: Vec<NodeId>) -> (id: NodeId)
        requires
            old(self).wf(),
            span.start <= old(self).src().len(),
            span.end <= old(self).src().len(),
            ids_below(children@, old(self).arena().len() as int),
            kind_refs_below(kind, old(self).arena().len() as int),
        ensures
            final(self).wf(),
            final(self).src() == old(self).src(),
            final(self).arena() == old(self).arena().push(
                CstNode { id, kind, span, children },
            ),
            final(self).diags() == old(self).diags(),
            final(self).measure() == old(self).measure(),
            final(self).cur() == old(self).cur(),
            final(self).peeked() == old(self).peeked(),
            final(self).built_by_rules() == (old(self).built_by_rules() && (old(self).arena().len()
                < u32::MAX + 1 ==> kind_sorted(kind, old(self).arena()))),
            id.0 < final(self).arena().len(),
            old(self).arena().len() <= u32::MAX ==> id.0 == old(self).arena().len(),
    {
        proof {
            self.by_rules@ = self.by_rules@ && (self.nodes@.len() < u32::MAX + 1 ==> kind_sorted(
                kind,
                self.nodes@,
            ));
        }
        self.push(kind, span, children)
    }

    /// The span of an earlier node.
    pub fn node_span(&self, id: NodeId) -> (r: Span)
        requires
            self.wf(),
            id.0 < self.arena().len(),
        ensures
            r == self.arena()[id.0 as int].span,
            r.start <= self.src().len(),
            r.end <= self.src().len(),
    {
        proof {
            assert(node_ok(self.nodes@, id.0 as int, self.lexer.src().len() as int));
        }
        self.nodes[id.0 as usize].span
    }

    spec fn ck_ok(&self, ck: ParserCheckpoint) -> bool {
        let len = self.lexer.src().len();
        &&& 0 <= ck.lexer_ck.state().pos <= len
        &&& ck.current.span.start <= ck.current.span.end <= len
        &&& ck.peek matches Some(p) && p.span.start <= p.span.end <= len && (p.kind
            == TokenKind::Eof ==> ck.lexer_ck.state().pos == len
            && ck.lexer_ck.state().string_mode is None)
    }

    spec fn ck_measure(&self, ck: ParserCheckpoint) -> nat {
        (lex_measure(self.lexer.src(), ck.lexer_ck.state()) + token_weight(ck.current.kind)
            + match ck.peek {
            Some(t) => token_weight(t.kind),
            None => 0nat,
        }) as nat
    }

    /// The cursor a checkpoint returns to.
    spec fn ck_pos(&self, ck: ParserCheckpoint) -> Cursor {
        Cursor {
            cur: tok(ck.current.kind, ck.current.span.start as int, ck.current.span.end as int),
            next: match ck.peek {
                Some(t) => tok(t.kind, t.span.start as int, t.span.end as int),
                None => tok(TokenKind::Eof, 0, 0),
            },
            lex: ck.lexer_ck.state(),
        }
    }

    fn checkpoint(&self) -> (ck: ParserCheckpoint)
        requires
            self.wf(),
        ensures
            self.ck_pos(ck) == self.pos(),
            self.ck_ok(ck),
            self.ck_measure(ck) == self.measure(),
            ck.current == self.cur(),
    {
        ParserCheckpoint { current: self.current, peek: self.peek, lexer_ck: self.lexer.checkpoint() }
    }

    fn restore(&mut self, ck: ParserCheckpoint)
        requires
            old(self).wf(),
            old(self).ck_ok(ck),
        ensures
            final(self).wf(),
            final(self).src() == old(self).src(),
            final(self).arena() == old(self).arena(),
            final(self).diags() == old(self).diags(),
            final(self).measure() == old(self).ck_measure(ck),
            final(self).cur() == ck.current,
            final(self).pos() == old(self).ck_pos(ck),
            final(self).built_by_rules() == old(self).built_by_rules(),
    {
        self.current = ck.current;
        self.peek = ck.peek;
        self.lexer.restore(ck.lexer_ck);
    }

    /// Report an error at the current token and return it.
    pub fn error(&mut self, message: String) -> (e: ParseError)
        requires
            old(self).wf(),
        ensures
            old(self).steps_to(*final(self)),
            final(self).arena() == old(self).arena(),
            final(self).measure() == old(self).measure(),
            final(self).cur() == old(self).cur(),
            final(self).peeked() == old(self).peeked(),
            final(self).diags().len() == old(self).diags().len() + 1,
            final(self).diags() == old(self).diags().push(final(self).diags().last()),
            final(self).diags().last().severity == Severity::Error,
            final(self).diags().last().code@ == "parse-error"@,
            final(self).diags().last().message@ == message@,
            final(self).diags().last().primary == old(self).cur().span,
            e.span == old(self).cur().span,
            e.message == message,
    {
        let span = self.current_span();
        let msg = message.clone();
        self.diagnostics.push(Diagnostic::error("parse-error", msg, span));
        ParseError { message, span }
    }

    /// Consume the current token when it has the expected kind; otherwise
    /// report an error.
    pub fn expect(&mut self, kind: TokenKind) -> (r: Result<(), ParseError>)
        requires
            old(self).wf(),
        ensures
            old(self).steps_to(*final(self)),
            final(self).arena() == old(self).arena(),
            r is Ok <==> old(self).cur().kind == kind,
            r is Ok ==> old(self).peeked() == Some(final(self).cur()),
            r is Ok ==> final(self).peek_is(old(self).next_kind()) && final(self).next_kind() == old(
                self,
            ).next2_kind() && final(self).diags() == old(self).diags(),
            r is Ok && kind != TokenKind::Eof ==> final(self).measure() < old(self).measure(),
            r is Ok ==> final(self).pos() == step(old(self).src(), old(self).pos()),
            r is Err ==> old(self).diags().len() < final(self).diags().len(),
    {
        if self.current_kind() == kind {
            self.advance();
            Ok(())
        } else {
            let found = self.current_kind();
            let msg = expected_found_message(kind, found);
            Err(self.error(msg))
        }
    }

    /// Consume tokens until one of `sync_tokens` or the end.
    pub fn skip_until(&mut self, sync_tokens: &[TokenKind])
        requires
            old(self).wf(),
        ensures
            old(self).steps_to(*final(self)),
            final(self).arena() == old(self).arena(),
            final(self).diags() == old(self).diags(),
            final(self).cur().kind == TokenKind::Eof || kind_in(
                sync_tokens@,
                final(self).cur().kind,
            ),
    {
        let ghost start = *self;
        while self.current_kind() != TokenKind::Eof
            invariant
                start.steps_to(*self),
                self.arena() == start.arena(),
                self.diags() == start.diags(),
            ensures
                self.cur().kind == TokenKind::Eof || kind_in(sync_tokens@, self.cur().kind),
            decreases self.measure(),
        {
            if contains_kind(sync_tokens, self.current_kind()) {
                break;
            }
            self.advance();
        }
    }

    /// Parse an identifier into an `Ident` node.
    pub fn parse_identifier(&mut self) -> (r: Result<NodeId, ParseError>)
        requires
            old(self).wf(),
        ensures
            old(self).yields(*final(self), r),
            final(self).named(r) matches Some(n) ==> n.kind == NodeKind::Ident(old(self).cur().span),
            r is Ok <==> old(self).cur().kind == TokenKind::Identifier,
            r is Ok ==> final(self).pos() == step(old(self).src(), old(self).pos())
                && final(self).diags() == old(self).diags(),
    {
        let span = self.current_span();
        self.expect(TokenKind::Identifier)?;
        Ok(self.push(NodeKind::Ident(span), span, Vec::new()))
    }
}

impl<'a> Parser<'a> {
    /// The exec value of `measure`.
    fn remaining(&self) -> (r: u128)
        requires
            self.wf(),
        ensures
            r == self.measure(),
    {
        let lm = self.lexer.remaining();
        let c: u128 = if self.current.kind == TokenKind::Eof {
            0
        } else {
            1
        };
        let p: u128 = match self.peek {
            Some(t) => if t.kind == TokenKind::Eof {
                0
            } else {
                1
            },
            None => 0,
        };
        lm + c + p
    }

    /// Parse the whole file into a `Module` node. Declarations that fail to
    /// parse are reported and skipped up to the next `struct`, `enum` or
    /// `exports`; recovery always moves forward.
    #[verifier::rlimit(60)]
    pub fn parse_file(&mut self) -> (r: Result<NodeId, ParseError>)
        requires
            old(self).wf(),
        ensures
            old(self).steps_to(*final(self)),
            r matches Ok(id) && id.0 < final(self).arena().len(),
            final(self).named(r) matches Some(n) ==> n.kind is Module && final(self).all_decls(
                n.children@,
            ),
            old(self).cur().kind == TokenKind::Eof ==> final(self).diags() == old(self).diags(),
            old(self).cur().kind == TokenKind::Error ==> final(self).diags().len() > old(
                self,
            ).diags().len(),
            file_at(old(self).src(), old(self).pos()) matches Some(ds) ==> final(self).diags()
                == old(self).diags() && (r matches Ok(id) && (final(self).ids_exact() ==> module_is(
                final(self).arena(),
                id,
                ds,
            ))),
    {
        let start = self.current_span().start;
        let mut stmts: Vec<NodeId> = Vec::new();
        let ghost entry = *self;
        let ghost s = self.src();
        reveal(file_at);
        let ghost ok = file_at(s, entry.pos()) is Some;
        let ghost ds: Seq<DeclTree> = file_at(s, entry.pos())->0;
        while self.current_kind() != TokenKind::Eof
            invariant
                entry == *old(self),
                entry.steps_to(*self),
                ids_below(stmts@, self.arena().len() as int),
                self.all_decls(stmts@),
                start <= self.src().len(),
                entry.cur().kind == TokenKind::Eof ==> *self == entry,
                entry.cur().kind == TokenKind::Error ==> (*self == entry || self.diags().len()
                    > entry.diags().len()),
                s == self.src(),
                ok ==> file_at(s, entry.pos()) == Some(ds),
                ok ==> (self.cur().kind == TokenKind::Eof ==> stmts@.len() == ds.len()),
                ok ==> stmts@.len() <= ds.len() && file_at(s, self.pos()) == Some(
                    ds.subrange(stmts@.len() as int, ds.len() as int),
                ) && self.diags() == entry.diags() && (self.ids_exact() ==> forall|i: int|
                    0 <= i < stmts@.len() ==> decl_is(self.arena(), #[trigger] stmts@[i], ds[i])),
            ensures
                entry.cur().kind == TokenKind::Eof ==> *self == entry,
                entry.cur().kind == TokenKind::Error ==> self.diags().len() > entry.diags().len(),
                ok ==> stmts@.len() == ds.len() && self.diags() == entry.diags() && (
                    self.ids_exact() ==> forall|i: int|
                    0 <= i < stmts@.len() ==> decl_is(self.arena(), #[trigger] stmts@[i], ds[i])),
            decreases self.measure(),
        {
            let before = self.remaining();
            let ghost k = stmts@.len() as int;
            let ghost a0 = self.arena();
            let ghost c = self.pos();
            proof {
                self.lemma_pos();
            }
            reveal(file_at);
            match self.parse_declaration() {
                Ok(stmt) => {
                    stmts.push(stmt);
                    proof {
                        if ok {
                            let (d, c1) = decl_at(s, c)->0;
                            let rest = file_at(s, c1)->0;
                            let sub = ds.subrange(k, ds.len() as int);
                            assert(sub == seq![d] + rest);
                            assert(sub[0] == ds[k]);
                            assert(ds[k] == d);
                            assert forall|i: int| 0 <= i < rest.len() implies rest[i] == ds.subrange(
                                k + 1,
                                ds.len() as int,
                            )[i] by {
                                assert(sub[i + 1] == (seq![d] + rest)[i + 1]);
                            }
                            assert(rest =~= ds.subrange(k + 1, ds.len() as int));
                            if self.ids_exact() {
                                assert forall|i: int| 0 <= i < stmts@.len() implies decl_is(
                                    self.arena(),
                                    #[trigger] stmts@[i],
                                    ds[i],
                                ) by {
                                    if i < k {
                                        lemma_decl_grows(a0, self.arena(), stmts@[i], ds[i]);
                                    }
                                }
                            }
                        }
                    }
                },
                Err(_) => {
                    let sync = vec![TokenKind::Struct, TokenKind::Enum, TokenKind::Exports];
                    self.skip_until(sync.as_slice());
                    if self.current_kind() == TokenKind::Eof {
                        break ;
                    }
                    if self.remaining() == before {
                        self.advance();
                    }
                },
            }
        }
        let span = Span::new(start, self.current_span().end);
        let ghost pre = self.nodes@;
        let ghost st = stmts@;
        let module = self.push(NodeKind::Module, span, stmts);
        proof {
            if ok && self.ids_exact() {
                assert forall|i: int| 0 <= i < ds.len() implies decl_is(
                    self.arena(),
                    #[trigger] self.arena()[module.0 as int].children@[i],
                    ds[i],
                ) by {
                    lemma_decl_grows(pre, self.arena(), st[i], ds[i]);
                }
            }
        }
        Ok(module)
    }

    /// Parse a statement inside a block (an expression or a declaration).
    pub fn parse_stmt(&mut self) -> (r: Result<NodeId, ParseError>)
        requires
            old(self).wf(),
        ensures
            old(self).yields(*final(self), r),
            final(self).named(r) matches Some(n) ==> decl_node_kind(n.kind),
    {
        self.parse_declaration()
    }

    /// Parse one declaration: an import, an export, a function, struct or
    /// enum definition, a constant assignment, or an expression statement.
    #[verifier::rlimit(60)]
    pub fn parse_declaration(&mut self) -> (r: Result<NodeId, ParseError>)
        requires
            old(self).wf(),
        ensures
            old(self).yields(*final(self), r),
            final(self).named(r) matches Some(n) ==> decl_node_kind(n.kind),
            old(self).cur().kind == TokenKind::Error ==> r is Err,
            decl_at(old(self).src(), old(self).pos()) matches Some((d, q)) ==> r matches Ok(id)
                && final(self).pos() == q && final(self).diags() == old(self).diags() && (
                final(self).ids_exact() ==> decl_is(final(self).arena(), id, d)),
        decreases old(self).measure(), 10nat,
    {
        let ghost s = self.src();
        let ghost c = self.pos();
        proof {
            self.lemma_pos();
        }
        let annotations = self.parse_annotations()?;
        if self.current_kind() == TokenKind::LBrace {
            if annotations.len() > 0 {
                return Err(self.error(String::from_str("annotations are not supported on imports")));
            }
            return self.parse_import();
        }
        if self.current_kind() == TokenKind::Exports {
            if annotations.len() > 0 {
                return Err(self.error(String::from_str("annotations are not supported on exports")));
            }
            return self.parse_export();
        }
        if annotations.len() > 0 && self.current_kind() != TokenKind::Identifier {
            return Err(self.error(String::from_str("expected a declaration after annotation")));
        }
        if self.current_kind() == TokenKind::Identifier {
            let ck = self.checkpoint();
            let name_span = self.current_span();
            let name = self.parse_identifier()?;
            let ghost a_name = self.arena();
            proof {
                self.lemma_pos();
            }
            if self.current_kind() == TokenKind::Eq {
                self.advance();
                proof {
                    self.lemma_pos();
                }
                if self.current_kind() == TokenKind::LParen && self.starts_function_definition() {
                    return self.parse_function_def_after_name(name, name_span, annotations);
                } else if self.current_kind() == TokenKind::Struct {
                    self.advance();
                    return self.parse_struct_def_after_name(name, name_span, annotations);
                } else if self.current_kind() == TokenKind::Enum {
                    self.advance();
                    return self.parse_enum_def_after_name(name, name_span, annotations);
                } else {
                    let value = self.parse_expr(0)?;
                    let ghost a_value = self.arena();
                    let id = self.make_assignment(annotations, name, None, value);
                    proof {
                        if decl_at(s, c) is Some && self.ids_exact() {
                            let e = (expr_at(s, step(s, step(s, c)), 0)->0).0;
                            lemma_tree_grows(a_value, self.arena(), value, e);
                            assert(self.arena()[name.0 as int] == a_name[name.0 as int]);
                        }
                    }
                    return Ok(id);
                }
            } else if self.current_kind() == TokenKind::Colon {
                self.advance();
                proof {
                    self.lemma_pos();
                }
                if self.current_kind() == TokenKind::Struct {
                    self.advance();
                    return self.parse_struct_def_after_name(name, name_span, annotations);
                } else if self.current_kind() == TokenKind::Enum {
                    self.advance();
                    return self.parse_enum_def_after_name(name, name_span, annotations);
                } else {
                    let type_annotation = self.parse_type()?;
                    let ghost a_type = self.arena();
                    proof {
                        self.lemma_pos();
                    }
                    self.expect(TokenKind::Eq)?;
                    let value = self.parse_expr(0)?;
                    let ghost a_value = self.arena();
                    let id = self.make_assignment(annotations, name, Some(type_annotation), value);
                    proof {
                        if decl_at(s, c) is Some && self.ids_exact() {
                            let c2 = step(s, step(s, c));
                            let e = (expr_at(s, step(s, step(s, c2)), 0)->0).0;
                            lemma_tree_grows(a_value, self.arena(), value, e);
                            assert(self.arena()[name.0 as int] == a_name[name.0 as int]);
                            assert(self.arena()[type_annotation.0 as int]
                                == a_type[type_annotation.0 as int]);
                        }
                    }
                    return Ok(id);
                }
            } else {
                self.restore(ck);
                if annotations.len() > 0 {
                    return Err(self.error(String::from_str("expected a declaration after annotation")));
                }
            }
        }
        let expr = self.parse_expr(0)?;
        let span = self.node_span(expr);
        let ghost before = self.arena();
        let stmt = self.push(NodeKind::ExprStmt { expr }, span, vec![expr]);
        proof {
            if decl_at(s, c) is Some && self.ids_exact() {
                let e = (expr_at(s, c, 0)->0).0;
                lemma_tree_grows(before, self.arena(), expr, e);
            }
        }
        Ok(stmt)
    }

    /// Build a constant assignment, keeping an optional type annotation.
    fn make_assignment(
        &mut self,
        annotations: Vec<NodeId>,
        target: NodeId,
        type_annotation: Option<NodeId>,
        value: NodeId,
    ) -> (id: NodeId)
        requires
            old(self).wf(),
            ids_below(annotations@, old(self).arena().len() as int),
            target.0 < old(self).arena().len(),
            value.0 < old(self).arena().len(),
            type_annotation matches Some(t) ==> t.0 < old(self).arena().len(),
            old(self).all_kind(annotations@, |k: NodeKind| k is Annotation),
            old(self).node_kind_ok(target, |k: NodeKind| k is Ident),
            old(self).node_kind_ok(value, |k: NodeKind| expr_node_kind(k)),
            type_annotation matches Some(t) ==> old(self).node_kind_ok(
                t,
                |k: NodeKind| type_node_kind(k),
            ),
        ensures
            old(self).steps_to(*final(self)),
            final(self).measure() == old(self).measure(),
            final(self).diags() == old(self).diags(),
            final(self).pos() == old(self).pos(),
            id.0 < final(self).arena().len(),
            final(self).named(Ok(id)) matches Some(n) ==> n.kind == (NodeKind::AssignStmt {
                annotations,
                target,
                type_annotation,
                value,
            }),
    {
        let start = self.declaration_start(&annotations, self.node_span(target).start);
        let span = Span::new(start, self.node_span(value).end);
        let mut children = copy_ids(&annotations);
        children.push(target);
        match type_annotation {
            Some(type_id) => {
                children.push(type_id);
            },
            None => {},
        }
        children.push(value);
        self.push(
            NodeKind::AssignStmt { annotations, target, type_annotation, value },
            span,
            children,
        )
    }

    /// Where a declaration starts: at its first annotation, else at `fallback`.
    fn declaration_start(&self, annotations: &Vec<NodeId>, fallback: usize) -> (r: usize)
        requires
            self.wf(),
            ids_below(annotations@, self.arena().len() as int),
            fallback <= self.src().len(),
        ensures
            r <= self.src().len(),
            r == if annotations@.len() > 0 {
                self.arena()[annotations@[0].0 as int].span.start
            } else {
                fallback
            },
    {
        if annotations.len() > 0 {
            self.node_span(annotations[0]).start
        } else {
            fallback
        }
    }

    /// After `name =`, a parameter list `()` followed by `->` or `{`, or one
    /// that starts with `identifier :`, begins a function definition.
    fn starts_function_definition(&mut self) -> (r: bool)
        requires
            old(self).wf(),
        ensures
            old(self).steps_to(*final(self)),
            final(self).arena() == old(self).arena(),
            final(self).diags() == old(self).diags(),
            final(self).measure() == old(self).measure(),
            final(self).cur() == old(self).cur(),
            final(self).pos() == old(self).pos(),
            r == (old(self).cur().kind == TokenKind::LParen && ((old(self).peek_is(TokenKind::RParen)
                && (old(self).next_kind() == TokenKind::Arrow || old(self).next_kind()
                == TokenKind::LBrace)) || (old(self).peek_is(TokenKind::Identifier)
                && old(self).next_kind() == TokenKind::Colon))),
    {
        let checkpoint = self.checkpoint();
        let ghost entry = *self;
        let starts = if self.current_kind() != TokenKind::LParen {
            false
        } else {
            self.advance();
            if self.current_kind() == TokenKind::RParen {
                self.advance();
                self.current_kind() == TokenKind::Arrow || self.current_kind() == TokenKind::LBrace
            } else {
                self.current_kind() == TokenKind::Identifier && self.peek_kind() == Some(
                    TokenKind::Colon,
                )
            }
        };
        self.restore(checkpoint);
        starts
    }
}

impl<'a> Parser<'a> {
    /// Parse an import: `{ name name = alias ... } = path`.
    pub fn parse_import(&mut self) -> (r: Result<NodeId, ParseError>)
        requires
            old(self).wf(),
        ensures
            old(self).yields(*final(self), r),
            final(self).named(r) matches Some(n) ==> n.kind is ImportDecl,
    {
        let ghost entry = *self;
        let start = self.current_span().start;
        self.expect(TokenKind::LBrace)?;
        let mut items: Vec<NodeId> = Vec::new();
        while self.current_kind() != TokenKind::RBrace && self.current_kind() != TokenKind::Eof
            invariant
                entry == *old(self),
                entry.steps_to(*self),
                self.measure() < entry.measure(),
                ids_below(items@, self.arena().len() as int),
                start <= self.src().len(),
            decreases self.measure(),
        {
            let name_span = self.current_span();
            let name = self.parse_identifier()?;
            let alias = if self.current_kind() == TokenKind::Eq {
                self.advance();
                Some(self.parse_identifier()?)
            } else {
                None
            };
            let item_span = match alias {
                Some(alias_id) => Span::new(name_span.start, self.node_span(alias_id).end),
                None => name_span,
            };
            let mut item_children = vec![name];
            match alias {
                Some(alias_id) => {
                    item_children.push(alias_id);
                },
                None => {},
            }
            let item_node = self.push(
                NodeKind::ImportItem { name: name_span, alias },
                item_span,
                item_children,
            );
            items.push(item_node);
        }
        self.expect(TokenKind::RBrace)?;
        self.expect(TokenKind::Eq)?;
        let source = self.parse_path()?;
        let span = Span::new(start, self.node_span(source).end);
        let mut children = vec![source];
        append_ids(&mut children, &items);
        Ok(self.push(NodeKind::ImportDecl, span, children))
    }

    /// Parse an export list: `exports { name ... }`.
    pub fn parse_export(&mut self) -> (r: Result<NodeId, ParseError>)
        requires
            old(self).wf(),
        ensures
            old(self).yields(*final(self), r),
            final(self).named(r) matches Some(n) ==> n.kind is ExportDecl,
    {
        let ghost entry = *self;
        let start = self.current_span().start;
        self.expect(TokenKind::Exports)?;
        self.expect(TokenKind::LBrace)?;
        let mut items: Vec<NodeId> = Vec::new();
        while self.current_kind() != TokenKind::RBrace && self.current_kind() != TokenKind::Eof
            invariant
                entry == *old(self),
                entry.steps_to(*self),
                self.measure() < entry.measure(),
                ids_below(items@, self.arena().len() as int),
                start <= self.src().len(),
            decreases self.measure(),
        {
            let item = self.parse_identifier()?;
            items.push(item);
        }
        let close = self.current_span();
        self.expect(TokenKind::RBrace)?;
        let span = Span::new(start, close.end);
        Ok(self.push(NodeKind::ExportDecl, span, items))
    }

    /// Parse an import source: `@scope`, `@scope/pkg`, `@/pkg` or `./name`.
    #[verifier::rlimit(40)]
    fn parse_path(&mut self) -> (r: Result<NodeId, ParseError>)
        requires
            old(self).wf(),
        ensures
            old(self).yields(*final(self), r),
            final(self).named(r) matches Some(n) ==> n.kind is Ident,
    {
        let start = self.current_span().start;
        if self.current_kind() == TokenKind::At {
            self.advance();
            if self.current_kind() == TokenKind::Slash {
                self.advance();
            }
            if self.current_kind() == TokenKind::Identifier {
                self.advance();
            } else {
                return Err(self.error(String::from_str("expected scope name")));
            }
            if self.current_kind() == TokenKind::Slash {
                self.advance();
                if self.current_kind() == TokenKind::Identifier {
                    self.advance();
                } else {
                    return Err(self.error(String::from_str("expected package name")));
                }
            }
            let span = Span::new(start, self.current_span().start);
            Ok(self.push(NodeKind::Ident(span), span, Vec::new()))
        } else if self.current_kind() == TokenKind::Dot {
            self.advance();
            self.expect(TokenKind::Slash)?;
            let name = self.parse_identifier()?;
            let span = Span::new(start, self.node_span(name).end);
            Ok(self.push(NodeKind::Ident(span), span, vec![name]))
        } else {
            Err(self.error(String::from_str("expected import source path")))
        }
    }

    /// Parse zero or more `#[name]`, `#[name = value]` or
    /// `#[name value, key = value]` prefixes.
    pub fn parse_annotations(&mut self) -> (r: Result<Vec<NodeId>, ParseError>)
        requires
            old(self).wf(),
        ensures
            old(self).steps_to(*final(self)),
            match r {
                Ok(v) => ids_below(v@, final(self).arena().len() as int) && (v@.len() > 0
                    ==> final(self).measure() < old(self).measure()) && final(self).all_kind(
                    v@,
                    |k: NodeKind| k is Annotation,
                ) && final(self).cur().kind != TokenKind::Hash && (v@.len() > 0 <==> old(self).cur().kind
                    == TokenKind::Hash),
                Err(_) => old(self).diags().len() < final(self).diags().len(),
            },
            old(self).cur().kind != TokenKind::Hash ==> r is Ok && *final(self) == *old(self),
        decreases old(self).measure(), 2nat,
    {
        let ghost entry = *self;
        let mut annotations: Vec<NodeId> = Vec::new();
        while self.current_kind() == TokenKind::Hash
            invariant
                entry == *old(self),
                entry.steps_to(*self),
                ids_below(annotations@, self.arena().len() as int),
                annotations@.len() > 0 ==> self.measure() < entry.measure(),
                self.all_kind(annotations@, |k: NodeKind| k is Annotation),
                annotations@.len() == 0 ==> *self == entry,
                annotations@.len() > 0 ==> entry.cur().kind == TokenKind::Hash,
            decreases self.measure(),
        {
            let ghost iter_m = self.measure();
            let start = self.current_span().start;
            self.advance();
            self.expect(TokenKind::LBracket)?;
            let name_span = self.current_span();
            let name = self.parse_identifier()?;
            let mut arguments: Vec<NodeId> = Vec::new();
            if self.current_kind() != TokenKind::RBracket {
                if self.current_kind() == TokenKind::Eq {
                    self.advance();
                }
                let first = self.parse_annotation_argument(None)?;
                arguments.push(first);
                while self.current_kind() == TokenKind::Comma
                    invariant
                        entry == *old(self),
                        entry.steps_to(*self),
                        self.measure() < entry.measure(),
                        self.measure() < iter_m,
                        ids_below(annotations@, self.arena().len() as int),
                        ids_below(arguments@, self.arena().len() as int),
                        self.all_kind(annotations@, |k: NodeKind| k is Annotation),
                        self.all_kind(arguments@, |k: NodeKind| k is AnnotationArg),
                        entry.cur().kind == TokenKind::Hash,
                        name.0 < self.arena().len(),
                        start <= self.src().len(),
                        name_span.start <= name_span.end <= self.src().len(),
                    decreases self.measure(),
                {
                    self.advance();
                    if self.current_kind() == TokenKind::RBracket {
                        break ;
                    }
                    let key = if self.current_kind() == TokenKind::Identifier && self.peek_kind()
                        == Some(TokenKind::Eq) {
                        let key_span = self.current_span();
                        self.advance();
                        self.advance();
                        Some(key_span)
                    } else {
                        None
                    };
                    let arg = self.parse_annotation_argument(key)?;
                    arguments.push(arg);
                }
            }
            let close_span = self.current_span();
            self.expect(TokenKind::RBracket)?;
            let span = Span::new(start, close_span.end);
            let mut children = vec![name];
            append_ids(&mut children, &arguments);
            let annotation = self.push(
                NodeKind::Annotation { name: name_span, arguments },
                span,
                children,
            );
            annotations.push(annotation);
        }
        Ok(annotations)
    }

    /// Parse one annotation argument after its optional name and `=`.
    fn parse_annotation_argument(&mut self, name: Option<Span>) -> (r: Result<NodeId, ParseError>)
        requires
            old(self).wf(),
            name matches Some(n) ==> n.start <= old(self).src().len(),
        ensures
            old(self).yields(*final(self), r),
            final(self).named(r) matches Some(n) ==> n.kind matches NodeKind::AnnotationArg { name: a, .. } && a == name,
        decreases old(self).measure(), 7nat,
    {
        let value = self.parse_expr(0)?;
        let value_span = self.node_span(value);
        let start = match name {
            Some(n) => n.start,
            None => value_span.start,
        };
        let span = Span::new(start, value_span.end);
        Ok(self.push(NodeKind::AnnotationArg { name, value }, span, vec![value]))
    }
}

impl<'a> Parser<'a> {
    /// Parse an expression whose binary operators bind at least as tightly
    /// as `min_prec` (precedence climbing), with calls, chains, indexing
    /// and match arms as postfix forms.
    #[verifier::rlimit(80)]
    pub fn parse_expr(&mut self, min_prec: u8) -> (r: Result<NodeId, ParseError>)
        requires
            old(self).wf(),
        ensures
            old(self).yields(*final(self), r),
            final(self).named(r) matches Some(n) ==> expr_node_kind(n.kind),
            old(self).cur().kind == TokenKind::Error ==> r is Err,
            expr_at(old(self).src(), old(self).pos(), min_prec) matches Some((t, q)) ==> r matches Ok(
                id,
            ) && final(self).pos() == q && final(self).diags() == old(self).diags() && (
                final(self).ids_exact() ==> tree_is(final(self).arena(), id, t)),
        decreases old(self).measure(), 6nat,
    {
        let ghost entry = *self;
        let ghost s = self.src();
        let ghost c0 = self.pos();
        proof {
            self.lemma_pos();
        }
        reveal(expr_at);
        reveal(prefix_at);
        reveal(atom_at);
        reveal(climb);
        let mut lhs = self.parse_prefix()?;
        let ghost mut lt: ExprTree = (prefix_at(s, c0)->0).0;
        loop
            invariant
                entry == *old(self),
                entry.steps_to(*self),
                self.measure() < entry.measure(),
                lhs.0 < self.arena().len(),
                self.named(Ok::<NodeId, ParseError>(lhs)) matches Some(n) ==> expr_node_kind(n.kind),
                s == self.src(),
                s == entry.src(),
                c0 == entry.pos(),
                expr_at(s, c0, min_prec) matches Some((t, q)) ==> climb(s, lt, self.pos(), min_prec)
                    == Some((t, q)) && self.diags() == entry.diags() && (self.ids_exact() ==> tree_is(
                    self.arena(),
                    lhs,
                    lt,
                )),
            ensures
                entry.steps_to(*self),
                self.measure() < entry.measure(),
                lhs.0 < self.arena().len(),
                self.named(Ok::<NodeId, ParseError>(lhs)) matches Some(n) ==> expr_node_kind(n.kind),
                expr_at(s, c0, min_prec) matches Some((t, q)) ==> self.pos() == q && self.diags()
                    == entry.diags() && (self.ids_exact() ==> tree_is(self.arena(), lhs, t)),
            decreases self.measure(),
        {
            proof {
                self.lemma_pos();
            }
            reveal(expr_at);
            reveal(prefix_at);
            reveal(atom_at);
            reveal(climb);
            let kind = self.current_kind();
            if kind == TokenKind::LParen {
                lhs = self.parse_call(lhs)?;
                continue ;
            }
            if kind == TokenKind::Dot {
                lhs = self.parse_chain(lhs)?;
                continue ;
            }
            if kind == TokenKind::LBracket {
                lhs = self.parse_index(lhs)?;
                continue ;
            }
            if kind == TokenKind::LBrace && !self.suppress_match_postfix {
                lhs = self.parse_match_expr(lhs)?;
                continue ;
            }
            match prec_of(kind) {
                Some((prec, assoc)) => {
                    if prec < min_prec {
                        break ;
                    }
                    let next_min = match assoc {
                        Assoc::Left => prec + 1,
                        Assoc::Right => prec,
                    };
                    let op_token = self.current;
                    let ghost c = self.pos();
                    let ghost a1 = self.arena();
                    self.advance();
                    let rhs = self.parse_expr(next_min)?;
                    let span = Span::new(self.node_span(lhs).start, self.node_span(rhs).end);
                    let ghost before = self.arena();
                    let ghost lhs_prev = lhs;
                    lhs = self.push(
                        NodeKind::BinaryOp { op: op_token.span, lhs, rhs },
                        span,
                        vec![lhs, rhs],
                    );
                    proof {
                        if expr_at(s, c0, min_prec) is Some {
                            let rt = (expr_at(s, step(s, c), next_min)->0).0;
                            if self.ids_exact() {
                                assert(forall|i: int|
                                    0 <= i < a1.len() ==> #[trigger] before[i] == a1[i]);
                                lemma_tree_grows(a1, self.arena(), lhs_prev, lt);
                                lemma_tree_grows(before, self.arena(), rhs, rt);
                            }
                            lt = ExprTree::Binary(
                                c.cur.start,
                                c.cur.end,
                                Box::new(lt),
                                Box::new(rt),
                            );
                        }
                    }
                },
                None => {
                    break ;
                },
            }
        }
        Ok(lhs)
    }

    /// Parse a prefix expression: unary `-` or `not`, or an atom.
    #[verifier::rlimit(40)]
    fn parse_prefix(&mut self) -> (r: Result<NodeId, ParseError>)
        requires
            old(self).wf(),
        ensures
            old(self).yields(*final(self), r),
            final(self).named(r) matches Some(n) ==> expr_node_kind(n.kind),
            old(self).cur().kind == TokenKind::Error ==> r is Err,
            prefix_at(old(self).src(), old(self).pos()) matches Some((t, q)) ==> r matches Ok(id)
                && final(self).pos() == q && final(self).diags() == old(self).diags() && (
                final(self).ids_exact() ==> tree_is(final(self).arena(), id, t)),
        decreases old(self).measure(), 5nat,
    {
        proof {
            self.lemma_pos();
        }
        reveal(expr_at);
        reveal(prefix_at);
        reveal(atom_at);
        reveal(climb);
        let token = self.current;
        if token.kind == TokenKind::Minus || token.kind == TokenKind::Not {
            let ghost c = self.pos();
            self.advance();
            let operand = self.parse_prefix()?;
            let span = Span::new(token.span.start, self.node_span(operand).end);
            let ghost before = self.arena();
            let id = self.push(NodeKind::UnaryOp { op: token.span, expr: operand }, span, vec![operand]);
            proof {
                let s = old(self).src();
                if prefix_at(s, c) is Some && self.ids_exact() {
                    let e = (prefix_at(s, step(s, c))->0).0;
                    lemma_tree_grows(before, self.arena(), operand, e);
                }
            }
            Ok(id)
        } else {
            self.parse_atom()
        }
    }

    /// Parse a primary expression: a literal, a name, a quantifier, an
    /// interpolated string or a parenthesized expression.
    #[verifier::rlimit(60)]
    fn parse_atom(&mut self) -> (r: Result<NodeId, ParseError>)
        requires
            old(self).wf(),
        ensures
            old(self).yields(*final(self), r),
            final(self).named(r) matches Some(n) ==> expr_node_kind(n.kind),
            old(self).cur().kind == TokenKind::Error ==> r is Err,
            atom_at(old(self).src(), old(self).pos()) matches Some((t, q)) ==> r matches Ok(id)
                && final(self).pos() == q && final(self).diags() == old(self).diags() && (
                final(self).ids_exact() ==> tree_is(final(self).arena(), id, t)),
        decreases old(self).measure(), 4nat,
    {
        proof {
            self.lemma_pos();
        }
        reveal(expr_at);
        reveal(prefix_at);
        reveal(atom_at);
        reveal(climb);
        let token = self.current;
        match token.kind {
            TokenKind::IntLiteral => {
                self.advance();
                Ok(self.push(NodeKind::LitInteger, token.span, Vec::new()))
            },
            TokenKind::FloatLiteral => {
                self.advance();
                Ok(self.push(NodeKind::LitFloat, token.span, Vec::new()))
            },
            TokenKind::StringLiteral => {
                self.advance();
                Ok(self.push(NodeKind::LitString, token.span, Vec::new()))
            },
            TokenKind::RegexLiteral => {
                self.advance();
                Ok(self.push(NodeKind::LitRegex, token.span, Vec::new()))
            },
            TokenKind::TrueKw | TokenKind::FalseKw => {
                let value = token.kind == TokenKind::TrueKw;
                self.advance();
                Ok(self.push(NodeKind::LitBool(value), token.span, Vec::new()))
            },
            TokenKind::Identifier => {
                match self.current_quantifier_kind() {
                    Some(kind) => self.parse_quantifier(kind),
                    None => {
                        self.advance();
                        Ok(self.push(NodeKind::Ident(token.span), token.span, Vec::new()))
                    },
                }
            },
            TokenKind::StringStart => self.parse_interpolated_string(),
            TokenKind::LParen => {
                self.advance();
                let expr = self.parse_expr(0)?;
                proof {
                    self.lemma_pos();
                }
                self.expect(TokenKind::RParen)?;
                Ok(expr)
            },
            _ => {
                let msg = unexpected_message(token.kind, "expression");
                Err(self.error(msg))
            },
        }
    }

    /// The quantifier a name introduces when it is directly followed by `(`.
    fn current_quantifier_kind(&self) -> (r: Option<QuantifierKind>)
        requires
            self.wf(),
        ensures
            r is Some ==> self.cur().kind == TokenKind::Identifier,
            r == if self.cur().kind == TokenKind::Identifier && self.peek_is(TokenKind::LParen) {
                spec_quantifier_of(
                    self.src().subrange(self.cur().span.start as int, self.cur().span.end as int),
                )
            } else {
                None
            },
    {
        if self.current_kind() != TokenKind::Identifier || self.peek_kind() != Some(
            TokenKind::LParen,
        ) {
            return None;
        }
        match self.lexer.source_text(self.current_span()) {
            Some(text) => quantifier_of(text),
            None => None,
        }
    }

    /// Parse `all (...)`, `any (...)`, `one (...)` or `none (...)`: the
    /// conditions are separated by commas or line breaks.
    fn parse_quantifier(&mut self, kind: QuantifierKind) -> (r: Result<NodeId, ParseError>)
        requires
            old(self).wf(),
            old(self).cur().kind == TokenKind::Identifier,
        ensures
            old(self).yields(*final(self), r),
            final(self).named(r) matches Some(n) ==> n.kind matches NodeKind::Quantifier {
                kind: k,
                conditions: c,
            } && k == kind && final(self).all_kind(c@, |k: NodeKind| expr_node_kind(k)),
        decreases old(self).measure(), 3nat,
    {
        let ghost entry = *self;
        let start = self.current_span().start;
        self.advance();
        self.expect(TokenKind::LParen)?;
        let mut conditions: Vec<NodeId> = Vec::new();
        while self.current_kind() != TokenKind::RParen && self.current_kind() != TokenKind::Eof
            invariant
                entry == *old(self),
                entry.steps_to(*self),
                self.measure() < entry.measure(),
                ids_below(conditions@, self.arena().len() as int),
                self.all_kind(conditions@, |k: NodeKind| expr_node_kind(k)),
                start <= self.src().len(),
            decreases self.measure(),
        {
            let condition = self.parse_expr(0)?;
            let condition_end = self.node_span(condition).end;
            conditions.push(condition);
            if self.current_kind() == TokenKind::Comma {
                self.advance();
                continue ;
            }
            if self.current_kind() == TokenKind::RParen || self.current_kind() == TokenKind::Eof {
                break ;
            }
            let gap = self.lexer.source_text(Span::new(condition_end, self.current_span().start));
            let has_newline = match gap {
                Some(text) => contains_newline(text),
                None => false,
            };
            if !has_newline {
                return Err(
                    self.error(
                        String::from_str("expected comma or newline between quantifier conditions"),
                    ),
                );
            }
        }
        let close_span = self.current_span();
        self.expect(TokenKind::RParen)?;
        let span = Span::new(start, close_span.end);
        let conds = copy_ids(&conditions);
        Ok(self.push(NodeKind::Quantifier { kind, conditions: conds }, span, conditions))
    }

    /// Parse an interpolated string into its text and expression parts.
    fn parse_interpolated_string(&mut self) -> (r: Result<NodeId, ParseError>)
        requires
            old(self).wf(),
        ensures
            old(self).yields(*final(self), r),
            final(self).named(r) matches Some(n) ==> n.kind is InterpolatedString,
        decreases old(self).measure(), 3nat,
    {
        let ghost entry = *self;
        let start = self.current_span().start;
        self.expect(TokenKind::StringStart)?;
        let mut parts: Vec<InterpolatedPart> = Vec::new();
        let mut children: Vec<NodeId> = Vec::new();
        while self.current_kind() != TokenKind::StringEnd && self.current_kind() != TokenKind::Eof
            invariant
                entry == *old(self),
                entry.steps_to(*self),
                self.measure() < entry.measure(),
                ids_below(children@, self.arena().len() as int),
                forall|i: int|
                    0 <= i < parts@.len() ==> part_refs_below(
                        #[trigger] parts@[i],
                        self.arena().len() as int,
                    ),
                self.ids_exact() ==> forall|i: int|
                    0 <= i < parts@.len() ==> match #[trigger] parts@[i] {
                        InterpolatedPart::Expr(e) => expr_node_kind(self.arena()[e.0 as int].kind),
                        InterpolatedPart::Text(_) => true,
                    },
                start <= self.src().len(),
            decreases self.measure(),
        {
            let kind = self.current_kind();
            if kind == TokenKind::StringPart {
                match self.current_symbol() {
                    Some(symbol) => match self.lexer.interner().lookup(symbol) {
                        Some(bytes) => match string_from_utf8(copy_bytes(bytes)) {
                            Some(text) => {
                                parts.push(InterpolatedPart::Text(text));
                            },
                            None => {},
                        },
                        None => {},
                    },
                    None => {},
                }
                self.advance();
            } else if kind == TokenKind::ExprStart {
                self.advance();
                let expression = self.parse_expr(0)?;
                children.push(expression);
                parts.push(InterpolatedPart::Expr(expression));
                self.expect(TokenKind::ExprEnd)?;
            } else {
                let msg = unexpected_message(kind, "interpolated string");
                return Err(self.error(msg));
            }
        }
        let end = self.current_span().end;
        self.expect(TokenKind::StringEnd)?;
        Ok(self.push(NodeKind::InterpolatedString { parts }, Span::new(start, end), children))
    }

    /// Parse a call's arguments: positional `expr` or named `name = expr`.
    fn parse_call(&mut self, func: NodeId) -> (r: Result<NodeId, ParseError>)
        requires
            old(self).wf(),
            old(self).cur().kind == TokenKind::LParen,
            func.0 < old(self).arena().len(),
            old(self).node_kind_ok(func, |k: NodeKind| expr_node_kind(k)),
        ensures
            old(self).yields(*final(self), r),
            final(self).named(r) matches Some(n) ==> n.kind matches NodeKind::Call { func: f, .. } && f == func,
        decreases old(self).measure(), 3nat,
    {
        let ghost entry = *self;
        self.advance();
        let mut args: Vec<NodeId> = Vec::new();
        if self.current_kind() != TokenKind::RParen {
            loop
                invariant
                    entry == *old(self),
                    entry.steps_to(*self),
                    self.measure() < entry.measure(),
                    ids_below(args@, self.arena().len() as int),
                    func.0 < self.arena().len(),
                    self.node_kind_ok(func, |k: NodeKind| expr_node_kind(k)),
                    self.all_kind(args@, |k: NodeKind| arg_node_kind(k)),
                decreases self.measure(),
            {
                let expr = self.parse_expr(0)?;
                if self.current_kind() == TokenKind::Eq {
                    let name_span = self.node_span(expr);
                    self.advance();
                    let value = self.parse_expr(0)?;
                    let span = Span::new(name_span.start, self.node_span(value).end);
                    let named = self.push(
                        NodeKind::NamedArg { name: name_span, value },
                        span,
                        vec![expr, value],
                    );
                    args.push(named);
                } else {
                    args.push(expr);
                }
                if self.current_kind() == TokenKind::Comma {
                    self.advance();
                } else {
                    break ;
                }
            }
        }
        let close_paren = self.current_span();
        self.expect(TokenKind::RParen)?;
        let span = Span::new(self.node_span(func).start, close_paren.end);
        let mut children = vec![func];
        append_ids(&mut children, &args);
        Ok(self.push(NodeKind::Call { func, args }, span, children))
    }

    /// Parse `base[index]`.
    fn parse_index(&mut self, base: NodeId) -> (r: Result<NodeId, ParseError>)
        requires
            old(self).wf(),
            old(self).cur().kind == TokenKind::LBracket,
            base.0 < old(self).arena().len(),
            old(self).node_kind_ok(base, |k: NodeKind| expr_node_kind(k)),
        ensures
            old(self).yields(*final(self), r),
            final(self).named(r) matches Some(n) ==> n.kind matches NodeKind::Index { base: b, .. } && b == base,
        decreases old(self).measure(), 3nat,
    {
        let open_bracket = self.current_span();
        self.advance();
        let index = self.parse_expr(0)?;
        let close_bracket = self.current_span();
        self.expect(TokenKind::RBracket)?;
        let span = Span::new(self.node_span(base).start, close_bracket.end);
        Ok(
            self.push(
                NodeKind::Index { base, open_bracket, index, close_bracket },
                span,
                vec![base, index],
            ),
        )
    }

    /// Parse a chain of `.field` and `.method(args)` steps after `base`.
    fn parse_chain(&mut self, base: NodeId) -> (r: Result<NodeId, ParseError>)
        requires
            old(self).wf(),
            old(self).cur().kind == TokenKind::Dot,
            base.0 < old(self).arena().len(),
            old(self).node_kind_ok(base, |k: NodeKind| expr_node_kind(k)),
        ensures
            old(self).yields(*final(self), r),
            final(self).named(r) matches Some(n) ==> n.kind matches NodeKind::ChainExpr { base: b, .. } && b == base,
            old(self).peek_is(TokenKind::Identifier) && old(self).next_kind() != TokenKind::LParen && old(
                self,
            ).next_kind() != TokenKind::Dot ==> r is Ok && final(self).diags() == old(self).diags() && (
            final(self).named(r) matches Some(n) ==> n.kind matches NodeKind::ChainExpr { steps, .. }
                && steps@.len() == 1 && steps@[0].kind is FieldAccess),
        decreases old(self).measure(), 3nat,
    {
        let ghost entry = *self;
        let mut steps: Vec<ChainStep> = Vec::new();
        loop
            invariant
                entry == *old(self),
                entry.steps_to(*self),
                steps@.len() > 0 ==> self.measure() < entry.measure(),
                steps@.len() == 0 ==> self.measure() == entry.measure() && self.cur().kind
                    == TokenKind::Dot,
                base.0 < self.arena().len(),
                self.node_kind_ok(base, |k: NodeKind| expr_node_kind(k)),
                self.ids_exact() ==> forall|i: int|
                    0 <= i < steps@.len() ==> step_sorted(self.arena(), #[trigger] steps@[i]),
                forall|i: int| 0 <= i < steps@.len() ==> step_end(#[trigger] steps@[i]) <= self.src().len(),
                forall|i: int|
                    0 <= i < steps@.len() ==> step_refs_below(
                        #[trigger] steps@[i],
                        self.arena().len() as int,
                    ),
                entry.peek_is(TokenKind::Identifier) && entry.next_kind() != TokenKind::LParen
                    && entry.next_kind() != TokenKind::Dot ==> ((steps@.len() == 0
                    && *self == entry) || (steps@.len() == 1 && steps@[0].kind is FieldAccess
                    && self.cur().kind == entry.next_kind() && self.diags() == entry.diags())),
            ensures
                entry.steps_to(*self),
                self.measure() < entry.measure(),
                base.0 < self.arena().len(),
                steps@.len() > 0,
                self.node_kind_ok(base, |k: NodeKind| expr_node_kind(k)),
                self.ids_exact() ==> forall|i: int|
                    0 <= i < steps@.len() ==> step_sorted(self.arena(), #[trigger] steps@[i]),
                forall|i: int| 0 <= i < steps@.len() ==> step_end(#[trigger] steps@[i]) <= self.src().len(),
                forall|i: int|
                    0 <= i < steps@.len() ==> step_refs_below(
                        #[trigger] steps@[i],
                        self.arena().len() as int,
                    ),
                entry.peek_is(TokenKind::Identifier) && entry.next_kind() != TokenKind::LParen
                    && entry.next_kind() != TokenKind::Dot ==> (steps@.len() == 1
                    && steps@[0].kind is FieldAccess && self.diags() == entry.diags()),
            decreases self.measure(),
        {
            if self.current_kind() != TokenKind::Dot {
                break ;
            }
            let ghost iter_m = self.measure();
            let dot_span = self.current_span();
            self.advance();
            let step = if self.current_kind() == TokenKind::Identifier && self.peek_kind() == Some(
                TokenKind::LParen,
            ) {
                proof {
                    assert(!(entry.peek_is(TokenKind::Identifier) && entry.next_kind()
                        != TokenKind::LParen && entry.next_kind() != TokenKind::Dot));
                }
                self.advance();
                let open_paren = self.current_span();
                self.advance();
                let mut args: Vec<NodeId> = Vec::new();
                if self.current_kind() != TokenKind::RParen {
                    loop
                        invariant
                            entry == *old(self),
                            !(entry.peek_is(TokenKind::Identifier) && entry.next_kind()
                                != TokenKind::LParen && entry.next_kind() != TokenKind::Dot),
                            entry.steps_to(*self),
                            self.measure() < entry.measure(),
                            self.measure() < iter_m,
                            ids_below(args@, self.arena().len() as int),
                            base.0 < self.arena().len(),
                            self.node_kind_ok(base, |k: NodeKind| expr_node_kind(k)),
                            self.all_kind(args@, |k: NodeKind| expr_node_kind(k)),
                            self.ids_exact() ==> forall|i: int|
                                0 <= i < steps@.len() ==> step_sorted(
                                    self.arena(),
                                    #[trigger] steps@[i],
                                ),
                            forall|i: int|
                                0 <= i < steps@.len() ==> step_end(#[trigger] steps@[i])
                                    <= self.src().len(),
                            forall|i: int|
                                0 <= i < steps@.len() ==> step_refs_below(
                                    #[trigger] steps@[i],
                                    self.arena().len() as int,
                                ),
                        decreases self.measure(),
                    {
                        let arg = self.parse_expr(0)?;
                        args.push(arg);
                        if self.current_kind() == TokenKind::Comma {
                            self.advance();
                        } else {
                            break ;
                        }
                    }
                }
                let close_paren = self.current_span();
                self.expect(TokenKind::RParen)?;
                ChainStep {
                    dot_token: dot_span,
                    kind: ChainStepKind::Call { open_paren, args, close_paren },
                }
            } else if self.current_kind() == TokenKind::Identifier {
                let name_span = self.current_span();
                self.advance();
                ChainStep { dot_token: dot_span, kind: ChainStepKind::FieldAccess(name_span) }
            } else {
                return Err(
                    self.error(String::from_str("expected field name or method call after '.'")),
                );
            };
            steps.push(step);
        }
        let base_span = self.node_span(base);
        let end = if steps.len() > 0 {
            step_span(&steps[steps.len() - 1]).end
        } else {
            base_span.end
        };
        let span = Span::new(base_span.start, end);
        Ok(self.push(NodeKind::ChainExpr { base, steps }, span, vec![base]))
    }

    /// Parse the arms of a match after its scrutinee: `{ arm* }`.
    fn parse_match_expr(&mut self, scrutinee: NodeId) -> (r: Result<NodeId, ParseError>)
        requires
            old(self).wf(),
            old(self).cur().kind == TokenKind::LBrace,
            scrutinee.0 < old(self).arena().len(),
            old(self).node_kind_ok(scrutinee, |k: NodeKind| expr_node_kind(k)),
        ensures
            old(self).yields(*final(self), r),
            final(self).named(r) matches Some(n) ==> n.kind matches NodeKind::MatchExpr {
                scrutinee: b,
                arms: c,
            } && b == scrutinee && final(self).all_kind(c@, |k: NodeKind| k is MatchArm),
        decreases old(self).measure(), 3nat,
    {
        let ghost entry = *self;
        let start = self.node_span(scrutinee).start;
        self.advance();
        let mut arms: Vec<NodeId> = Vec::new();
        while self.current_kind() != TokenKind::RBrace && self.current_kind() != TokenKind::Eof
            invariant
                entry == *old(self),
                entry.steps_to(*self),
                self.measure() < entry.measure(),
                ids_below(arms@, self.arena().len() as int),
                self.all_kind(arms@, |k: NodeKind| k is MatchArm),
                scrutinee.0 < self.arena().len(),
                self.node_kind_ok(scrutinee, |k: NodeKind| expr_node_kind(k)),
                start <= self.src().len(),
            decreases self.measure(),
        {
            let arm = self.parse_match_arm()?;
            arms.push(arm);
        }
        let close_span = self.current_span();
        self.expect(TokenKind::RBrace)?;
        let span = Span::new(start, close_span.end);
        let mut children = vec![scrutinee];
        let mut i: usize = 0;
        while i < arms.len()
            invariant
                self.wf(),
                ids_below(arms@, self.arena().len() as int),
                ids_below(children@, self.arena().len() as int),
            decreases arms.len() - i,
        {
            let arm_children = self.node_children(arms[i]);
            append_ids(&mut children, arm_children);
            i = i + 1;
        }
        Ok(self.push(NodeKind::MatchExpr { scrutinee, arms }, span, children))
    }

    /// The children of an earlier node.
    fn node_children(&self, id: NodeId) -> (r: &Vec<NodeId>)
        requires
            self.wf(),
            id.0 < self.arena().len(),
        ensures
            r@ == self.arena()[id.0 as int].children@,
            ids_below(r@, self.arena().len() as int),
    {
        proof {
            assert(node_ok(self.nodes@, id.0 as int, self.lexer.src().len() as int));
        }
        &self.nodes[id.0 as usize].children
    }

    /// Parse one match arm: `pattern { body }`, or `{ body }` for the default.
    fn parse_match_arm(&mut self) -> (r: Result<NodeId, ParseError>)
        requires
            old(self).wf(),
        ensures
            old(self).yields(*final(self), r),
            final(self).named(r) matches Some(n) ==> n.kind is MatchArm,
        decreases old(self).measure(), 9nat,
    {
        let start = self.current_span().start;
        let old_suppress = self.suppress_match_postfix;
        self.suppress_match_postfix = true;
        let pattern = if self.current_kind() == TokenKind::LBrace {
            None
        } else {
            Some(self.parse_match_pattern()?)
        };
        self.suppress_match_postfix = old_suppress;
        let body = self.parse_block()?;
        let span = Span::new(start, self.node_span(body).end);
        let mut children: Vec<NodeId> = Vec::new();
        match pattern {
            Some(pat) => {
                children.push(pat);
            },
            None => {},
        }
        children.push(body);
        Ok(self.push(NodeKind::MatchArm { pattern, body }, span, children))
    }

    /// Parse the pattern of a match arm: a condition such as `< 18`,
    /// `contains x` or `matches /re/`, or any expression (matched by value).
    fn parse_match_pattern(&mut self) -> (r: Result<NodeId, ParseError>)
        requires
            old(self).wf(),
        ensures
            old(self).yields(*final(self), r),
            final(self).named(r) matches Some(n) ==> n.kind is PatternCondition || expr_node_kind(n.kind),
        decreases old(self).measure(), 8nat,
    {
        let kind = self.current_kind();
        if is_condition_operator(kind) {
            let op_token = self.current;
            self.advance();
            let rhs = if op_token.kind == TokenKind::Matches {
                if self.current_kind() != TokenKind::RegexLiteral {
                    self.lexer.set_regex_mode(false);
                    return Err(self.error(String::from_str("expected regex literal after matches")));
                }
                let regex_span = self.current_span();
                let node = self.push(NodeKind::LitRegex, regex_span, Vec::new());
                self.advance();
                node
            } else {
                self.parse_expr(0)?
            };
            let span = Span::new(op_token.span.start, self.node_span(rhs).end);
            Ok(self.push(NodeKind::PatternCondition { op: op_token.span, rhs }, span, vec![rhs]))
        } else {
            self.parse_expr(0)
        }
    }
}

impl<'a> Parser<'a> {
    /// Parse a block `{ stmt* }`. A statement that fails to parse is
    /// reported and skipped up to the next annotation, name, `}`, `struct`
    /// or `enum`; recovery always moves forward.
    pub fn parse_block(&mut self) -> (r: Result<NodeId, ParseError>)
        requires
            old(self).wf(),
        ensures
            old(self).yields(*final(self), r),
            final(self).named(r) matches Some(n) ==> n.kind matches NodeKind::Block { statements }
                && final(self).all_decls(statements@),
            old(self).cur().kind == TokenKind::LBrace && old(self).peek_is(TokenKind::RBrace) ==> r is Ok
                && final(self).diags() == old(self).diags() && (final(self).named(r) matches Some(n)
                ==> n.kind matches NodeKind::Block { statements } && statements@.len() == 0),
        decreases old(self).measure(), 2nat,
    {
        let ghost entry = *self;
        let open_span = self.current_span();
        self.expect(TokenKind::LBrace)?;
        let mut stmts: Vec<NodeId> = Vec::new();
        while self.current_kind() != TokenKind::RBrace && self.current_kind() != TokenKind::Eof
            invariant
                entry == *old(self),
                entry.steps_to(*self),
                self.measure() < entry.measure(),
                ids_below(stmts@, self.arena().len() as int),
                self.all_decls(stmts@),
                open_span.start <= self.src().len(),
                entry.cur().kind == TokenKind::LBrace && entry.peek_is(TokenKind::RBrace) ==> (stmts@.len()
                    == 0 && self.cur().kind == TokenKind::RBrace && self.diags() == entry.diags()),
            decreases self.measure(),
        {
            let before = self.remaining();
            let parsed = if self.current_kind() == TokenKind::LBrace {
                match self.parse_expr(0) {
                    Ok(expr) => {
                        let span = self.node_span(expr);
                        Ok(self.push(NodeKind::ExprStmt { expr }, span, vec![expr]))
                    },
                    Err(e) => Err(e),
                }
            } else {
                self.parse_declaration()
            };
            match parsed {
                Ok(stmt) => {
                    stmts.push(stmt);
                },
                Err(_) => {
                    let sync = vec![
                        TokenKind::Hash,
                        TokenKind::Identifier,
                        TokenKind::RBrace,
                        TokenKind::Struct,
                        TokenKind::Enum,
                    ];
                    self.skip_until(sync.as_slice());
                    if self.current_kind() == TokenKind::RBrace || self.current_kind()
                        == TokenKind::Eof {
                        break ;
                    }
                    if self.remaining() == before {
                        self.advance();
                    }
                },
            }
        }
        let close_span = self.current_span();
        self.expect(TokenKind::RBrace)?;
        let span = Span::new(open_span.start, close_span.end);
        let statements = copy_ids(&stmts);
        Ok(self.push(NodeKind::Block { statements }, span, stmts))
    }

    /// Parse `(params) -> type { body }` after `name =`.
    fn parse_function_def_after_name(
        &mut self,
        name: NodeId,
        name_span: Span,
        annotations: Vec<NodeId>,
    ) -> (r: Result<NodeId, ParseError>)
        requires
            old(self).wf(),
            name.0 < old(self).arena().len(),
            name_span.start <= old(self).src().len(),
            ids_below(annotations@, old(self).arena().len() as int),
            old(self).all_kind(annotations@, |k: NodeKind| k is Annotation),
        ensures
            old(self).yields(*final(self), r),
            final(self).named(r) matches Some(n) ==> n.kind matches NodeKind::FunctionDef {
                name: a,
                annotations: b,
                params: c,
                body: d,
                ..
            } && a == name_span && b == annotations && final(self).all_kind(
                c@,
                |k: NodeKind| k is Param,
            ) && final(self).all_kind(seq![d], |k: NodeKind| k is Block),
            old(self).cur().kind == TokenKind::LParen && old(self).peek_is(TokenKind::RParen) && old(
                self,
            ).next_kind() == TokenKind::LBrace && old(self).next2_kind() == TokenKind::RBrace ==> r is Ok
                && final(self).diags() == old(self).diags() && (final(self).named(r) matches Some(n)
                ==> n.kind matches NodeKind::FunctionDef { params, return_type, .. } && params@.len()
                == 0 && return_type is None),
        decreases old(self).measure(), 1nat,
    {
        let ghost entry = *self;
        self.expect(TokenKind::LParen)?;
        let mut params: Vec<NodeId> = Vec::new();
        while self.current_kind() != TokenKind::RParen && self.current_kind() != TokenKind::Eof
            invariant
                entry == *old(self),
                entry.steps_to(*self),
                self.measure() < entry.measure(),
                ids_below(params@, self.arena().len() as int),
                self.all_kind(params@, |k: NodeKind| k is Param),
                entry.cur().kind == TokenKind::LParen && entry.peek_is(TokenKind::RParen)
                    && entry.next_kind() == TokenKind::LBrace && entry.next2_kind() == TokenKind::RBrace
                    ==> (params@.len() == 0 && self.cur().kind == TokenKind::RParen && self.peek_is(
                    TokenKind::LBrace,
                ) && self.next_kind() == TokenKind::RBrace && self.diags() == entry.diags()),
                ids_below(annotations@, self.arena().len() as int),
                name.0 < self.arena().len(),
                name_span.start <= self.src().len(),
            decreases self.measure(),
        {
            let param_name_span = self.current_span();
            let param_name = self.parse_identifier()?;
            self.expect(TokenKind::Colon)?;
            let param_type = self.parse_type()?;
            let param_span = Span::new(param_name_span.start, self.node_span(param_type).end);
            let param = self.push(
                NodeKind::Param { name: param_name_span, type_annotation: param_type },
                param_span,
                vec![param_name, param_type],
            );
            params.push(param);
            if self.current_kind() == TokenKind::Comma {
                self.advance();
            } else {
                break ;
            }
        }
        self.expect(TokenKind::RParen)?;
        let return_type = if self.current_kind() == TokenKind::Arrow {
            self.advance();
            Some(self.parse_type()?)
        } else {
            None
        };
        let body = self.parse_block()?;
        let start = self.declaration_start(&annotations, name_span.start);
        let span = Span::new(start, self.node_span(body).end);
        let mut children = copy_ids(&annotations);
        children.push(name);
        append_ids(&mut children, &params);
        match return_type {
            Some(rt) => {
                children.push(rt);
            },
            None => {},
        }
        children.push(body);
        Ok(
            self.push(
                NodeKind::FunctionDef { annotations, name: name_span, params, return_type, body },
                span,
                children,
            ),
        )
    }

    /// Parse `{ fields }` after `name = struct` or `name: struct`.
    fn parse_struct_def_after_name(
        &mut self,
        name: NodeId,
        name_span: Span,
        annotations: Vec<NodeId>,
    ) -> (r: Result<NodeId, ParseError>)
        requires
            old(self).wf(),
            name.0 < old(self).arena().len(),
            name_span.start <= old(self).src().len(),
            ids_below(annotations@, old(self).arena().len() as int),
            old(self).all_kind(annotations@, |k: NodeKind| k is Annotation),
        ensures
            old(self).yields(*final(self), r),
            final(self).named(r) matches Some(n) ==> n.kind matches NodeKind::StructDef {
                name: a,
                annotations: b,
                fields: c,
            } && a == name_span && b == annotations && final(self).all_kind(
                c@,
                |k: NodeKind| k is FieldDef,
            ),
        decreases old(self).measure(), 1nat,
    {
        self.expect(TokenKind::LBrace)?;
        let fields = self.parse_struct_fields()?;
        let close_span = self.current_span();
        self.expect(TokenKind::RBrace)?;
        let start = self.declaration_start(&annotations, name_span.start);
        let span = Span::new(start, close_span.end);
        let mut children = copy_ids(&annotations);
        children.push(name);
        append_ids(&mut children, &fields);
        Ok(
            self.push(
                NodeKind::StructDef { annotations, name: name_span, fields },
                span,
                children,
            ),
        )
    }

    /// Parse struct fields `name: type = default`, each with optional
    /// annotations, separated by commas, line breaks or spaces.
    #[verifier::rlimit(40)]
    fn parse_struct_fields(&mut self) -> (r: Result<Vec<NodeId>, ParseError>)
        requires
            old(self).wf(),
        ensures
            old(self).steps_to(*final(self)),
            match r {
                Ok(v) => ids_below(v@, final(self).arena().len() as int) && (v@.len() > 0
                    ==> final(self).measure() < old(self).measure()) && final(self).all_kind(
                    v@,
                    |k: NodeKind| k is FieldDef,
                ) && (final(self).cur().kind == TokenKind::RBrace || final(self).cur().kind
                    == TokenKind::Eof) && (v@.len() == 0 <==> (old(self).cur().kind
                    == TokenKind::RBrace || old(self).cur().kind == TokenKind::Eof)),
                Err(_) => old(self).diags().len() < final(self).diags().len(),
            },
            old(self).cur().kind == TokenKind::RBrace || old(self).cur().kind == TokenKind::Eof ==> r
                is Ok && *final(self) == *old(self),
        decreases old(self).measure(), 3nat,
    {
        let ghost entry = *self;
        let mut fields: Vec<NodeId> = Vec::new();
        while self.current_kind() != TokenKind::RBrace && self.current_kind() != TokenKind::Eof
            invariant
                entry == *old(self),
                entry.steps_to(*self),
                ids_below(fields@, self.arena().len() as int),
                fields@.len() > 0 ==> self.measure() < entry.measure(),
                self.all_kind(fields@, |k: NodeKind| k is FieldDef),
                fields@.len() == 0 ==> *self == entry,
                fields@.len() > 0 ==> !(entry.cur().kind == TokenKind::RBrace || entry.cur().kind
                    == TokenKind::Eof),
            ensures
                self.cur().kind == TokenKind::RBrace || self.cur().kind == TokenKind::Eof,
                fields@.len() == 0 ==> *self == entry,
                fields@.len() > 0 ==> !(entry.cur().kind == TokenKind::RBrace || entry.cur().kind
                    == TokenKind::Eof),
            decreases self.measure(),
        {
            let field_annotations = self.parse_annotations()?;
            let field_name_span = self.current_span();
            let field_name = self.parse_identifier()?;
            let type_annotation = if self.current_kind() == TokenKind::Colon {
                self.advance();
                Some(self.parse_type()?)
            } else {
                None
            };
            let default_value = if self.current_kind() == TokenKind::Eq {
                self.advance();
                Some(self.parse_expr(0)?)
            } else {
                None
            };
            if type_annotation.is_none() && default_value.is_none() {
                return Err(self.error(String::from_str("expected a field type or default value")));
            }
            let end = match default_value {
                Some(value) => self.node_span(value).end,
                None => match type_annotation {
                    Some(type_id) => self.node_span(type_id).end,
                    None => field_name_span.end,
                },
            };
            let start = self.declaration_start(&field_annotations, field_name_span.start);
            let field_span = Span::new(start, end);
            let mut children = copy_ids(&field_annotations);
            children.push(field_name);
            match type_annotation {
                Some(type_id) => {
                    children.push(type_id);
                },
                None => {},
            }
            match default_value {
                Some(value) => {
                    children.push(value);
                },
                None => {},
            }
            let field = self.push(
                NodeKind::FieldDef {
                    annotations: field_annotations,
                    name: field_name_span,
                    type_annotation,
                    default_value,
                },
                field_span,
                children,
            );
            fields.push(field);
            if !self.consume_sequence_separator() {
                break ;
            }
        }
        Ok(fields)
    }

    /// After an element of a struct or enum body: a comma is consumed; the
    /// body goes on unless it is closed or the input ends.
    fn consume_sequence_separator(&mut self) -> (more: bool)
        requires
            old(self).wf(),
        ensures
            old(self).steps_to(*final(self)),
            final(self).arena() == old(self).arena(),
            final(self).diags() == old(self).diags(),
            more == (old(self).cur().kind == TokenKind::Comma || (old(self).cur().kind
                != TokenKind::RBrace && old(self).cur().kind != TokenKind::Eof)),
            old(self).cur().kind == TokenKind::Comma ==> old(self).peeked() == Some(final(self).cur())
                && final(self).measure() < old(self).measure(),
            old(self).cur().kind != TokenKind::Comma ==> *final(self) == *old(self),
    {
        if self.current_kind() == TokenKind::Comma {
            self.advance();
            return true;
        }
        self.current_kind() != TokenKind::RBrace && self.current_kind() != TokenKind::Eof
    }

    /// Parse `{ variants }` after `name = enum` or `name: enum`.
    fn parse_enum_def_after_name(
        &mut self,
        name: NodeId,
        name_span: Span,
        annotations: Vec<NodeId>,
    ) -> (r: Result<NodeId, ParseError>)
        requires
            old(self).wf(),
            name.0 < old(self).arena().len(),
            name_span.start <= old(self).src().len(),
            ids_below(annotations@, old(self).arena().len() as int),
            old(self).all_kind(annotations@, |k: NodeKind| k is Annotation),
        ensures
            old(self).yields(*final(self), r),
            final(self).named(r) matches Some(n) ==> n.kind matches NodeKind::EnumDef {
                name: a,
                annotations: b,
                variants: c,
            } && a == name_span && b == annotations && final(self).all_kind(
                c@,
                |k: NodeKind| k is Ident,
            ),
    {
        self.expect(TokenKind::LBrace)?;
        let variants = self.parse_enum_variants()?;
        let close_span = self.current_span();
        self.expect(TokenKind::RBrace)?;
        let start = self.declaration_start(&annotations, name_span.start);
        let span = Span::new(start, close_span.end);
        let mut children = copy_ids(&annotations);
        children.push(name);
        append_ids(&mut children, &variants);
        Ok(
            self.push(
                NodeKind::EnumDef { annotations, name: name_span, variants },
                span,
                children,
            ),
        )
    }

    /// Parse enum variant names, separated by commas, line breaks or spaces.
    fn parse_enum_variants(&mut self) -> (r: Result<Vec<NodeId>, ParseError>)
        requires
            old(self).wf(),
        ensures
            old(self).steps_to(*final(self)),
            match r {
                Ok(v) => ids_below(v@, final(self).arena().len() as int) && final(self).all_kind(
                    v@,
                    |k: NodeKind| k is Ident,
                ) && (final(self).cur().kind == TokenKind::RBrace || final(self).cur().kind
                    == TokenKind::Eof) && (v@.len() == 0 <==> (old(self).cur().kind
                    == TokenKind::RBrace || old(self).cur().kind == TokenKind::Eof)),
                Err(_) => old(self).diags().len() < final(self).diags().len(),
            },
            old(self).cur().kind == TokenKind::RBrace || old(self).cur().kind == TokenKind::Eof ==> r
                is Ok && *final(self) == *old(self),
    {
        let ghost entry = *self;
        let mut variants: Vec<NodeId> = Vec::new();
        while self.current_kind() != TokenKind::RBrace && self.current_kind() != TokenKind::Eof
            invariant
                entry == *old(self),
                entry.steps_to(*self),
                ids_below(variants@, self.arena().len() as int),
                self.all_kind(variants@, |k: NodeKind| k is Ident),
                variants@.len() == 0 ==> *self == entry,
                variants@.len() > 0 ==> !(entry.cur().kind == TokenKind::RBrace || entry.cur().kind
                    == TokenKind::Eof),
            ensures
                self.cur().kind == TokenKind::RBrace || self.cur().kind == TokenKind::Eof,
                variants@.len() == 0 ==> *self == entry,
                variants@.len() > 0 ==> !(entry.cur().kind == TokenKind::RBrace || entry.cur().kind
                    == TokenKind::Eof),
            decreases self.measure(),
        {
            let variant = self.parse_identifier()?;
            variants.push(variant);
            if !self.consume_sequence_separator() {
                break ;
            }
        }
        Ok(variants)
    }

    /// Parse a type: a name, or an anonymous `struct { ... }` or `enum { ... }`.
    fn parse_type(&mut self) -> (r: Result<NodeId, ParseError>)
        requires
            old(self).wf(),
        ensures
            old(self).yields(*final(self), r),
            final(self).named(r) matches Some(n) ==> n.kind is Ident || n.kind is AnonymousStructType || n.kind is AnonymousEnumType,
            old(self).cur().kind == TokenKind::Identifier ==> r is Ok && final(self).pos() == step(
                old(self).src(),
                old(self).pos(),
            ) && final(self).diags() == old(self).diags() && (final(self).named(r) matches Some(n)
                ==> n.kind == NodeKind::Ident(old(self).cur().span)),
        decreases old(self).measure(), 1nat,
    {
        let start = self.current_span().start;
        if self.current_kind() == TokenKind::Struct {
            self.advance();
            self.expect(TokenKind::LBrace)?;
            let fields = self.parse_struct_fields()?;
            let close = self.current_span();
            self.expect(TokenKind::RBrace)?;
            let field_ids = copy_ids(&fields);
            Ok(
                self.push(
                    NodeKind::AnonymousStructType { fields: field_ids },
                    Span::new(start, close.end),
                    fields,
                ),
            )
        } else if self.current_kind() == TokenKind::Enum {
            self.advance();
            self.expect(TokenKind::LBrace)?;
            let variants = self.parse_enum_variants()?;
            let close = self.current_span();
            self.expect(TokenKind::RBrace)?;
            let variant_ids = copy_ids(&variants);
            Ok(
                self.push(
                    NodeKind::AnonymousEnumType { variants: variant_ids },
                    Span::new(start, close.end),
                    variants,
                ),
            )
        } else {
            self.parse_identifier()
        }
    }
}

/// The operators that open a condition pattern in a match arm.
pub open spec fn condition_operator(k: TokenKind) -> bool {
    ||| k == TokenKind::Contains
    ||| k == TokenKind::Less
    ||| k == TokenKind::More
    ||| k == TokenKind::Least
    ||| k == TokenKind::Most
    ||| k == TokenKind::Equals
    ||| k == TokenKind::Matches
    ||| k == TokenKind::Starts
    ||| k == TokenKind::Ends
    ||| k == TokenKind::In
    ||| k == TokenKind::Lt
    ||| k == TokenKind::Gt
    ||| k == TokenKind::LtEq
    ||| k == TokenKind::GtEq
}

fn is_condition_operator(k: TokenKind) -> (r: bool)
    ensures
        r == condition_operator(k),
{
    matches!(
        k,
        TokenKind::Contains | TokenKind::Less | TokenKind::More | TokenKind::Least
            | TokenKind::Most | TokenKind::Equals | TokenKind::Matches | TokenKind::Starts
            | TokenKind::Ends | TokenKind::In | TokenKind::Lt | TokenKind::Gt | TokenKind::LtEq
            | TokenKind::GtEq
    )
}

/// The end of a chain step: its field name or its closing bracket.
pub open spec fn step_end(step: ChainStep) -> usize {
    match step.kind {
        ChainStepKind::FieldAccess(span) => span.end,
        ChainStepKind::Call { close_paren, .. } => close_paren.end,
        ChainStepKind::Index { close_bracket, .. } => close_bracket.end,
    }
}

/// The source range of a chain step, from its dot to its last token.
fn step_span(step: &ChainStep) -> (r: Span)
    ensures
        r.start == step.dot_token.start,
        r.end == step_end(*step),
{
    match &step.kind {
        ChainStepKind::FieldAccess(span) => Span::new(step.dot_token.start, span.end),
        ChainStepKind::Call { close_paren, .. } => Span::new(step.dot_token.start, close_paren.end),
        ChainStepKind::Index { close_bracket, .. } => Span::new(
            step.dot_token.start,
            close_bracket.end,
        ),
    }
}

/// The quantifier a name spells: `all`, `any`, `one` or `none`.
pub open spec fn spec_quantifier_of(t: Seq<u8>) -> Option<QuantifierKind> {
    if t == seq![97u8, 108, 108] {
        Some(QuantifierKind::All)
    } else if t == seq![97u8, 110, 121] {
        Some(QuantifierKind::Any)
    } else if t == seq![111u8, 110, 101] {
        Some(QuantifierKind::One)
    } else if t == seq![110u8, 111, 110, 101] {
        Some(QuantifierKind::NoneOf)
    } else {
        None
    }
}

/// The quantifier spelled by a name: `all`, `any`, `one` or `none`.
fn quantifier_of(text: &[u8]) -> (r: Option<QuantifierKind>)
    ensures
        r == spec_quantifier_of(text@),
{
    proof {
        if text@.len() == 3 && text@[0] == 97 && text@[1] == 108 && text@[2] == 108 {
            assert(text@ =~= seq![97u8, 108, 108]);
        }
        if text@.len() == 3 && text@[0] == 97 && text@[1] == 110 && text@[2] == 121 {
            assert(text@ =~= seq![97u8, 110, 121]);
        }
        if text@.len() == 3 && text@[0] == 111 && text@[1] == 110 && text@[2] == 101 {
            assert(text@ =~= seq![111u8, 110, 101]);
        }
        if text@.len() == 4 && text@[0] == 110 && text@[1] == 111 && text@[2] == 110 && text@[3]
            == 101 {
            assert(text@ =~= seq![110u8, 111, 110, 101]);
        }
    }
    if text.len() == 3 && text[0] == 97 && text[1] == 108 && text[2] == 108 {
        Some(QuantifierKind::All)
    } else if text.len() == 3 && text[0] == 97 && text[1] == 110 && text[2] == 121 {
        Some(QuantifierKind::Any)
    } else if text.len() == 3 && text[0] == 111 && text[1] == 110 && text[2] == 101 {
        Some(QuantifierKind::One)
    } else if text.len() == 4 && text[0] == 110 && text[1] == 111 && text[2] == 110 && text[3]
        == 101 {
        Some(QuantifierKind::NoneOf)
    } else {
        None
    }
}

/// Whether the text holds a line break.
fn contains_newline(text: &[u8]) -> (r: bool)
    ensures
        r == text@.contains(10u8),
{
    let mut i: usize = 0;
    while i < text.len()
        invariant
            i <= text@.len(),
            forall|j: int| 0 <= j < i ==> text@[j] != 10u8,
        decreases text.len() - i,
    {
        if text[i] == 10 {
            assert(text@[i as int] == 10u8);
            return true;
        }
        i = i + 1;
    }
    false
}

/// A copy of a byte slice.
fn copy_bytes(b: &[u8]) -> (r: Vec<u8>)
    ensures
        r@ == b@,
{
    copy_range(b, 0, b.len())
}

/// A copy of a list of node ids.
fn copy_ids(ids: &Vec<NodeId>) -> (r: Vec<NodeId>)
    ensures
        r@ == ids@,
{
    let mut r: Vec<NodeId> = Vec::new();
    let mut i: usize = 0;
    while i < ids.len()
        invariant
            i <= ids@.len(),
            r@ == ids@.subrange(0, i as int),
        decreases ids.len() - i,
    {
        r.push(ids[i]);
        i = i + 1;
        assert(r@ =~= ids@.subrange(0, i as int));
    }
    assert(r@ =~= ids@);
    r
}

/// Append a list of node ids.
fn append_ids(dst: &mut Vec<NodeId>, ids: &Vec<NodeId>)
    ensures
        final(dst)@ == old(dst)@ + ids@,
{
    let ghost base = dst@;
    let mut i: usize = 0;
    while i < ids.len()
        invariant
            i <= ids@.len(),
            dst@ == base + ids@.subrange(0, i as int),
        decreases ids.len() - i,
    {
        dst.push(ids[i]);
        i = i + 1;
        assert(dst@ =~= base + ids@.subrange(0, i as int));
    }
    assert(ids@.subrange(0, ids@.len() as int) =~= ids@);
}

/// `k` occurs in `kinds`.
pub open spec fn kind_in(kinds: Seq<TokenKind>, k: TokenKind) -> bool {
    exists|i: int| 0 <= i < kinds.len() && kinds[i] == k
}

fn contains_kind(kinds: &[TokenKind], k: TokenKind) -> (r: bool)
    ensures
        r == kind_in(kinds@, k),
{
    let mut i: usize = 0;
    while i < kinds.len()
        invariant
            i <= kinds@.len(),
            forall|j: int| 0 <= j < i ==> kinds@[j] != k,
        decreases kinds.len() - i,
    {
        if kinds[i] == k {
            return true;
        }
        i = i + 1;
    }
    false
}

/// The name of a token kind, as the diagnostics spell it.
pub open spec fn spec_kind_name(k: TokenKind) -> Seq<char> {
    match k {
        TokenKind::IntLiteral => "IntLiteral"@,
        TokenKind::FloatLiteral => "FloatLiteral"@,
        TokenKind::StringLiteral => "StringLiteral"@,
        TokenKind::RegexLiteral => "RegexLiteral"@,
        TokenKind::TrueKw => "TrueKw"@,
        TokenKind::FalseKw => "FalseKw"@,
        TokenKind::StringStart => "StringStart"@,
        TokenKind::StringPart => "StringPart"@,
        TokenKind::ExprStart => "ExprStart"@,
        TokenKind::ExprEnd => "ExprEnd"@,
        TokenKind::StringEnd => "StringEnd"@,
        TokenKind::Identifier => "Identifier"@,
        TokenKind::Struct => "Struct"@,
        TokenKind::Enum => "Enum"@,
        TokenKind::Exports => "Exports"@,
        TokenKind::And => "And"@,
        TokenKind::Or => "Or"@,
        TokenKind::Not => "Not"@,
        TokenKind::Contains => "Contains"@,
        TokenKind::Less => "Less"@,
        TokenKind::More => "More"@,
        TokenKind::Least => "Least"@,
        TokenKind::Most => "Most"@,
        TokenKind::Equals => "Equals"@,
        TokenKind::In => "In"@,
        TokenKind::Matches => "Matches"@,
        TokenKind::Starts => "Starts"@,
        TokenKind::Ends => "Ends"@,
        TokenKind::LBrace => "LBrace"@,
        TokenKind::RBrace => "RBrace"@,
        TokenKind::LParen => "LParen"@,
        TokenKind::RParen => "RParen"@,
        TokenKind::LBracket => "LBracket"@,
        TokenKind::RBracket => "RBracket"@,
        TokenKind::Comma => "Comma"@,
        TokenKind::Dot => "Dot"@,
        TokenKind::Colon => "Colon"@,
        TokenKind::Arrow => "Arrow"@,
        TokenKind::At => "At"@,
        TokenKind::Hash => "Hash"@,
        TokenKind::Plus => "Plus"@,
        TokenKind::Minus => "Minus"@,
        TokenKind::Star => "Star"@,
        TokenKind::Slash => "Slash"@,
        TokenKind::Percent => "Percent"@,
        TokenKind::Eq => "Eq"@,
        TokenKind::Lt => "Lt"@,
        TokenKind::Gt => "Gt"@,
        TokenKind::LtEq => "LtEq"@,
        TokenKind::GtEq => "GtEq"@,
        TokenKind::Eof => "Eof"@,
        TokenKind::Error => "Error"@,
    }
}

/// The name of a token kind, as the diagnostics spell it.
fn kind_name(k: TokenKind) -> (r: &'static str)
    ensures
        r@ == spec_kind_name(k),
{
    match k {
        TokenKind::IntLiteral => "IntLiteral",
        TokenKind::FloatLiteral => "FloatLiteral",
        TokenKind::StringLiteral => "StringLiteral",
        TokenKind::RegexLiteral => "RegexLiteral",
        TokenKind::TrueKw => "TrueKw",
        TokenKind::FalseKw => "FalseKw",
        TokenKind::StringStart => "StringStart",
        TokenKind::StringPart => "StringPart",
        TokenKind::ExprStart => "ExprStart",
        TokenKind::ExprEnd => "ExprEnd",
        TokenKind::StringEnd => "StringEnd",
        TokenKind::Identifier => "Identifier",
        TokenKind::Struct => "Struct",
        TokenKind::Enum => "Enum",
        TokenKind::Exports => "Exports",
        TokenKind::And => "And",
        TokenKind::Or => "Or",
        TokenKind::Not => "Not",
        TokenKind::Contains => "Contains",
        TokenKind::Less => "Less",
        TokenKind::More => "More",
        TokenKind::Least => "Least",
        TokenKind::Most => "Most",
        TokenKind::Equals => "Equals",
        TokenKind::In => "In",
        TokenKind::Matches => "Matches",
        TokenKind::Starts => "Starts",
        TokenKind::Ends => "Ends",
        TokenKind::LBrace => "LBrace",
        TokenKind::RBrace => "RBrace",
        TokenKind::LParen => "LParen",
        TokenKind::RParen => "RParen",
        TokenKind::LBracket => "LBracket",
        TokenKind::RBracket => "RBracket",
        TokenKind::Comma => "Comma",
        TokenKind::Dot => "Dot",
        TokenKind::Colon => "Colon",
        TokenKind::Arrow => "Arrow",
        TokenKind::At => "At",
        TokenKind::Hash => "Hash",
        TokenKind::Plus => "Plus",
        TokenKind::Minus => "Minus",
        TokenKind::Star => "Star",
        TokenKind::Slash => "Slash",
        TokenKind::Percent => "Percent",
        TokenKind::Eq => "Eq",
        TokenKind::Lt => "Lt",
        TokenKind::Gt => "Gt",
        TokenKind::LtEq => "LtEq",
        TokenKind::GtEq => "GtEq",
        TokenKind::Eof => "Eof",
        TokenKind::Error => "Error",
    }
}

/// `expected <kind>, found <kind>`.
fn expected_found_message(expected: TokenKind, found: TokenKind) -> (r: String)
    ensures
        r@ == "expected "@ + spec_kind_name(expected) + ", found "@ + spec_kind_name(found),
{
    let mut m = String::from_str("expected ");
    m.append(kind_name(expected));
    m.append(", found ");
    m.append(kind_name(found));
    m
}

/// `unexpected token <kind> in <place>`.
fn unexpected_message(kind: TokenKind, place: &str) -> (r: String)
    ensures
        r@ == "unexpected token "@ + spec_kind_name(kind) + " in "@ + place@,
{
    let mut m = String::from_str("unexpected token ");
    m.append(kind_name(kind));
    m.append(" in ");
    m.append(place);
    m
}

} // verus!
