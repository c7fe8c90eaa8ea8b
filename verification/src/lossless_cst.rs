use vstd::prelude::*;
use vstd::slice::slice_subrange;
use vstd::string::StringSliceAdditionalSpecFns;
use crate::cst::{CstNode, NodeId};
use crate::diagnostics::Diagnostic;
use crate::grammar::TokenKind;
use crate::interner::Interner;
use crate::layout::first_error;
use crate::lex::Lexer;
use crate::lossless::{spec_lossless, LosslessLexError, LosslessToken, LosslessTokenStream};
use crate::parse::Parser;
use crate::span::{FileId, Span};
use crate::text::at_boundary;
use crate::utf8_facts::str_get;

verus! {

/// A half-open range of indices into a lossless token stream.
#[derive(Clone, Copy, Debug, PartialEq, Eq, Structural)]
pub struct TokenRange {
    pub start: usize,
    pub end: usize,
}

impl TokenRange {
    /// Whether the range holds no token.
    pub fn is_empty(self) -> (r: bool)
        ensures
            r == (self.start == self.end),
    {
        self.start == self.end
    }
}

/// Why a lossless CST could not be built.
#[derive(Clone, Debug, PartialEq, Eq)]
pub enum LosslessCstError {
    Lex(LosslessLexError),
    InvalidToken { span: Span },
    Parse { message: String, span: Span },
    Diagnostics(Vec<Diagnostic>),
    InvalidNodeSpan { node: NodeId, span: Span, source_len: usize },
    InvalidNodeId { index: usize, node: NodeId },
}

/// A span is in bounds of `s` and on character boundaries.
pub open spec fn span_valid(span: Span, s: Seq<u8>) -> bool {
    &&& span.start <= span.end <= s.len()
    &&& at_boundary(s, span.start as int)
    &&& at_boundary(s, span.end as int)
}

/// The first index from `k` on of a token that ends after `pos`, or the
/// number of tokens.
pub open spec fn first_ending_after(toks: Seq<LosslessToken>, k: int, pos: int) -> int
    decreases toks.len() - k,
{
    if k < 0 || k >= toks.len() {
        toks.len() as int
    } else if toks[k].span.end > pos {
        k
    } else {
        first_ending_after(toks, k + 1, pos)
    }
}

/// The first index from `k` on of a token that starts at or after `pos`,
/// or the number of tokens.
pub open spec fn first_starting_from(toks: Seq<LosslessToken>, k: int, pos: int) -> int
    decreases toks.len() - k,
{
    if k < 0 || k >= toks.len() {
        toks.len() as int
    } else if toks[k].span.start >= pos {
        k
    } else {
        first_starting_from(toks, k + 1, pos)
    }
}

/// The tokens that overlap `span`: from the first token that ends after its
/// start up to the first following token that starts at or after its end.
pub open spec fn spec_token_range(span: Span, toks: Seq<LosslessToken>) -> TokenRange {
    let start = first_ending_after(toks, 0, span.start as int);
    TokenRange {
        start: start as usize,
        end: first_starting_from(toks, start, span.end as int) as usize,
    }
}

/// What is wrong with node `i` of an arena over source `s`, if anything:
/// an id other than its index, or an invalid span.
pub open spec fn node_error(node: CstNode, i: int, s: Seq<u8>) -> Option<LosslessCstError> {
    if node.id.0 != i as u32 {
        Some(LosslessCstError::InvalidNodeId { index: i as usize, node: node.id })
    } else if !span_valid(node.span, s) {
        Some(
            LosslessCstError::InvalidNodeSpan {
                node: node.id,
                span: node.span,
                source_len: s.len() as usize,
            },
        )
    } else {
        None
    }
}

/// An owned CST together with the lossless tokens of each node.
#[derive(Debug)]
pub struct LosslessCst {
    root: NodeId,
    nodes: Vec<CstNode>,
    tokens: LosslessTokenStream,
    token_ranges: Vec<TokenRange>,
}

impl LosslessCst {
    /// The nodes are well formed and each has its token range.
    #[verifier::type_invariant]
    spec fn inv(self) -> bool {
        &&& self.token_ranges@.len() == self.nodes@.len()
        &&& forall|i: int|
            0 <= i < self.nodes@.len() ==> node_error(#[trigger] self.nodes@[i], i, self.tokens.src())
                is None && self.token_ranges@[i] == spec_token_range(
                self.nodes@[i].span,
                self.tokens.toks(),
            )
        &&& self.root.0 < self.nodes@.len()
    }

    /// The arena of nodes.
    pub closed spec fn arena(self) -> Seq<CstNode> {
        self.nodes@
    }

    /// The token stream.
    pub closed spec fn stream(self) -> LosslessTokenStream {
        self.tokens
    }

    /// The root id.
    pub closed spec fn root_id(self) -> NodeId {
        self.root
    }

    /// The token ranges, one per node.
    pub closed spec fn ranges(self) -> Seq<TokenRange> {
        self.token_ranges@
    }

    /// The root module node.
    pub fn root(&self) -> (r: NodeId)
        ensures
            r == self.root_id(),
            r.0 < self.arena().len(),
    {
        proof {
            use_type_invariant(self);
        }
        self.root
    }

    /// All nodes, in arena order.
    pub fn nodes(&self) -> (r: &[CstNode])
        ensures
            r@ == self.arena(),
    {
        self.nodes.as_slice()
    }

    /// One node, when its id is within the arena.
    pub fn node(&self, id: NodeId) -> (r: Option<&CstNode>)
        ensures
            id.0 < self.arena().len() ==> r == Some(&self.arena()[id.0 as int]),
            id.0 >= self.arena().len() ==> r is None,
    {
        if (id.0 as usize) < self.nodes.len() {
            Some(&self.nodes[id.0 as usize])
        } else {
            None
        }
    }

    /// The lossless token stream of the source.
    pub fn tokens(&self) -> (r: &LosslessTokenStream)
        ensures
            *r == self.stream(),
    {
        &self.tokens
    }

    /// The complete original source.
    pub fn source(&self) -> (r: &str)
        ensures
            r.spec_bytes() == self.stream().src(),
    {
        self.tokens.source()
    }

    /// The token range of a node, when its id is within the arena.
    pub fn token_range(&self, id: NodeId) -> (r: Option<TokenRange>)
        ensures
            id.0 < self.ranges().len() ==> r == Some(self.ranges()[id.0 as int]),
            id.0 >= self.ranges().len() ==> r is None,
    {
        if (id.0 as usize) < self.token_ranges.len() {
            Some(self.token_ranges[id.0 as usize])
        } else {
            None
        }
    }

    /// The tokens a node covers, in source order.
    pub fn tokens_for(&self, id: NodeId) -> (r: Option<&[LosslessToken]>)
        ensures
            id.0 < self.arena().len() ==> (r matches Some(ts) && ts@ == self.stream().toks().subrange(
                self.ranges()[id.0 as int].start as int,
                self.ranges()[id.0 as int].end as int,
            )),
            id.0 >= self.arena().len() ==> r is None,
    {
        proof {
            use_type_invariant(self);
        }
        let range = match self.token_range(id) {
            Some(range) => range,
            None => {
                return None;
            },
        };
        let tokens = self.tokens.tokens();
        let ntoks = tokens.len();
        if range.start <= range.end && range.end <= ntoks {
            Some(slice_subrange(tokens, range.start, range.end))
        } else {
            proof {
                lemma_token_range_bounds(self.nodes@[id.0 as int].span, tokens@);
            }
            None
        }
    }
}

proof fn lemma_first_bounds(toks: Seq<LosslessToken>, k: int, pos: int)
    requires
        0 <= k <= toks.len(),
    ensures
        k <= first_ending_after(toks, k, pos) <= toks.len(),
        k <= first_starting_from(toks, k, pos) <= toks.len(),
    decreases toks.len() - k,
{
    if k < toks.len() {
        lemma_first_bounds(toks, k + 1, pos);
    }
}

/// A token range is ordered and within the stream.
pub proof fn lemma_token_range_bounds(span: Span, toks: Seq<LosslessToken>)
    requires
        toks.len() <= usize::MAX,
    ensures
        spec_token_range(span, toks).start <= spec_token_range(span, toks).end <= toks.len(),
{
    lemma_first_bounds(toks, 0, span.start as int);
    let start = first_ending_after(toks, 0, span.start as int);
    lemma_first_bounds(toks, start, span.end as int);
}

/// Find the tokens whose spans overlap a node's span.
pub fn token_range_for_span(span: Span, tokens: &[LosslessToken]) -> (r: TokenRange)
    ensures
        r == spec_token_range(span, tokens@),
{
    let n = tokens.len();
    let mut start: usize = 0;
    while start < n && !(tokens[start].span.end > span.start)
        invariant
            start <= n == tokens@.len(),
            first_ending_after(tokens@, start as int, span.start as int) == first_ending_after(
                tokens@,
                0,
                span.start as int,
            ),
        decreases n - start,
    {
        start = start + 1;
    }
    let mut end: usize = start;
    while end < n && !(tokens[end].span.start >= span.end)
        invariant
            start <= end <= n == tokens@.len(),
            first_starting_from(tokens@, end as int, span.end as int) == first_starting_from(
                tokens@,
                start as int,
                span.end as int,
            ),
        decreases n - end,
    {
        end = end + 1;
    }
    TokenRange { start, end }
}

/// Check that a node's span is in bounds and on character boundaries.
pub fn validate_node_span(node: &CstNode, source: &str) -> (r: Result<(), LosslessCstError>)
    ensures
        r is Ok <==> span_valid(node.span, source.spec_bytes()),
        r matches Err(e) ==> e == (LosslessCstError::InvalidNodeSpan {
            node: node.id,
            span: node.span,
            source_len: source.spec_bytes().len() as usize,
        }),
{
    let n = source.as_bytes().len();
    if node.span.start > node.span.end || node.span.end > n || str_get(
        source,
        node.span.start,
        node.span.end,
    ).is_none() {
        return Err(
            LosslessCstError::InvalidNodeSpan { node: node.id, span: node.span, source_len: n },
        );
    }
    Ok(())
}

/// Give every node the range of tokens its span overlaps, after checking
/// that each node's id is its index and its span is valid; the first node
/// that fails decides the error.
pub fn associate_lossless_tokens(nodes: &[CstNode], tokens: &LosslessTokenStream) -> (r: Result<
    Vec<TokenRange>,
    LosslessCstError,
>)
    ensures
        match r {
            Ok(ranges) => ranges@.len() == nodes@.len() && forall|i: int|
                0 <= i < nodes@.len() ==> node_error(#[trigger] nodes@[i], i, tokens.src()) is None
                    && ranges@[i] == spec_token_range(nodes@[i].span, tokens.toks()),
            Err(e) => exists|k: int|
                0 <= k < nodes@.len() && (forall|j: int|
                    0 <= j < k ==> node_error(#[trigger] nodes@[j], j, tokens.src()) is None)
                    && node_error(nodes@[k], k, tokens.src()) == Some(e),
        },
{
    let source = tokens.source();
    let toks = tokens.tokens();
    let mut ranges: Vec<TokenRange> = Vec::new();
    let mut i: usize = 0;
    while i < nodes.len()
        invariant
            i <= nodes@.len(),
            ranges@.len() == i,
            source.spec_bytes() == tokens.src(),
            toks@ == tokens.toks(),
            forall|j: int|
                0 <= j < i ==> node_error(#[trigger] nodes@[j], j, tokens.src()) is None
                    && ranges@[j] == spec_token_range(nodes@[j].span, tokens.toks()),
        decreases nodes.len() - i,
    {
        let node = &nodes[i];
        #[verifier::truncate]
        let expected = NodeId(i as u32);
        if node.id != expected {
            let e = LosslessCstError::InvalidNodeId { index: i, node: node.id };
            proof {
                assert(node_error(nodes@[i as int], i as int, tokens.src()) == Some(e));
            }
            return Err(e);
        }
        match validate_node_span(node, source) {
            Ok(()) => {},
            Err(e) => {
                proof {
                    assert(node_error(nodes@[i as int], i as int, tokens.src()) == Some(e));
                }
                return Err(e);
            },
        }
        ranges.push(token_range_for_span(node.span, toks));
        i = i + 1;
    }
    Ok(ranges)
}

/// Parse a source and associate every CST node with the contiguous range
/// of lossless tokens its span overlaps. Sources with an invalid token or
/// with parse diagnostics are refused.
pub fn parse_lossless_cst(source: &str, file_id: FileId) -> (r: Result<
    LosslessCst,
    LosslessCstError,
>)
    ensures
        first_error(spec_lossless(source.spec_bytes())) matches Some(k) ==> r
            == Err::<LosslessCst, LosslessCstError>(
            LosslessCstError::InvalidToken { span: spec_lossless(source.spec_bytes())[k].span },
        ),
        r matches Ok(cst) ==> cst.stream().src() == source.spec_bytes() && cst.stream().toks()
            == spec_lossless(source.spec_bytes()) && first_error(cst.stream().toks()) is None
            && cst.root_id().0 < cst.arena().len() && cst.ranges().len() == cst.arena().len()
            && forall|i: int|
            0 <= i < cst.arena().len() ==> node_error(#[trigger] cst.arena()[i], i, source.spec_bytes())
                is None && cst.ranges()[i] == spec_token_range(
                cst.arena()[i].span,
                spec_lossless(source.spec_bytes()),
            ),
        r matches Err(LosslessCstError::Diagnostics(d)) ==> d@.len() > 0,
        !(r matches Err(LosslessCstError::Lex(_))),
        !(r matches Err(LosslessCstError::Parse { .. })),
{
    let token_stream = match LosslessTokenStream::from_source(source) {
        Ok(stream) => stream,
        Err(e) => {
            return Err(LosslessCstError::Lex(e));
        },
    };
    let toks = token_stream.tokens();
    let mut k: usize = 0;
    while k < toks.len()
        invariant
            k <= toks@.len(),
            toks@ == token_stream.toks(),
            token_stream.toks() == spec_lossless(source.spec_bytes()),
            forall|j: int| 0 <= j < k ==> toks@[j].kind != TokenKind::Error,
        decreases toks.len() - k,
    {
        if toks[k].kind == TokenKind::Error {
            proof {
                let w = choose|w: int|
                    0 <= w < toks@.len() && toks@[w].kind == TokenKind::Error && forall|j: int|
                        0 <= j < w ==> toks@[j].kind != TokenKind::Error;
                assert(toks@[k as int].kind == TokenKind::Error);
                if w < k {
                } else if w > k {
                }
                assert(w == k);
            }
            return Err(LosslessCstError::InvalidToken { span: toks[k].span });
        }
        k = k + 1;
    }
    let lexer = Lexer::new(source, Interner::new());
    let mut parser = Parser::new(lexer, file_id);
    let root = match parser.parse_file() {
        Ok(root) => root,
        Err(error) => {
            return Err(LosslessCstError::Parse { message: error.message, span: error.span });
        },
    };
    let (nodes, diagnostics) = parser.into_parts();
    if diagnostics.len() > 0 {
        return Err(LosslessCstError::Diagnostics(diagnostics));
    }
    let token_ranges = match associate_lossless_tokens(nodes.as_slice(), &token_stream) {
        Ok(ranges) => ranges,
        Err(e) => {
            return Err(e);
        },
    };
    proof {
        assert(root.0 < nodes@.len());
    }
    Ok(LosslessCst { root, nodes, tokens: token_stream, token_ranges })
}

} // verus!
