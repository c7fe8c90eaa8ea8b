use vstd::prelude::*;
use vstd::string::StringSliceAdditionalSpecFns;
use vstd::utf8::{encode_utf8, encode_utf8_valid_utf8};
use crate::grammar::TokenKind;
use crate::interner::Interner;
use crate::lex::{mode_fits, spec_next, LexState, Lexer, TokSpec};
use crate::lex_facts::{next_of, lemma_step, lemma_step_braces, lemma_step_boundaries, lex_all, lex_measure, source_tokens};
use crate::span::Span;
use crate::text::at_boundary;
use crate::utf8_facts::str_get;

verus! {

/// One semantic token together with the exact trivia preceding it.
#[derive(Clone, Copy, Debug, PartialEq, Eq, Structural)]
pub struct LosslessToken {
    pub kind: TokenKind,
    pub span: Span,
    pub leading_trivia: Span,
}

impl LosslessToken {
    /// Return the token's original spelling when the span is valid for `source`.
    pub fn text<'a>(&self, source: &'a str) -> (r: Option<&'a str>)
        ensures
            r is Some <==> (self.span.start <= self.span.end <= source.spec_bytes().len()
                && at_boundary(source.spec_bytes(), self.span.start as int) && at_boundary(
                source.spec_bytes(),
                self.span.end as int,
            )),
            r matches Some(t) ==> t.spec_bytes() == source.spec_bytes().subrange(
                self.span.start as int,
                self.span.end as int,
            ),
    {
        str_get(source, self.span.start, self.span.end)
    }

    /// Return the exact whitespace and comment text preceding this token.
    pub fn trivia<'a>(&self, source: &'a str) -> (r: Option<&'a str>)
        ensures
            r is Some <==> (self.leading_trivia.start <= self.leading_trivia.end
                <= source.spec_bytes().len() && at_boundary(
                source.spec_bytes(),
                self.leading_trivia.start as int,
            ) && at_boundary(source.spec_bytes(), self.leading_trivia.end as int)),
            r matches Some(t) ==> t.spec_bytes() == source.spec_bytes().subrange(
                self.leading_trivia.start as int,
                self.leading_trivia.end as int,
            ),
    {
        str_get(source, self.leading_trivia.start, self.leading_trivia.end)
    }
}

/// Errors raised while converting the lexer stream into a lossless stream.
#[derive(Clone, Debug, PartialEq, Eq, Structural)]
pub enum LosslessLexError {
    InvalidTokenSpan { span: Span, source_len: usize },
    InvalidTokenOrder { previous: Span, current: Span },
    InvalidUtf8Boundary { span: Span },
}

/// The lossless token built from a lexed token and the offset where the
/// previous token ended: its trivia is the gap in between.
pub open spec fn lossless_token(t: TokSpec, cursor: int) -> LosslessToken {
    LosslessToken {
        kind: t.kind,
        span: Span { start: t.start as usize, end: t.end as usize },
        leading_trivia: Span { start: cursor as usize, end: t.start as usize },
    }
}

/// Lossless tokens of a token sequence whose first token follows `cursor`.
pub open spec fn lossless_of(ts: Seq<TokSpec>, cursor: int) -> Seq<LosslessToken>
    decreases ts.len(),
{
    if ts.len() == 0 {
        seq![]
    } else {
        seq![lossless_token(ts[0], cursor)] + lossless_of(ts.drop_first(), ts[0].end)
    }
}

/// The lossless token stream of a whole source.
pub open spec fn spec_lossless(s: Seq<u8>) -> Seq<LosslessToken> {
    lossless_of(source_tokens(s), 0)
}

/// The source text rebuilt from each token's trivia followed by its spelling.
pub open spec fn rebuild(s: Seq<u8>, toks: Seq<LosslessToken>) -> Seq<u8>
    decreases toks.len(),
{
    if toks.len() == 0 {
        seq![]
    } else {
        s.subrange(toks[0].leading_trivia.start as int, toks[0].leading_trivia.end as int)
            + s.subrange(toks[0].span.start as int, toks[0].span.end as int) + rebuild(
            s,
            toks.drop_first(),
        )
    }
}

/// A source-owned token stream that can reproduce its input byte for byte.
#[derive(Debug)]
pub struct LosslessTokenStream {
    source: String,
    tokens: Vec<LosslessToken>,
}

impl LosslessTokenStream {
    /// The tokens are exactly the lossless tokens of the owned source.
    #[verifier::type_invariant]
    pub closed spec fn inv(self) -> bool {
        &&& self.tokens@ == spec_lossless(encode_utf8(self.source@))
        &&& encode_utf8(self.source@).len() <= usize::MAX
    }

    /// What the invariant says, for use by other modules.
    pub proof fn lemma_inv(self)
        requires
            self.inv(),
        ensures
            self.toks() == spec_lossless(self.src()),
            well_placed(self.src(), self.toks(), 0),
            vstd::utf8::valid_utf8(self.src()),
            self.src().len() <= usize::MAX,
            self.toks().len() > 0,
            self.toks().last().kind == TokenKind::Eof,
            rebuild(self.src(), self.toks()) == self.src(),
    {
        encode_utf8_valid_utf8(self.source@);
        lemma_lossless_placed(self.src());
        lossless_stream_reproduces_source(self.src());
    }

    /// The UTF-8 bytes of the owned source.
    pub closed spec fn src(&self) -> Seq<u8> {
        encode_utf8(self.source@)
    }

    /// The tokens, in source order.
    pub closed spec fn toks(&self) -> Seq<LosslessToken> {
        self.tokens@
    }

    /// Lex `source`, keeping every gap between semantic tokens as trivia.
    /// Lexing never fails: every source yields its stream, ending in `Eof`.
    pub fn from_source(source: &str) -> (r: Result<LosslessTokenStream, LosslessLexError>)
        ensures
            r matches Ok(st) && st.src() == source.spec_bytes() && st.toks() == spec_lossless(
                source.spec_bytes(),
            ),
    {
        let ghost s = source.spec_bytes();
        proof {
            encode_utf8_valid_utf8(source@);
        }
        let n = source.as_bytes().len();
        let mut lexer = Lexer::new(source, Interner::new());
        let mut tokens: Vec<LosslessToken> = Vec::new();
        let mut cursor: usize = 0;
        assert(tokens@ + lossless_of(lex_all(s, lexer.state()), cursor as int) =~= spec_lossless(s));
        loop
            invariant_except_break
                n == s.len(),
                s == source.spec_bytes(),
                lexer.src() == s,
                lexer.wf(),
                lexer.state().pos == cursor,
                cursor <= n,
                at_boundary(s, cursor as int),
                mode_fits(cursor, lexer.state().string_mode),
                vstd::utf8::valid_utf8(s),
                tokens@ + lossless_of(lex_all(s, lexer.state()), cursor as int) == spec_lossless(s),
            ensures
                tokens@ == spec_lossless(s),
            decreases lex_measure(s, lexer.state()),
        {
            let ghost l = lexer.state();
            proof {
                lemma_step(s, l);
                lemma_step_boundaries(s, l);
            }
            let token = lexer.next_token();
            let ghost (t, nl) = spec_next(s, l);
            proof {
                reveal(next_of);
            }
            if token.span.start > token.span.end || token.span.end > n {
                return Err(LosslessLexError::InvalidTokenSpan { span: token.span, source_len: n });
            }
            if token.span.start < cursor {
                return Err(
                    LosslessLexError::InvalidTokenOrder {
                        previous: Span::new(cursor, cursor),
                        current: token.span,
                    },
                );
            }
            if str_get(source, token.span.start, token.span.end).is_none() {
                return Err(LosslessLexError::InvalidUtf8Boundary { span: token.span });
            }
            let leading_trivia = Span::new(cursor, token.span.start);
            if str_get(source, cursor, token.span.start).is_none() {
                return Err(LosslessLexError::InvalidUtf8Boundary { span: leading_trivia });
            }
            let lt = LosslessToken { kind: token.kind, span: token.span, leading_trivia };
            assert(lt == lossless_token(t, cursor as int));
            let ghost prev = tokens@;
            tokens.push(lt);
            if token.kind == TokenKind::Eof {
                assert(lex_all(s, l) == seq![t]);
                assert(seq![t].drop_first() =~= Seq::<TokSpec>::empty());
                assert(seq![t][0] == t);
                assert(lossless_of(Seq::<TokSpec>::empty(), t.end) == Seq::<LosslessToken>::empty());
                assert(lossless_of(seq![t], cursor as int) =~= seq![lt]);
                assert(tokens@ =~= prev + seq![lt]);
                break ;
            }
            assert(lex_all(s, l) == seq![t] + lex_all(s, nl));
            assert((seq![t] + lex_all(s, nl)).drop_first() =~= lex_all(s, nl));
            assert(tokens@ + lossless_of(lex_all(s, nl), t.end) =~= prev + lossless_of(
                lex_all(s, l),
                cursor as int,
            ));
            cursor = token.span.end;
        }
        let owned = source.to_owned();
        Ok(LosslessTokenStream { source: owned, tokens })
    }

    /// The complete original source owned by this stream.
    pub fn source(&self) -> (r: &str)
        ensures
            r.spec_bytes() == self.src(),
    {
        self.source.as_str()
    }

    /// All tokens, including the trailing-trivia-bearing `Eof` token.
    pub fn tokens(&self) -> (r: &[LosslessToken])
        ensures
            r@ == self.toks(),
    {
        self.tokens.as_slice()
    }

    /// A span is in bounds of the source and on character boundaries.
    pub open spec fn slice_ok(&self, span: Span) -> bool {
        &&& span.start <= span.end <= self.src().len()
        &&& at_boundary(self.src(), span.start as int)
        &&& at_boundary(self.src(), span.end as int)
    }

    /// The source text of a span that is in bounds and on character boundaries.
    pub fn slice(&self, span: Span) -> (r: Option<&str>)
        ensures
            r is Some <==> self.slice_ok(span),
            r matches Some(t) ==> t.spec_bytes() == self.src().subrange(
                span.start as int,
                span.end as int,
            ),
    {
        str_get(self.source.as_str(), span.start, span.end)
    }

    /// Reproduce the input without consulting token semantics.
    pub fn reconstruct(&self) -> (r: String)
        ensures
            encode_utf8(r@) == self.src(),
    {
        self.source.clone()
    }
}


proof fn lemma_rebuild_from(s: Seq<u8>, l: LexState)
    requires
        0 <= l.pos <= s.len(),
        s.len() <= usize::MAX,
        mode_fits(l.pos as usize, l.string_mode),
    ensures
        rebuild(s, lossless_of(lex_all(s, l), l.pos)) == s.subrange(l.pos, s.len() as int),
        lossless_of(lex_all(s, l), l.pos).len() > 0,
        lossless_of(lex_all(s, l), l.pos).last().kind == TokenKind::Eof,
    decreases lex_measure(s, l),
{
    lemma_token_ok(s, l);
    reveal(from_ok);
    let (t, n) = next_of(s, l);
    let ts = lex_all(s, l);
    let lt = lossless_token(t, l.pos);
    if t.kind == TokenKind::Eof {
        assert(ts == seq![t]);
        assert(ts.drop_first() =~= Seq::<TokSpec>::empty());
        assert(lossless_of(Seq::<TokSpec>::empty(), t.end) == Seq::<LosslessToken>::empty());
        assert(lossless_of(ts, l.pos) =~= seq![lt]);
        let lts = seq![lt];
        assert(lts.drop_first() =~= Seq::<LosslessToken>::empty());
        assert(rebuild(s, lts.drop_first()) == Seq::<u8>::empty());
        assert(rebuild(s, lts) =~= s.subrange(l.pos, s.len() as int));
    } else {
        lemma_rebuild_from(s, n);
        assert(ts == seq![t] + lex_all(s, n));
        assert(ts.drop_first() =~= lex_all(s, n));
        let rest = lossless_of(lex_all(s, n), t.end);
        assert(lossless_of(ts, l.pos) == seq![lt] + rest);
        assert((seq![lt] + rest).drop_first() =~= rest);
        assert(rebuild(s, seq![lt] + rest) =~= s.subrange(l.pos, s.len() as int));
        assert((seq![lt] + rest).last() == rest.last());
    }
}

/// Law: the trivia and spelling of the lossless tokens, concatenated in
/// order, reproduce the source byte for byte, and the stream ends in `Eof`.
pub proof fn lossless_stream_reproduces_source(s: Seq<u8>)
    requires
        s.len() <= usize::MAX,
    ensures
        rebuild(s, spec_lossless(s)) == s,
        spec_lossless(s).len() > 0,
        spec_lossless(s).last().kind == TokenKind::Eof,
{
    lemma_rebuild_from(s, LexState { pos: 0, regex_mode: false, string_mode: None });
    assert(s.subrange(0, s.len() as int) =~= s);
}


/// Placement of one lossless token: its trivia then its spelling, in
/// bounds, after `from`; braces are one byte wide.
#[verifier::opaque]
pub open spec fn from_ok(s: Seq<u8>, t: LosslessToken, from: int) -> bool {
    &&& from <= t.leading_trivia.start <= t.leading_trivia.end
    &&& t.leading_trivia.end == t.span.start
    &&& t.span.start <= t.span.end <= s.len()
    &&& (t.kind == TokenKind::LBrace ==> t.span.end == t.span.start + 1 && s[t.span.start as int]
        == 123)
    &&& (t.kind == TokenKind::RBrace ==> t.span.end == t.span.start + 1 && s[t.span.start as int]
        == 125)
}

/// All edges of a lossless token are character boundaries.
#[verifier::opaque]
pub open spec fn edges_ok(s: Seq<u8>, t: LosslessToken) -> bool {
    at_boundary(s, t.span.start as int) && at_boundary(s, t.span.end as int) && at_boundary(
        s,
        t.leading_trivia.start as int,
    )
}

/// Token `k` starts its trivia where token `k - 1` ends.
pub open spec fn follows(toks: Seq<LosslessToken>, k: int) -> bool {
    toks[k].leading_trivia.start == toks[k - 1].span.end
}

/// The placement facts every lossless token sequence of a source enjoys.
pub open spec fn well_placed(s: Seq<u8>, toks: Seq<LosslessToken>, from: int) -> bool {
    &&& forall|k: int| 0 <= k < toks.len() ==> from_ok(s, #[trigger] toks[k], from)
    &&& forall|k: int| 0 < k < toks.len() ==> #[trigger] follows(toks, k)
    &&& toks.len() > 0 ==> toks[0].leading_trivia.start == from
    &&& vstd::utf8::valid_utf8(s) ==> forall|k: int|
        0 <= k < toks.len() ==> edges_ok(s, #[trigger] toks[k])
}

proof fn lemma_token_ok(s: Seq<u8>, l: LexState)
    requires
        0 <= l.pos <= s.len(),
        s.len() <= usize::MAX,
        mode_fits(l.pos as usize, l.string_mode),
    ensures
        ({
            let (t, n) = next_of(s, l);
            &&& from_ok(s, lossless_token(t, l.pos), l.pos)
            &&& (vstd::utf8::valid_utf8(s) && at_boundary(s, l.pos) ==> edges_ok(
                s,
                lossless_token(t, l.pos),
            ) && at_boundary(s, n.pos))
            &&& n.pos == t.end
            &&& 0 <= n.pos <= s.len()
            &&& mode_fits(n.pos as usize, n.string_mode)
            &&& (t.kind != TokenKind::Eof ==> lex_measure(s, n) < lex_measure(s, l))
            &&& (t.kind == TokenKind::Eof ==> t.start == s.len() && t.end == s.len())
            &&& lex_all(s, l) == if t.kind == TokenKind::Eof {
                seq![t]
            } else {
                seq![t] + lex_all(s, n)
            }
        }),
{
    reveal(next_of);
    reveal(from_ok);
    reveal(edges_ok);
    lemma_step(s, l);
    lemma_step_braces(s, l);
    if vstd::utf8::valid_utf8(s) && at_boundary(s, l.pos) {
        lemma_step_boundaries(s, l);
    }
}

proof fn lemma_placed_cons(s: Seq<u8>, lt: LosslessToken, rest: Seq<LosslessToken>, from: int)
    requires
        from_ok(s, lt, from),
        lt.leading_trivia.start == from,
        vstd::utf8::valid_utf8(s) ==> edges_ok(s, lt),
        well_placed(s, rest, lt.span.end as int),
    ensures
        well_placed(s, seq![lt] + rest, from),
{
    let all = seq![lt] + rest;
    assert forall|k: int| 0 <= k < all.len() implies from_ok(s, #[trigger] all[k], from) by {
        reveal(from_ok);
        if k > 0 {
            assert(all[k] == rest[k - 1]);
            assert(from_ok(s, rest[k - 1], lt.span.end as int));
        }
    }
    assert forall|k: int| 0 < k < all.len() implies #[trigger] follows(all, k) by {
        assert(all[k] == rest[k - 1]);
        if k > 1 {
            assert(all[k - 1] == rest[k - 2]);
            assert(follows(rest, k - 1));
        }
    }
    if vstd::utf8::valid_utf8(s) {
        assert forall|k: int| 0 <= k < all.len() implies edges_ok(s, #[trigger] all[k]) by {
            if k > 0 {
                assert(all[k] == rest[k - 1]);
            }
        }
    }
}

proof fn lemma_placed_from(s: Seq<u8>, l: LexState)
    requires
        0 <= l.pos <= s.len(),
        s.len() <= usize::MAX,
        mode_fits(l.pos as usize, l.string_mode),
        vstd::utf8::valid_utf8(s) ==> at_boundary(s, l.pos),
    ensures
        well_placed(s, lossless_of(lex_all(s, l), l.pos), l.pos),
    decreases lex_measure(s, l),
{
    lemma_token_ok(s, l);
    let (t, n) = next_of(s, l);
    let ts = lex_all(s, l);
    let lt = lossless_token(t, l.pos);
    if t.kind == TokenKind::Eof {
        assert(ts.drop_first() =~= Seq::<TokSpec>::empty());
        assert(lossless_of(Seq::<TokSpec>::empty(), t.end) == Seq::<LosslessToken>::empty());
        assert(lossless_of(ts, l.pos) =~= seq![lt]);
        lemma_placed_cons(s, lt, Seq::<LosslessToken>::empty(), l.pos);
        assert(seq![lt] + Seq::<LosslessToken>::empty() =~= seq![lt]);
    } else {
        lemma_placed_from(s, n);
        assert(ts.drop_first() =~= lex_all(s, n));
        let rest = lossless_of(lex_all(s, n), t.end);
        assert(lossless_of(ts, l.pos) == seq![lt] + rest);
        lemma_placed_cons(s, lt, rest, l.pos);
    }
}

/// Placement of the lossless tokens of a source: ordered, contiguous, in
/// bounds, starting at offset 0, braces one byte wide, and on character
/// boundaries of valid UTF-8.
pub proof fn lemma_lossless_placed(s: Seq<u8>)
    requires
        s.len() <= usize::MAX,
    ensures
        well_placed(s, spec_lossless(s), 0),
{
    lemma_placed_from(s, LexState { pos: 0, regex_mode: false, string_mode: None });
}

} // verus!
