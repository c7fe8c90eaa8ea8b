use vstd::prelude::*;
use vstd::slice::slice_subrange;
use vstd::string::StringSliceAdditionalSpecFns;
use crate::grammar::{keyword_of_bytes, spec_keyword, TokenKind};
use crate::interner::{Interner, Symbol};
use crate::scan::{
    alpha_end, alpha_end_at, digits_end, digits_end_at, ident_end, ident_end_at, is_digit,
    is_ident_start, lemma_scans, lemma_skip_trivia, regex_close, regex_close_at, skip_trivia,
    skip_trivia_at, string_scan, string_scan_at,
};
use crate::span::Span;
use crate::lex_facts::lex_measure;
use crate::strings::{normalize_bytes, spec_normalize, spec_unescape, unescape};
use crate::text::{copy_range, utf8_width};

verus! {

/// Where the lexer stands with respect to string interpolation.
#[derive(Clone, Copy, Debug, PartialEq, Eq, Structural)]
pub enum StringMode {
    /// Inside the text of an interpolated string.
    Text,
    /// Inside a `{ ... }` expression of an interpolated string, with the
    /// number of nested code braces still open.
    Expression { brace_depth: usize },
}

/// A single token produced by the lexer.
#[derive(Clone, Copy, Debug)]
pub struct Token {
    pub kind: TokenKind,
    pub span: Span,
    /// Interned text for identifiers and string text, `None` for other tokens.
    pub symbol: Option<Symbol>,
}

/// The part of the lexer state that decides the next token.
pub struct LexState {
    pub pos: int,
    pub regex_mode: bool,
    pub string_mode: Option<StringMode>,
}

/// A token as the lexical grammar describes it, its text given by value.
pub struct TokSpec {
    pub kind: TokenKind,
    pub start: int,
    pub end: int,
    pub text: Option<Seq<u8>>,
}

pub open spec fn tok(kind: TokenKind, start: int, end: int) -> TokSpec {
    TokSpec { kind, start, end, text: None }
}

pub open spec fn st(pos: int, regex_mode: bool, string_mode: Option<StringMode>) -> LexState {
    LexState { pos, regex_mode, string_mode }
}

/// The kind of a token that is one of the single-byte punctuators, if `b` is one.
pub open spec fn single_byte_kind(b: u8) -> Option<TokenKind> {
    if b == 43 {
        Some(TokenKind::Plus)
    } else if b == 42 {
        Some(TokenKind::Star)
    } else if b == 37 {
        Some(TokenKind::Percent)
    } else if b == 40 {
        Some(TokenKind::LParen)
    } else if b == 41 {
        Some(TokenKind::RParen)
    } else if b == 123 {
        Some(TokenKind::LBrace)
    } else if b == 125 {
        Some(TokenKind::RBrace)
    } else if b == 91 {
        Some(TokenKind::LBracket)
    } else if b == 93 {
        Some(TokenKind::RBracket)
    } else if b == 44 {
        Some(TokenKind::Comma)
    } else if b == 46 {
        Some(TokenKind::Dot)
    } else if b == 58 {
        Some(TokenKind::Colon)
    } else if b == 64 {
        Some(TokenKind::At)
    } else if b == 35 {
        Some(TokenKind::Hash)
    } else {
        None
    }
}

/// A backtick string starting at `q`: a plain literal (decoded text), the
/// start of an interpolated string, or an error when it is never closed.
pub open spec fn lex_string_literal_spec(s: Seq<u8>, q: int, mode: Option<StringMode>) -> (
    TokSpec,
    LexState,
) {
    let r = string_scan(s, q + 1);
    if r < s.len() && s[r] == 123 {
        (tok(TokenKind::StringStart, q, q + 1), st(q + 1, false, Some(StringMode::Text)))
    } else if r < s.len() {
        (
            TokSpec {
                kind: TokenKind::StringLiteral,
                start: q,
                end: r + 1,
                text: Some(spec_normalize(s.subrange(q + 1, r))),
            },
            st(r + 1, false, mode),
        )
    } else {
        (tok(TokenKind::Error, r, r), st(r, false, mode))
    }
}

/// The token that starts at `q` in ordinary code (`q` is past the trivia).
pub open spec fn lex_code_spec(s: Seq<u8>, q: int, regex_mode: bool, mode: Option<StringMode>) -> (
    TokSpec,
    LexState,
) {
    let c = s[q];
    if c == 96 {
        lex_string_literal_spec(s, q, mode)
    } else if is_digit(c) {
        let e = digits_end(s, q);
        if e + 1 < s.len() && s[e] == 46 && is_digit(s[e + 1]) {
            let f = digits_end(s, e + 1);
            (tok(TokenKind::FloatLiteral, q, f), st(f, false, mode))
        } else {
            (tok(TokenKind::IntLiteral, q, e), st(e, false, mode))
        }
    } else if is_ident_start(c) {
        let e = ident_end(s, q);
        let w = s.subrange(q, e);
        match spec_keyword(w) {
            Some(k) => (tok(k, q, e), st(e, k == TokenKind::Matches, mode)),
            None => (
                TokSpec { kind: TokenKind::Identifier, start: q, end: e, text: Some(w) },
                st(e, false, mode),
            ),
        }
    } else if c == 61 {
        (tok(TokenKind::Eq, q, q + 1), st(q + 1, true, mode))
    } else if c == 60 || c == 62 || c == 45 {
        let follows = if c == 45 {
            62u8
        } else {
            61u8
        };
        let (one, two) = if c == 60 {
            (TokenKind::Lt, TokenKind::LtEq)
        } else if c == 62 {
            (TokenKind::Gt, TokenKind::GtEq)
        } else {
            (TokenKind::Minus, TokenKind::Arrow)
        };
        if q + 1 < s.len() && s[q + 1] == follows {
            (tok(two, q, q + 2), st(q + 2, false, mode))
        } else {
            (tok(one, q, q + 1), st(q + 1, false, mode))
        }
    } else if c == 47 {
        if regex_mode {
            let r = regex_close(s, q + 1);
            if r < s.len() {
                let e = alpha_end(s, r + 1);
                (tok(TokenKind::RegexLiteral, q, e), st(e, false, mode))
            } else {
                (tok(TokenKind::Error, q, r), st(r, false, mode))
            }
        } else {
            (tok(TokenKind::Slash, q, q + 1), st(q + 1, false, mode))
        }
    } else if single_byte_kind(c) is Some {
        (tok(single_byte_kind(c)->0, q, q + 1), st(q + 1, false, mode))
    } else {
        let e = if q + utf8_width(c) <= s.len() {
            q + utf8_width(c)
        } else {
            s.len() as int
        };
        (tok(TokenKind::Error, q, e), st(e, false, mode))
    }
}

/// Ordinary lexing from `p`: skip trivia, then read one code token or `Eof`.
pub open spec fn lex_normal_spec(s: Seq<u8>, p: int, regex_mode: bool, mode: Option<StringMode>) -> (
    TokSpec,
    LexState,
) {
    let q = skip_trivia(s, p);
    if q >= s.len() {
        (tok(TokenKind::Eof, q, q), st(q, regex_mode, mode))
    } else {
        lex_code_spec(s, q, regex_mode, mode)
    }
}

/// Lexing inside interpolated-string text: a text part (unescaped), the
/// closing backtick, the `{` that opens an expression, or an error at the end.
pub open spec fn lex_string_text_spec(s: Seq<u8>, p: int, regex_mode: bool) -> (TokSpec, LexState) {
    let r = string_scan(s, p);
    if r > p {
        (
            TokSpec {
                kind: TokenKind::StringPart,
                start: p,
                end: r,
                text: Some(spec_unescape(s.subrange(p, r))),
            },
            st(r, regex_mode, Some(StringMode::Text)),
        )
    } else if p >= s.len() {
        (tok(TokenKind::Error, p, p), st(p, regex_mode, None))
    } else if s[p] == 96 {
        (tok(TokenKind::StringEnd, p, p + 1), st(p + 1, regex_mode, None))
    } else {
        (
            tok(TokenKind::ExprStart, p, p + 1),
            st(p + 1, regex_mode, Some(StringMode::Expression { brace_depth: 0 })),
        )
    }
}

/// Lexing inside an interpolation expression: code braces are counted so
/// that the `}` matching the opening `{` ends the expression.
pub open spec fn lex_string_expression_spec(s: Seq<u8>, p: int, depth: usize, regex_mode: bool) -> (
    TokSpec,
    LexState,
) {
    let q = skip_trivia(s, p);
    if q >= s.len() {
        (tok(TokenKind::Error, q, q), st(q, regex_mode, None))
    } else if s[q] == 123 {
        (
            tok(TokenKind::LBrace, q, q + 1),
            st(q + 1, regex_mode, Some(StringMode::Expression { brace_depth: (depth + 1) as usize })),
        )
    } else if s[q] == 125 && depth == 0 {
        (tok(TokenKind::ExprEnd, q, q + 1), st(q + 1, regex_mode, Some(StringMode::Text)))
    } else if s[q] == 125 {
        (
            tok(TokenKind::RBrace, q, q + 1),
            st(q + 1, regex_mode, Some(StringMode::Expression { brace_depth: (depth - 1) as usize })),
        )
    } else {
        lex_code_spec(s, q, regex_mode, Some(StringMode::Expression { brace_depth: depth }))
    }
}

/// The next token of source `s` from lexer state `l`, and the state after it.
pub open spec fn spec_next(s: Seq<u8>, l: LexState) -> (TokSpec, LexState) {
    match l.string_mode {
        None => lex_normal_spec(s, l.pos, l.regex_mode, None),
        Some(StringMode::Text) => lex_string_text_spec(s, l.pos, l.regex_mode),
        Some(StringMode::Expression { brace_depth }) => lex_string_expression_spec(
            s,
            l.pos,
            brace_depth,
            l.regex_mode,
        ),
    }
}

/// Nested interpolation braces never outnumber the bytes already consumed.
pub open spec fn mode_fits(pos: usize, mode: Option<StringMode>) -> bool {
    match mode {
        Some(StringMode::Expression { brace_depth }) => brace_depth <= pos,
        _ => true,
    }
}

/// The lexer state machine over the UTF-8 bytes of a source text.
pub struct Lexer<'a> {
    source: &'a [u8],
    pos: usize,
    interner: Interner,
    token_start: usize,
    regex_mode: bool,
    string_mode: Option<StringMode>,
}

/// A saved lexer position that can be restored later.
#[derive(Clone, Copy)]
pub struct LexerCheckpoint {
    pos: usize,
    token_start: usize,
    regex_mode: bool,
    string_mode: Option<StringMode>,
}

impl LexerCheckpoint {
    #[verifier::type_invariant]
    spec fn fits(self) -> bool {
        mode_fits(self.pos, self.string_mode)
    }

    /// The lexer state this checkpoint records.
    pub closed spec fn state(self) -> LexState {
        st(self.pos as int, self.regex_mode, self.string_mode)
    }

    /// Where the token being read started when the checkpoint was taken.
    pub closed spec fn start_mark(self) -> int {
        self.token_start as int
    }
}

impl<'a> Lexer<'a> {
    /// Well-formedness: nested interpolation braces never outnumber the
    /// bytes consumed. Every constructor establishes it and every method keeps it.
    pub closed spec fn wf(&self) -> bool {
        mode_fits(self.pos, self.string_mode)
    }

    /// The source bytes being lexed.
    pub closed spec fn src(&self) -> Seq<u8> {
        self.source@
    }

    /// The state that decides the next token.
    pub closed spec fn state(&self) -> LexState {
        st(self.pos as int, self.regex_mode, self.string_mode)
    }

    /// Where the token being read started.
    pub closed spec fn start_mark(&self) -> int {
        self.token_start as int
    }

    /// The interned texts so far.
    pub closed spec fn names(&self) -> Seq<Seq<u8>> {
        self.interner@
    }

    /// Start lexing `source` from its first byte, interning into `interner`.
    pub fn new(source: &'a str, interner: Interner) -> (r: Lexer<'a>)
        ensures
            r.src() == source.spec_bytes(),
            r.state() == st(0, false, None),
            r.names() == interner@,
            r.wf(),
    {
        Lexer {
            source: source.as_bytes(),
            pos: 0,
            interner,
            token_start: 0,
            regex_mode: false,
            string_mode: None,
        }
    }

    /// The table of interned texts.
    pub fn interner(&self) -> (r: &Interner)
        ensures
            r@ == self.names(),
    {
        &self.interner
    }

    /// Give back the table of interned texts.
    pub fn into_interner(self) -> (r: Interner)
        ensures
            r@ == self.names(),
    {
        self.interner
    }

    /// Force the interpretation of a following `/` as a regex opener or not.
    pub fn set_regex_mode(&mut self, mode: bool)
        requires
            old(self).wf(),
        ensures
            final(self).wf(),
            final(self).src() == old(self).src(),
            final(self).names() == old(self).names(),
            final(self).state() == st(old(self).state().pos, mode, old(self).state().string_mode),
    {
        self.regex_mode = mode;
    }

    /// What well-formedness says of the state.
    pub proof fn lemma_wf_state(&self)
        requires
            self.wf(),
        ensures
            0 <= self.state().pos,
            mode_fits(self.state().pos as usize, self.state().string_mode),
    {
    }

    /// The input still to lex, as the measure that every token but `Eof`
    /// decreases.
    pub fn remaining(&self) -> (r: u128)
        requires
            self.state().pos <= self.src().len(),
        ensures
            r == lex_measure(self.src(), self.state()),
    {
        let left = (self.source.len() - self.pos) as u128;
        let bit: u128 = if self.string_mode.is_some() {
            1
        } else {
            0
        };
        2 * left + bit
    }

    /// The length of the source in bytes.
    pub fn source_len(&self) -> (n: usize)
        ensures
            n == self.src().len(),
    {
        self.source.len()
    }

    /// Return the source bytes covered by a span that lies within the source.
    pub fn source_text(&self, span: Span) -> (r: Option<&'a [u8]>)
        ensures
            span.start <= span.end <= self.src().len() ==> (r matches Some(t) && t@
                == self.src().subrange(span.start as int, span.end as int)),
            !(span.start <= span.end <= self.src().len()) ==> r is None,
    {
        if span.start <= span.end && span.end <= self.source.len() {
            Some(slice_subrange(self.source, span.start, span.end))
        } else {
            None
        }
    }

    /// Save the state that decides the next token.
    pub fn checkpoint(&self) -> (ck: LexerCheckpoint)
        requires
            self.wf(),
        ensures
            ck.state() == self.state(),
            ck.start_mark() == self.start_mark(),
    {
        LexerCheckpoint {
            pos: self.pos,
            token_start: self.token_start,
            regex_mode: self.regex_mode,
            string_mode: self.string_mode,
        }
    }

    /// Return to a saved state; interned texts are kept.
    pub fn restore(&mut self, ck: LexerCheckpoint)
        ensures
            final(self).wf(),
            final(self).src() == old(self).src(),
            final(self).names() == old(self).names(),
            final(self).state() == ck.state(),
            final(self).start_mark() == ck.start_mark(),
    {
        proof {
            use_type_invariant(&ck);
        }
        self.pos = ck.pos;
        self.token_start = ck.token_start;
        self.regex_mode = ck.regex_mode;
        self.string_mode = ck.string_mode;
    }

    /// Advance to the next token; at the end of the source this is `Eof`.
    pub fn next_token(&mut self) -> (t: Token)
        requires
            old(self).wf(),
        ensures
            final(self).wf(),
            final(self).src() == old(self).src(),
            old(self).names().is_prefix_of(final(self).names()),
            ({
                let (ts, ns) = spec_next(old(self).src(), old(self).state());
                &&& t.kind == ts.kind
                &&& t.span.start == ts.start
                &&& t.span.end == ts.end
                &&& final(self).state() == ns
                &&& match ts.text {
                    None => t.symbol is None,
                    Some(txt) => t.symbol matches Some(sym) && sym.0 < final(self).names().len()
                        && final(self).names()[sym.0 as int] == txt,
                }
            }),
    {
        match self.string_mode {
            Some(StringMode::Text) => self.lex_string_text(),
            Some(StringMode::Expression { brace_depth }) => self.lex_string_expression(
                brace_depth,
            ),
            None => self.lex_normal(),
        }
    }

    fn lex_normal(&mut self) -> (t: Token)
        requires
            mode_fits(old(self).pos, old(self).string_mode),
        ensures
            final(self).src() == old(self).src(),
            old(self).names().is_prefix_of(final(self).names()),
            mode_fits(final(self).pos, final(self).string_mode),
            ({
                let (ts, ns) = lex_normal_spec(
                    old(self).src(),
                    old(self).pos as int,
                    old(self).regex_mode,
                    old(self).string_mode,
                );
                &&& t.kind == ts.kind
                &&& t.span.start == ts.start
                &&& t.span.end == ts.end
                &&& final(self).state() == ns
                &&& match ts.text {
                    None => t.symbol is None,
                    Some(txt) => t.symbol matches Some(sym) && sym.0 < final(self).names().len()
                        && final(self).names()[sym.0 as int] == txt,
                }
            }),
    {
        proof {
            lemma_skip_trivia(self.source@, self.pos as int);
        }
        let q = skip_trivia_at(self.source, self.pos);
        self.pos = q;
        if q >= self.source.len() {
            return Token { kind: TokenKind::Eof, span: Span::new(q, q), symbol: None };
        }
        self.token_start = q;
        self.lex_code()
    }

    /// Lex one code token at `pos`, which is past any trivia and in bounds.
    fn lex_code(&mut self) -> (t: Token)
        requires
            old(self).pos < old(self).source@.len(),
            mode_fits(old(self).pos, old(self).string_mode),
        ensures
            final(self).src() == old(self).src(),
            old(self).names().is_prefix_of(final(self).names()),
            mode_fits(final(self).pos, final(self).string_mode),
            ({
                let (ts, ns) = lex_code_spec(
                    old(self).src(),
                    old(self).pos as int,
                    old(self).regex_mode,
                    old(self).string_mode,
                );
                &&& t.kind == ts.kind
                &&& t.span.start == ts.start
                &&& t.span.end == ts.end
                &&& final(self).state() == ns
                &&& match ts.text {
                    None => t.symbol is None,
                    Some(txt) => t.symbol matches Some(sym) && sym.0 < final(self).names().len()
                        && final(self).names()[sym.0 as int] == txt,
                }
            }),
    {
        let s = self.source;
        let q = self.pos;
        let regex_mode = self.regex_mode;
        self.regex_mode = false;
        let c = s[q];
        proof {
            lemma_scans(s@, q as int);
            lemma_scans(s@, (q + 1) as int);
        }
        if c == 96 {
            return self.lex_string_literal();
        }
        if 48 <= c && c <= 57 {
            let e = digits_end_at(s, q);
            if e < s.len() && s.len() - e > 1 && s[e] == 46 && 48 <= s[e + 1] && s[e + 1] <= 57 {
                proof {
                    lemma_scans(s@, (e + 1) as int);
                }
                let f = digits_end_at(s, e + 1);
                self.pos = f;
                return Token { kind: TokenKind::FloatLiteral, span: Span::new(q, f), symbol: None };
            }
            self.pos = e;
            return Token { kind: TokenKind::IntLiteral, span: Span::new(q, e), symbol: None };
        }
        if (65 <= c && c <= 90) || (97 <= c && c <= 122) || c == 95 {
            let e = ident_end_at(s, q);
            let w = slice_subrange(s, q, e);
            self.pos = e;
            match keyword_of_bytes(w) {
                Some(k) => {
                    if k == TokenKind::Matches {
                        self.regex_mode = true;
                    }
                    return Token { kind: k, span: Span::new(q, e), symbol: None };
                },
                None => {
                    let sym = self.interner.intern(w);
                    return Token {
                        kind: TokenKind::Identifier,
                        span: Span::new(q, e),
                        symbol: Some(sym),
                    };
                },
            }
        }
        if c == 61 {
            self.pos = q + 1;
            self.regex_mode = true;
            return Token { kind: TokenKind::Eq, span: Span::new(q, q + 1), symbol: None };
        }
        if c == 60 || c == 62 || c == 45 {
            let follows: u8 = if c == 45 {
                62
            } else {
                61
            };
            let (one, two) = if c == 60 {
                (TokenKind::Lt, TokenKind::LtEq)
            } else if c == 62 {
                (TokenKind::Gt, TokenKind::GtEq)
            } else {
                (TokenKind::Minus, TokenKind::Arrow)
            };
            if q + 1 < s.len() && s[q + 1] == follows {
                self.pos = q + 2;
                return Token { kind: two, span: Span::new(q, q + 2), symbol: None };
            }
            self.pos = q + 1;
            return Token { kind: one, span: Span::new(q, q + 1), symbol: None };
        }
        if c == 47 {
            if regex_mode {
                let r = regex_close_at(s, q + 1);
                if r < s.len() {
                    proof {
                        lemma_scans(s@, (r + 1) as int);
                    }
                    let e = alpha_end_at(s, r + 1);
                    self.pos = e;
                    return Token {
                        kind: TokenKind::RegexLiteral,
                        span: Span::new(q, e),
                        symbol: None,
                    };
                }
                self.pos = r;
                return Token { kind: TokenKind::Error, span: Span::new(q, r), symbol: None };
            }
            self.pos = q + 1;
            return Token { kind: TokenKind::Slash, span: Span::new(q, q + 1), symbol: None };
        }
        match single_byte_kind_of(c) {
            Some(k) => {
                self.pos = q + 1;
                Token { kind: k, span: Span::new(q, q + 1), symbol: None }
            },
            None => {
                let w: usize = if c < 0x80 {
                    1
                } else if c < 0xe0 {
                    2
                } else if c < 0xf0 {
                    3
                } else {
                    4
                };
                let e = if w <= s.len() - q {
                    q + w
                } else {
                    s.len()
                };
                self.pos = e;
                Token { kind: TokenKind::Error, span: Span::new(q, e), symbol: None }
            },
        }
    }

    fn lex_string_literal(&mut self) -> (t: Token)
        requires
            old(self).pos < old(self).source@.len(),
            old(self).source@[old(self).pos as int] == 96,
            !old(self).regex_mode,
            mode_fits(old(self).pos, old(self).string_mode),
        ensures
            final(self).src() == old(self).src(),
            old(self).names().is_prefix_of(final(self).names()),
            mode_fits(final(self).pos, final(self).string_mode),
            ({
                let (ts, ns) = lex_string_literal_spec(
                    old(self).src(),
                    old(self).pos as int,
                    old(self).string_mode,
                );
                &&& t.kind == ts.kind
                &&& t.span.start == ts.start
                &&& t.span.end == ts.end
                &&& final(self).state() == ns
                &&& match ts.text {
                    None => t.symbol is None,
                    Some(txt) => t.symbol matches Some(sym) && sym.0 < final(self).names().len()
                        && final(self).names()[sym.0 as int] == txt,
                }
            }),
    {
        let s = self.source;
        let q = self.pos;
        assert(q < s.len());
        proof {
            lemma_scans(s@, (q + 1) as int);
        }
        let r = string_scan_at(s, q + 1);
        if r < s.len() && s[r] == 123 {
            self.pos = q + 1;
            self.string_mode = Some(StringMode::Text);
            return Token { kind: TokenKind::StringStart, span: Span::new(q, q + 1), symbol: None };
        }
        if r < s.len() {
            let text = normalize_bytes(slice_subrange(s, q + 1, r));
            let sym = self.interner.intern(text.as_slice());
            self.pos = r + 1;
            return Token {
                kind: TokenKind::StringLiteral,
                span: Span::new(q, r + 1),
                symbol: Some(sym),
            };
        }
        self.pos = r;
        Token { kind: TokenKind::Error, span: Span::new(r, r), symbol: None }
    }

    fn lex_string_text(&mut self) -> (t: Token)
        requires
            old(self).string_mode == Some(StringMode::Text),
        ensures
            final(self).src() == old(self).src(),
            old(self).names().is_prefix_of(final(self).names()),
            mode_fits(final(self).pos, final(self).string_mode),
            ({
                let (ts, ns) = lex_string_text_spec(
                    old(self).src(),
                    old(self).pos as int,
                    old(self).regex_mode,
                );
                &&& t.kind == ts.kind
                &&& t.span.start == ts.start
                &&& t.span.end == ts.end
                &&& final(self).state() == ns
                &&& match ts.text {
                    None => t.symbol is None,
                    Some(txt) => t.symbol matches Some(sym) && sym.0 < final(self).names().len()
                        && final(self).names()[sym.0 as int] == txt,
                }
            }),
    {
        let s = self.source;
        let p = self.pos;
        if p >= s.len() {
            self.string_mode = None;
            return Token { kind: TokenKind::Error, span: Span::new(p, p), symbol: None };
        }
        proof {
            lemma_scans(s@, p as int);
        }
        let r = string_scan_at(s, p);
        if r > p {
            let text = unescape(slice_subrange(s, p, r));
            let sym = self.interner.intern(text.as_slice());
            self.pos = r;
            return Token { kind: TokenKind::StringPart, span: Span::new(p, r), symbol: Some(sym) };
        }
        self.pos = p + 1;
        if s[p] == 96 {
            self.string_mode = None;
            return Token { kind: TokenKind::StringEnd, span: Span::new(p, p + 1), symbol: None };
        }
        self.string_mode = Some(StringMode::Expression { brace_depth: 0 });
        Token { kind: TokenKind::ExprStart, span: Span::new(p, p + 1), symbol: None }
    }

    fn lex_string_expression(&mut self, depth: usize) -> (t: Token)
        requires
            old(self).string_mode == Some(StringMode::Expression { brace_depth: depth }),
            depth <= old(self).pos,
        ensures
            final(self).src() == old(self).src(),
            old(self).names().is_prefix_of(final(self).names()),
            mode_fits(final(self).pos, final(self).string_mode),
            ({
                let (ts, ns) = lex_string_expression_spec(
                    old(self).src(),
                    old(self).pos as int,
                    depth,
                    old(self).regex_mode,
                );
                &&& t.kind == ts.kind
                &&& t.span.start == ts.start
                &&& t.span.end == ts.end
                &&& final(self).state() == ns
                &&& match ts.text {
                    None => t.symbol is None,
                    Some(txt) => t.symbol matches Some(sym) && sym.0 < final(self).names().len()
                        && final(self).names()[sym.0 as int] == txt,
                }
            }),
    {
        proof {
            lemma_skip_trivia(self.source@, self.pos as int);
        }
        let q = skip_trivia_at(self.source, self.pos);
        self.pos = q;
        if q >= self.source.len() {
            self.string_mode = None;
            return Token { kind: TokenKind::Error, span: Span::new(q, q), symbol: None };
        }
        let c = self.source[q];
        if c == 123 {
            self.pos = q + 1;
            self.string_mode = Some(StringMode::Expression { brace_depth: depth + 1 });
            return Token { kind: TokenKind::LBrace, span: Span::new(q, q + 1), symbol: None };
        }
        if c == 125 && depth == 0 {
            self.pos = q + 1;
            self.string_mode = Some(StringMode::Text);
            return Token { kind: TokenKind::ExprEnd, span: Span::new(q, q + 1), symbol: None };
        }
        if c == 125 {
            self.pos = q + 1;
            self.string_mode = Some(StringMode::Expression { brace_depth: depth - 1 });
            return Token { kind: TokenKind::RBrace, span: Span::new(q, q + 1), symbol: None };
        }
        self.token_start = q;
        self.lex_code()
    }
}

/// Which single-byte punctuator `b` is, if any.
fn single_byte_kind_of(b: u8) -> (r: Option<TokenKind>)
    ensures
        r == single_byte_kind(b),
{
    if b == 43 {
        Some(TokenKind::Plus)
    } else if b == 42 {
        Some(TokenKind::Star)
    } else if b == 37 {
        Some(TokenKind::Percent)
    } else if b == 40 {
        Some(TokenKind::LParen)
    } else if b == 41 {
        Some(TokenKind::RParen)
    } else if b == 123 {
        Some(TokenKind::LBrace)
    } else if b == 125 {
        Some(TokenKind::RBrace)
    } else if b == 91 {
        Some(TokenKind::LBracket)
    } else if b == 93 {
        Some(TokenKind::RBracket)
    } else if b == 44 {
        Some(TokenKind::Comma)
    } else if b == 46 {
        Some(TokenKind::Dot)
    } else if b == 58 {
        Some(TokenKind::Colon)
    } else if b == 64 {
        Some(TokenKind::At)
    } else if b == 35 {
        Some(TokenKind::Hash)
    } else {
        None
    }
}

} // verus!
