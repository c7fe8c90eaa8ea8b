use vstd::prelude::*;
use vstd::utf8::valid_utf8;
use crate::grammar::{spec_keyword, TokenKind};
use crate::lex::{
    lex_code_spec, lex_normal_spec, lex_string_expression_spec, lex_string_literal_spec,
    lex_string_text_spec, mode_fits, single_byte_kind, spec_next, LexState, StringMode, TokSpec,
};
use crate::scan::{
    alpha_end, block_end, digits_end, ident_end, is_alpha, is_digit, is_ident_continue,
    is_space, lemma_scans, lemma_skip_trivia, line_end, regex_close, skip_trivia, string_scan,
};
use crate::text::{at_boundary, utf8_width};
use crate::utf8_facts::{lemma_first, lemma_slice};

verus! {

/// A measure that every non-final token decreases: twice the bytes left,
/// plus one while inside an interpolated string.
pub open spec fn lex_measure(s: Seq<u8>, l: LexState) -> int {
    2 * (s.len() - l.pos) + if l.string_mode is Some {
        1int
    } else {
        0int
    }
}

/// What every step of the lexer guarantees about positions.
pub open spec fn step_ok(s: Seq<u8>, l: LexState, t: TokSpec, n: LexState) -> bool {
    &&& l.pos <= t.start <= t.end <= s.len()
    &&& t.end == n.pos
    &&& mode_fits(n.pos as usize, n.string_mode)
    &&& (l.pos < s.len() ==> n.pos > l.pos)
    &&& (l.pos == s.len() ==> n.pos == s.len() && n.string_mode is None)
    &&& (l.pos == s.len() && l.string_mode is None ==> t.kind == TokenKind::Eof)
    &&& (t.kind == TokenKind::Eof ==> l.string_mode is None && n.string_mode is None && t.start
        == s.len())
}

pub proof fn lemma_code_facts(s: Seq<u8>, q: int, regex_mode: bool, mode: Option<StringMode>)
    requires
        0 <= q < s.len(),
        mode_fits(q as usize, mode),
        s.len() <= usize::MAX,
    ensures
        ({
            let (t, n) = lex_code_spec(s, q, regex_mode, mode);
            &&& q <= t.start <= t.end <= s.len()
            &&& t.end == n.pos
            &&& n.pos > q
            &&& t.kind != TokenKind::Eof
            &&& mode_fits(n.pos as usize, n.string_mode)
        }),
{
    lemma_scans(s, q);
    lemma_scans(s, q + 1);
    let c = s[q];
    if is_digit(c) {
        let e = digits_end(s, q);
        if e + 1 < s.len() {
            lemma_scans(s, e + 1);
        }
    }
    if c == 47 && regex_mode {
        let r = regex_close(s, q + 1);
        if r < s.len() {
            lemma_scans(s, r + 1);
        }
    }
    if is_ident_start_or(c) {
        let e = ident_end(s, q);
        let k = spec_keyword(s.subrange(q, e));
        assert(k is Some ==> k->0 != TokenKind::Eof);
    }
}

spec fn is_ident_start_or(c: u8) -> bool {
    is_alpha(c) || c == 95
}

/// Positions, progress and termination facts of one lexing step.
pub proof fn lemma_step(s: Seq<u8>, l: LexState)
    requires
        0 <= l.pos <= s.len(),
        s.len() <= usize::MAX,
        mode_fits(l.pos as usize, l.string_mode),
    ensures
        ({
            let (t, n) = spec_next(s, l);
            step_ok(s, l, t, n)
        }),
{
    lemma_skip_trivia(s, l.pos);
    lemma_scans(s, l.pos);
    let q = skip_trivia(s, l.pos);
    match l.string_mode {
        None => {
            if q < s.len() {
                lemma_code_facts(s, q, l.regex_mode, None);
            }
        },
        Some(StringMode::Text) => {},
        Some(StringMode::Expression { brace_depth }) => {
            if q < s.len() {
                lemma_code_facts(s, q, l.regex_mode, l.string_mode);
            }
        },
    }
}

/// What one lexing step does to the position and the measure: every token
/// but `Eof` strictly decreases it, and `Eof` leaves the lexer at the end.
pub proof fn lemma_next_measure(s: Seq<u8>, l: LexState)
    requires
        0 <= l.pos <= s.len(),
        s.len() <= usize::MAX,
        mode_fits(l.pos as usize, l.string_mode),
    ensures
        ({
            let (t, n) = spec_next(s, l);
            &&& 0 <= n.pos <= s.len()
            &&& mode_fits(n.pos as usize, n.string_mode)
            &&& l.pos <= t.start <= t.end <= s.len()
            &&& 0 <= lex_measure(s, n) <= lex_measure(s, l)
            &&& (t.kind != TokenKind::Eof ==> lex_measure(s, n) < lex_measure(s, l))
            &&& (t.kind == TokenKind::Eof ==> n.pos == s.len() && n.string_mode is None)
            &&& (l.pos == s.len() && l.string_mode is None ==> t.kind == TokenKind::Eof)
        }),
{
    lemma_step(s, l);
}

/// After an ASCII byte that starts a character comes another character start.
pub proof fn lemma_after_ascii(s: Seq<u8>, i: int)
    requires
        valid_utf8(s),
        0 <= i < s.len(),
        at_boundary(s, i),
        s[i] < 0x80,
    ensures
        at_boundary(s, i + 1),
{
    lemma_slice(s, i, s.len() as int);
    let t = s.subrange(i, s.len() as int);
    lemma_first(t);
    if i + 1 < s.len() {
        let u = t.subrange(1, t.len() as int);
        lemma_first(u);
        assert(u[0] == s[i + 1]);
    }
}

/// After a whole character comes another character start.
pub proof fn lemma_after_char(s: Seq<u8>, i: int)
    requires
        valid_utf8(s),
        0 <= i < s.len(),
        at_boundary(s, i),
    ensures
        i + utf8_width(s[i]) <= s.len(),
        at_boundary(s, i + utf8_width(s[i])),
{
    lemma_slice(s, i, s.len() as int);
    let t = s.subrange(i, s.len() as int);
    lemma_first(t);
    assert(t[0] == s[i]);
    let w = utf8_width(s[i]);
    if i + w < s.len() {
        let u = t.subrange(w, t.len() as int);
        lemma_first(u);
        assert(u[0] == s[i + w]);
    }
}

/// The end of a run of ASCII bytes that starts at a character start is one too.
pub proof fn lemma_ascii_run(s: Seq<u8>, i: int, e: int)
    requires
        valid_utf8(s),
        0 <= i <= e <= s.len(),
        at_boundary(s, i),
        forall|k: int| i <= k < e ==> s[k] < 0x80,
    ensures
        at_boundary(s, e),
    decreases e - i,
{
    if i < e {
        lemma_after_ascii(s, i);
        lemma_ascii_run(s, i + 1, e);
    }
}

pub proof fn lemma_ascii_runs(s: Seq<u8>, i: int)
    requires
        valid_utf8(s),
        0 <= i <= s.len(),
        at_boundary(s, i),
    ensures
        at_boundary(s, digits_end(s, i)),
        at_boundary(s, ident_end(s, i)),
        at_boundary(s, alpha_end(s, i)),
    decreases s.len() - i,
{
    if i < s.len() && s[i] < 0x80 {
        lemma_after_ascii(s, i);
        lemma_ascii_runs(s, i + 1);
    }
}

/// `block_end` stops at the end or just past a `/`.
pub proof fn lemma_block_end(s: Seq<u8>, i: int)
    requires
        0 <= i <= s.len(),
    ensures
        block_end(s, i) == s.len() || (i + 2 <= block_end(s, i) <= s.len() && s[block_end(s, i)
            - 1] == 47),
    decreases s.len() - i,
{
    if i < s.len() && !(s[i] == 42 && i + 1 < s.len() && s[i + 1] == 47) {
        lemma_block_end(s, i + 1);
    }
}

/// `line_end` stops at the end or at a `\n`.
pub proof fn lemma_line_end(s: Seq<u8>, i: int)
    requires
        0 <= i <= s.len(),
    ensures
        line_end(s, i) == s.len() || (line_end(s, i) < s.len() && s[line_end(s, i)] == 10),
    decreases s.len() - i,
{
    if i < s.len() && s[i] != 10 {
        lemma_line_end(s, i + 1);
    }
}

pub proof fn lemma_run_ends(s: Seq<u8>, i: int)
    requires
        valid_utf8(s),
        0 <= i <= s.len(),
        at_boundary(s, i),
    ensures
        at_boundary(s, digits_end(s, i)),
        at_boundary(s, ident_end(s, i)),
        at_boundary(s, alpha_end(s, i)),
        at_boundary(s, line_end(s, i)),
        at_boundary(s, block_end(s, i)),
        at_boundary(s, string_scan(s, i)),
        at_boundary(s, regex_close(s, i)),
{
    lemma_scans(s, i);
    lemma_ascii_runs(s, i);
    lemma_line_end(s, i);
    lemma_block_end(s, i);
    let b = block_end(s, i);
    if b < s.len() {
        assert(at_boundary(s, b - 1));
        lemma_after_ascii(s, b - 1);
    }
}


pub proof fn lemma_skip_trivia_boundary(s: Seq<u8>, p: int)
    requires
        valid_utf8(s),
        0 <= p <= s.len(),
        at_boundary(s, p),
    ensures
        at_boundary(s, skip_trivia(s, p)),
    decreases s.len() - p,
{
    if p < s.len() {
        lemma_scans(s, p + 1);
        if is_space(s[p]) {
            lemma_after_ascii(s, p);
            lemma_skip_trivia_boundary(s, p + 1);
        } else if s[p] == 47 && p + 1 < s.len() && (s[p + 1] == 47 || s[p + 1] == 42) {
            lemma_after_ascii(s, p);
            lemma_after_ascii(s, p + 1);
            lemma_scans(s, p + 2);
            lemma_run_ends(s, p + 2);
            if s[p + 1] == 47 {
                lemma_skip_trivia_boundary(s, line_end(s, p + 2));
            } else {
                lemma_skip_trivia_boundary(s, block_end(s, p + 2));
            }
        }
    }
}

pub proof fn lemma_code_boundaries(s: Seq<u8>, q: int, regex_mode: bool, mode: Option<StringMode>)
    requires
        valid_utf8(s),
        0 <= q < s.len(),
        at_boundary(s, q),
    ensures
        ({
            let (t, n) = lex_code_spec(s, q, regex_mode, mode);
            at_boundary(s, t.start) && at_boundary(s, t.end)
        }),
{
    let c = s[q];
    lemma_scans(s, q);
    lemma_scans(s, q + 1);
    lemma_after_char(s, q);
    if c < 0x80 {
        lemma_after_ascii(s, q);
        lemma_run_ends(s, q);
        lemma_run_ends(s, q + 1);
        if q + 1 < s.len() && s[q + 1] < 0x80 {
            lemma_after_ascii(s, q + 1);
        }
    }
    if c == 96 {
        let r = string_scan(s, q + 1);
        if r < s.len() {
            lemma_after_ascii(s, r);
        }
    }
    if is_digit(c) {
        let e = digits_end(s, q);
        if e + 1 < s.len() && s[e] == 46 {
            lemma_after_ascii(s, e);
            lemma_scans(s, e + 1);
            lemma_run_ends(s, e + 1);
        }
    }
    if c == 47 && regex_mode {
        let r = regex_close(s, q + 1);
        if r < s.len() {
            lemma_after_ascii(s, r);
            lemma_scans(s, r + 1);
            lemma_run_ends(s, r + 1);
        }
    }
}

/// On valid UTF-8, the lexer only ever stops at character starts.
pub proof fn lemma_step_boundaries(s: Seq<u8>, l: LexState)
    requires
        valid_utf8(s),
        0 <= l.pos <= s.len(),
        at_boundary(s, l.pos),
    ensures
        ({
            let (t, n) = spec_next(s, l);
            at_boundary(s, t.start) && at_boundary(s, t.end)
        }),
{
    lemma_skip_trivia(s, l.pos);
    lemma_skip_trivia_boundary(s, l.pos);
    lemma_scans(s, l.pos);
    lemma_run_ends(s, l.pos);
    let q = skip_trivia(s, l.pos);
    if q < s.len() {
        lemma_code_boundaries(s, q, l.regex_mode, l.string_mode);
        if s[q] == 123 || s[q] == 125 {
            lemma_after_ascii(s, q);
        }
    }
    if l.pos < s.len() && (s[l.pos] == 96 || s[l.pos] == 123) {
        lemma_after_ascii(s, l.pos);
    }
}


/// One lexing step, kept folded so that whole-source reasoning does not
/// unfold the lexical grammar at every token.
#[verifier::opaque]
pub open spec fn next_of(s: Seq<u8>, l: LexState) -> (TokSpec, LexState) {
    spec_next(s, l)
}

/// All tokens of `s` from lexer state `l`, up to and including `Eof`.
pub open spec fn lex_all(s: Seq<u8>, l: LexState) -> Seq<TokSpec>
    decreases lex_measure(s, l),
    when 0 <= l.pos <= s.len() && s.len() <= usize::MAX && mode_fits(l.pos as usize, l.string_mode)
{
    let (t, n) = next_of(s, l);
    proof {
        reveal(next_of);
        lemma_step(s, l);
    }
    if t.kind == TokenKind::Eof {
        seq![t]
    } else {
        seq![t] + lex_all(s, n)
    }
}

/// The token sequence of a whole source, from the initial lexer state.
pub open spec fn source_tokens(s: Seq<u8>) -> Seq<TokSpec> {
    lex_all(s, LexState { pos: 0, regex_mode: false, string_mode: None })
}


/// Brace tokens are the single brace byte they stand for.
pub proof fn lemma_step_braces(s: Seq<u8>, l: LexState)
    requires
        0 <= l.pos <= s.len(),
        s.len() <= usize::MAX,
    ensures
        ({
            let (t, n) = spec_next(s, l);
            &&& (t.kind == TokenKind::LBrace ==> t.end == t.start + 1 && 0 <= t.start < s.len()
                && s[t.start] == 123)
            &&& (t.kind == TokenKind::RBrace ==> t.end == t.start + 1 && 0 <= t.start < s.len()
                && s[t.start] == 125)
        }),
{
    lemma_skip_trivia(s, l.pos);
    let q = skip_trivia(s, l.pos);
    if q < s.len() {
        lemma_scans(s, q);
        lemma_scans(s, q + 1);
        let c = s[q];
        if is_ident_start_or(c) {
            let e = ident_end(s, q);
            let k = spec_keyword(s.subrange(q, e));
            assert(k is Some ==> k->0 != TokenKind::LBrace && k->0 != TokenKind::RBrace);
        }
    }
}

} // verus!
