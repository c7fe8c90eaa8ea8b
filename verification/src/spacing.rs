use vstd::prelude::*;
use vstd::string::StringSliceAdditionalSpecFns;
use vstd::utf8::{valid_utf8, valid_utf8_concat};
use crate::grammar::TokenKind;
use crate::lossless::{
    edges_ok, from_ok, lossless_stream_reproduces_source, rebuild, spec_lossless, well_placed,
    LosslessToken, LosslessTokenStream,
};
use crate::span::Span;
use crate::text::{
    append_range, at_boundary, hws, lemma_strip_add, lemma_strip_horizontal, string_from_utf8,
    strip_hws,
};
use crate::utf8_facts::{lemma_ascii_byte, lemma_slice};
use vstd::utf8::encode_utf8;

verus! {

/// The canonical spacing chosen for one token boundary.
#[derive(Clone, Copy, Debug, PartialEq, Eq, Structural)]
pub enum Spacing {
    /// The tokens touch.
    Joined,
    /// One space separates the tokens.
    Spaced,
}

impl Spacing {
    /// The bytes this spacing writes between two tokens.
    pub open spec fn bytes(self) -> Seq<u8> {
        match self {
            Spacing::Joined => seq![],
            Spacing::Spaced => seq![32u8],
        }
    }
}

/// Literals, identifiers, keywords and type-like names.
pub open spec fn word_like(k: TokenKind) -> bool {
    ||| k == TokenKind::IntLiteral
    ||| k == TokenKind::FloatLiteral
    ||| k == TokenKind::StringLiteral
    ||| k == TokenKind::TrueKw
    ||| k == TokenKind::FalseKw
    ||| k == TokenKind::RegexLiteral
    ||| k == TokenKind::Identifier
    ||| k == TokenKind::Struct
    ||| k == TokenKind::Enum
    ||| k == TokenKind::Exports
    ||| k == TokenKind::Not
    ||| k == TokenKind::Contains
    ||| k == TokenKind::Less
    ||| k == TokenKind::More
    ||| k == TokenKind::Least
    ||| k == TokenKind::Most
    ||| k == TokenKind::Equals
    ||| k == TokenKind::In
    ||| k == TokenKind::Matches
    ||| k == TokenKind::Starts
    ||| k == TokenKind::Ends
}

/// Operators that always join two operands (minus is decided by context).
pub open spec fn binary_kind(k: TokenKind) -> bool {
    ||| k == TokenKind::Eq
    ||| k == TokenKind::Arrow
    ||| k == TokenKind::Plus
    ||| k == TokenKind::Star
    ||| k == TokenKind::Slash
    ||| k == TokenKind::Percent
    ||| k == TokenKind::Lt
    ||| k == TokenKind::Gt
    ||| k == TokenKind::LtEq
    ||| k == TokenKind::GtEq
    ||| k == TokenKind::Less
    ||| k == TokenKind::More
    ||| k == TokenKind::Least
    ||| k == TokenKind::Most
    ||| k == TokenKind::Equals
    ||| k == TokenKind::Contains
    ||| k == TokenKind::In
    ||| k == TokenKind::Matches
    ||| k == TokenKind::Starts
    ||| k == TokenKind::Ends
}

/// Tokens after which a minus begins an operand rather than joining two.
pub open spec fn unary_context(k: TokenKind) -> bool {
    ||| k == TokenKind::LBrace
    ||| k == TokenKind::LParen
    ||| k == TokenKind::LBracket
    ||| k == TokenKind::Comma
    ||| k == TokenKind::Colon
    ||| k == TokenKind::Minus
    ||| k == TokenKind::Not
    ||| binary_kind(k)
}

/// The token at `i` begins an expression.
pub open spec fn unary_at(toks: Seq<LosslessToken>, i: int) -> bool {
    i == 0 || unary_context(toks[i - 1].kind)
}

/// A token of kind `kind` at `i` is a binary operator.
pub open spec fn binary_at(kind: TokenKind, toks: Seq<LosslessToken>, i: int) -> bool {
    if kind != TokenKind::Minus {
        binary_kind(kind)
    } else {
        !unary_at(toks, i)
    }
}

/// Walking back from `c` over identifiers, slashes and dots reaches an `@`.
pub open spec fn path_back(toks: Seq<LosslessToken>, c: int) -> bool
    decreases c + 1,
{
    if c < 0 || c >= toks.len() {
        false
    } else if toks[c].kind == TokenKind::Identifier || toks[c].kind == TokenKind::Slash
        || toks[c].kind == TokenKind::Dot {
        path_back(toks, c - 1)
    } else {
        toks[c].kind == TokenKind::At
    }
}

/// The slash at `i` separates the segments of an import path.
pub open spec fn path_separator_at(toks: Seq<LosslessToken>, i: int) -> bool {
    &&& 0 <= i < toks.len()
    &&& toks[i].kind == TokenKind::Slash
    &&& ((i >= 1 && (toks[i - 1].kind == TokenKind::At || toks[i - 1].kind == TokenKind::Dot))
        || path_back(toks, i - 1))
}

/// The spelling of a quantifier word: `all`, `any`, `one` or `none`.
pub open spec fn quantifier_word(w: Seq<u8>) -> bool {
    ||| w == seq![97u8, 108, 108]
    ||| w == seq![97u8, 110, 121]
    ||| w == seq![111u8, 110, 101]
    ||| w == seq![110u8, 111, 110, 101]
}

/// The token spelled in `s` is a quantifier word or `not`, which keep a
/// space before their parenthesis.
pub open spec fn lparen_spaced(p: LosslessToken, s: Seq<u8>) -> bool {
    ||| p.kind == TokenKind::Not
    ||| (p.kind == TokenKind::Identifier && p.span.start <= p.span.end <= s.len() && at_boundary(
        s,
        p.span.start as int,
    ) && at_boundary(s, p.span.end as int) && quantifier_word(
        s.subrange(p.span.start as int, p.span.end as int),
    ))
}

/// The canonical spacing between token `i - 1` and token `i`, or `None`
/// where the gap is kept as written.
pub open spec fn spacing_of(toks: Seq<LosslessToken>, i: int, s: Seq<u8>) -> Option<Spacing> {
    let p = toks[i - 1];
    let c = toks[i];
    if path_separator_at(toks, i - 1) || path_separator_at(toks, i) || p.kind == TokenKind::At {
        Some(Spacing::Joined)
    } else if p.kind == TokenKind::LBrace && c.kind == TokenKind::RBrace {
        Some(Spacing::Joined)
    } else if c.kind == TokenKind::RBrace {
        Some(Spacing::Spaced)
    } else if c.kind == TokenKind::LBrace {
        if p.kind == TokenKind::LParen || p.kind == TokenKind::LBracket {
            Some(Spacing::Joined)
        } else {
            Some(Spacing::Spaced)
        }
    } else if c.kind == TokenKind::LParen {
        if p.kind == TokenKind::LBrace || p.kind == TokenKind::Comma || p.kind == TokenKind::Colon
            || binary_at(p.kind, toks, i - 1) || lparen_spaced(p, s) {
            Some(Spacing::Spaced)
        } else {
            Some(Spacing::Joined)
        }
    } else if p.kind == TokenKind::LBrace {
        Some(Spacing::Spaced)
    } else if c.kind == TokenKind::Dot && i + 1 < toks.len() && toks[i + 1].kind
        == TokenKind::Slash {
        if p.kind == TokenKind::Eq {
            Some(Spacing::Spaced)
        } else {
            Some(Spacing::Joined)
        }
    } else if c.kind == TokenKind::RParen || c.kind == TokenKind::RBracket || c.kind
        == TokenKind::Dot || c.kind == TokenKind::Comma || c.kind == TokenKind::Colon || c.kind
        == TokenKind::LBracket {
        Some(Spacing::Joined)
    } else if p.kind == TokenKind::LParen || p.kind == TokenKind::LBracket || p.kind
        == TokenKind::Dot {
        Some(Spacing::Joined)
    } else if p.kind == TokenKind::Comma || p.kind == TokenKind::Colon {
        Some(Spacing::Spaced)
    } else if binary_at(p.kind, toks, i - 1) || binary_at(c.kind, toks, i) {
        Some(Spacing::Spaced)
    } else if p.kind == TokenKind::Minus && unary_at(toks, i - 1) {
        Some(Spacing::Joined)
    } else if word_like(p.kind) && word_like(c.kind) {
        Some(Spacing::Spaced)
    } else if p.kind == TokenKind::RBracket && word_like(c.kind) {
        Some(Spacing::Spaced)
    } else {
        None
    }
}

/// Every byte of `g` is a space or a tab.
pub open spec fn horizontal(g: Seq<u8>) -> bool {
    forall|j: int| 0 <= j < g.len() ==> #[trigger] g[j] == 32 || g[j] == 9
}

/// `gap` shares a byte with one of the `opaque` ranges.
pub open spec fn overlaps_any(gap: Span, opaque: Seq<Span>) -> bool {
    exists|r: int|
        0 <= r < opaque.len() && #[trigger] opaque[r].start < gap.end && gap.start < opaque[r].end
}

/// The gap written in front of token `k`: a horizontal gap between two
/// tokens outside opaque ranges takes its canonical spacing, when there is
/// one; every other gap is kept.
pub open spec fn new_gap(s: Seq<u8>, toks: Seq<LosslessToken>, opaque: Seq<Span>, k: int) -> Seq<
    u8,
> {
    let t = toks[k];
    let g = s.subrange(t.leading_trivia.start as int, t.leading_trivia.end as int);
    if k >= 1 && t.kind != TokenKind::Eof && horizontal(g) && !overlaps_any(t.leading_trivia, opaque)
        && spacing_of(toks, k, s) is Some {
        spacing_of(toks, k, s)->0.bytes()
    } else {
        g
    }
}

/// The respaced text from token `k` on: each gap as `new_gap` gives it,
/// then the token's own spelling.
pub open spec fn spaced_from(s: Seq<u8>, toks: Seq<LosslessToken>, opaque: Seq<Span>, k: int) -> Seq<
    u8,
>
    decreases toks.len() - k,
{
    if k < 0 || k >= toks.len() {
        seq![]
    } else {
        new_gap(s, toks, opaque, k) + s.subrange(toks[k].span.start as int, toks[k].span.end as int)
            + spaced_from(s, toks, opaque, k + 1)
    }
}

/// The whole respaced text.
pub open spec fn spaced_text(s: Seq<u8>, toks: Seq<LosslessToken>, opaque: Seq<Span>) -> Seq<u8> {
    spaced_from(s, toks, opaque, 0)
}

/// Literals, identifiers, keywords and type-like names are word shaped.
pub fn is_word_like(kind: TokenKind) -> (r: bool)
    ensures
        r == word_like(kind),
{
    matches!(
        kind,
        TokenKind::IntLiteral | TokenKind::FloatLiteral | TokenKind::StringLiteral
            | TokenKind::TrueKw | TokenKind::FalseKw | TokenKind::RegexLiteral
            | TokenKind::Identifier | TokenKind::Struct | TokenKind::Enum | TokenKind::Exports
            | TokenKind::Not | TokenKind::Contains | TokenKind::Less | TokenKind::More
            | TokenKind::Least | TokenKind::Most | TokenKind::Equals | TokenKind::In
            | TokenKind::Matches | TokenKind::Starts | TokenKind::Ends
    )
}

fn is_binary_kind(kind: TokenKind) -> (r: bool)
    ensures
        r == binary_kind(kind),
{
    matches!(
        kind,
        TokenKind::Eq | TokenKind::Arrow | TokenKind::Plus | TokenKind::Star | TokenKind::Slash
            | TokenKind::Percent | TokenKind::Lt | TokenKind::Gt | TokenKind::LtEq
            | TokenKind::GtEq | TokenKind::Less | TokenKind::More | TokenKind::Least
            | TokenKind::Most | TokenKind::Equals | TokenKind::Contains | TokenKind::In
            | TokenKind::Matches | TokenKind::Starts | TokenKind::Ends
    )
}

/// Whether a minus at `index` begins an expression rather than joining two operands.
pub fn is_unary_prefix(tokens: &[LosslessToken], index: usize) -> (r: bool)
    requires
        index <= tokens@.len(),
    ensures
        r == unary_at(tokens@, index as int),
{
    if index == 0 {
        return true;
    }
    let k = tokens[index - 1].kind;
    matches!(
        k,
        TokenKind::LBrace | TokenKind::LParen | TokenKind::LBracket | TokenKind::Comma
            | TokenKind::Colon | TokenKind::Minus | TokenKind::Not
    ) || is_binary_kind(k)
}

/// Arithmetic and comparison operators; a minus counts only where it is not a prefix.
pub fn is_binary_operator(kind: TokenKind, tokens: &[LosslessToken], index: usize) -> (r: bool)
    requires
        index <= tokens@.len(),
    ensures
        r == binary_at(kind, tokens@, index as int),
{
    if kind != TokenKind::Minus {
        return is_binary_kind(kind);
    }
    !is_unary_prefix(tokens, index)
}

/// Whether the slash at `index` belongs to an import path rather than arithmetic.
pub fn is_path_separator(tokens: &[LosslessToken], index: usize) -> (r: bool)
    ensures
        r == path_separator_at(tokens@, index as int),
{
    if index >= tokens.len() || tokens[index].kind != TokenKind::Slash {
        return false;
    }
    if index >= 1 && (tokens[index - 1].kind == TokenKind::At || tokens[index - 1].kind
        == TokenKind::Dot) {
        return true;
    }
    let mut cursor = index;
    while cursor > 0
        invariant
            cursor <= index < tokens@.len(),
            tokens@[index as int].kind == TokenKind::Slash,
            !(index >= 1 && (tokens@[index - 1].kind == TokenKind::At || tokens@[index - 1].kind
                == TokenKind::Dot)),
            path_back(tokens@, index - 1) == path_back(tokens@, cursor - 1),
        decreases cursor,
    {
        cursor = cursor - 1;
        let k = tokens[cursor].kind;
        if k == TokenKind::At {
            return true;
        }
        if !(k == TokenKind::Identifier || k == TokenKind::Slash || k == TokenKind::Dot) {
            return false;
        }
    }
    false
}

/// The bytes spell a quantifier word.
fn is_quantifier_word(w: &[u8]) -> (r: bool)
    ensures
        r == quantifier_word(w@),
{
    let yes = if w.len() == 3 {
        (w[0] == 97 && w[1] == 108 && w[2] == 108) || (w[0] == 97 && w[1] == 110 && w[2] == 121)
            || (w[0] == 111 && w[1] == 110 && w[2] == 101)
    } else if w.len() == 4 {
        w[0] == 110 && w[1] == 111 && w[2] == 110 && w[3] == 101
    } else {
        false
    };
    proof {
        if w@.len() == 3 {
            if yes {
            } else {
                assert(w@ != seq![97u8, 108, 108] && w@ != seq![97u8, 110, 121] && w@ != seq![
                    111u8,
                    110,
                    101,
                ]) by {
                    if w@ == seq![97u8, 108, 108] {
                        assert(w@[0] == 97 && w@[1] == 108 && w@[2] == 108);
                    }
                    if w@ == seq![97u8, 110, 121] {
                        assert(w@[0] == 97 && w@[1] == 110 && w@[2] == 121);
                    }
                    if w@ == seq![111u8, 110, 101] {
                        assert(w@[0] == 111 && w@[1] == 110 && w@[2] == 101);
                    }
                }
            }
            if w@[0] == 97 && w@[1] == 108 && w@[2] == 108 {
                assert(w@ =~= seq![97u8, 108, 108]);
            }
            if w@[0] == 97 && w@[1] == 110 && w@[2] == 121 {
                assert(w@ =~= seq![97u8, 110, 121]);
            }
            if w@[0] == 111 && w@[1] == 110 && w@[2] == 101 {
                assert(w@ =~= seq![111u8, 110, 101]);
            }
        } else if w@.len() == 4 {
            if w@[0] == 110 && w@[1] == 111 && w@[2] == 110 && w@[3] == 101 {
                assert(w@ =~= seq![110u8, 111, 110, 101]);
            } else if w@ == seq![110u8, 111, 110, 101] {
                assert(w@[0] == 110 && w@[1] == 111 && w@[2] == 110 && w@[3] == 101);
            }
        }
    }
    yes
}

/// Quantifier words and `not` keep a space before their parenthesis, which
/// tells them apart from ordinary calls.
pub fn needs_space_before_lparen(previous: &LosslessToken, source: &str) -> (r: bool)
    ensures
        r == lparen_spaced(*previous, source.spec_bytes()),
{
    if previous.kind == TokenKind::Not {
        return true;
    }
    if previous.kind != TokenKind::Identifier {
        return false;
    }
    match previous.text(source) {
        Some(text) => is_quantifier_word(text.as_bytes()),
        None => false,
    }
}

/// Choose the canonical spacing between token `index - 1` and token
/// `index`; `None` keeps the gap exactly as written.
pub fn spacing_between(tokens: &[LosslessToken], index: usize, source: &str) -> (r: Option<
    Spacing,
>)
    requires
        1 <= index < tokens@.len(),
    ensures
        r == spacing_of(tokens@, index as int, source.spec_bytes()),
{
    let previous = tokens[index - 1];
    let current = tokens[index];
    if is_path_separator(tokens, index - 1) || is_path_separator(tokens, index) || previous.kind
        == TokenKind::At {
        return Some(Spacing::Joined);
    }
    if previous.kind == TokenKind::LBrace && current.kind == TokenKind::RBrace {
        return Some(Spacing::Joined);
    }
    if current.kind == TokenKind::RBrace {
        return Some(Spacing::Spaced);
    }
    if current.kind == TokenKind::LBrace {
        return if previous.kind == TokenKind::LParen || previous.kind == TokenKind::LBracket {
            Some(Spacing::Joined)
        } else {
            Some(Spacing::Spaced)
        };
    }
    if current.kind == TokenKind::LParen {
        return if previous.kind == TokenKind::LBrace || previous.kind == TokenKind::Comma
            || previous.kind == TokenKind::Colon || is_binary_operator(
            previous.kind,
            tokens,
            index - 1,
        ) || needs_space_before_lparen(&previous, source) {
            Some(Spacing::Spaced)
        } else {
            Some(Spacing::Joined)
        };
    }
    if previous.kind == TokenKind::LBrace {
        return Some(Spacing::Spaced);
    }
    if current.kind == TokenKind::Dot && index + 1 < tokens.len() && tokens[index + 1].kind
        == TokenKind::Slash {
        return if previous.kind == TokenKind::Eq {
            Some(Spacing::Spaced)
        } else {
            Some(Spacing::Joined)
        };
    }
    if matches!(
        current.kind,
        TokenKind::RParen | TokenKind::RBracket | TokenKind::Dot | TokenKind::Comma
            | TokenKind::Colon | TokenKind::LBracket
    ) {
        return Some(Spacing::Joined);
    }
    if matches!(previous.kind, TokenKind::LParen | TokenKind::LBracket | TokenKind::Dot) {
        return Some(Spacing::Joined);
    }
    if previous.kind == TokenKind::Comma || previous.kind == TokenKind::Colon {
        return Some(Spacing::Spaced);
    }
    if is_binary_operator(previous.kind, tokens, index - 1) || is_binary_operator(
        current.kind,
        tokens,
        index,
    ) {
        return Some(Spacing::Spaced);
    }
    if previous.kind == TokenKind::Minus && is_unary_prefix(tokens, index - 1) {
        return Some(Spacing::Joined);
    }
    if is_word_like(previous.kind) && is_word_like(current.kind) {
        return Some(Spacing::Spaced);
    }
    if previous.kind == TokenKind::RBracket && is_word_like(current.kind) {
        return Some(Spacing::Spaced);
    }
    None
}

/// Whether the bytes of `gap` are all spaces and tabs.
fn is_horizontal_gap(b: &[u8], gap: Span) -> (r: bool)
    requires
        gap.start <= gap.end <= b@.len(),
    ensures
        r == horizontal(b@.subrange(gap.start as int, gap.end as int)),
{
    let ghost g = b@.subrange(gap.start as int, gap.end as int);
    let mut i = gap.start;
    while i < gap.end
        invariant
            gap.start <= i <= gap.end <= b@.len(),
            g == b@.subrange(gap.start as int, gap.end as int),
            forall|j: int| 0 <= j < i - gap.start ==> #[trigger] g[j] == 32 || g[j] == 9,
        decreases gap.end - i,
    {
        if !(b[i] == 32 || b[i] == 9) {
            assert(g[i - gap.start] == b@[i as int]);
            return false;
        }
        assert(g[i - gap.start] == b@[i as int]);
        i = i + 1;
    }
    true
}

/// Whether `gap` touches the inside of a string, an interpolation or a comment.
pub fn overlaps_opaque(gap: Span, opaque_ranges: &[Span]) -> (r: bool)
    ensures
        r == overlaps_any(gap, opaque_ranges@),
{
    let mut k: usize = 0;
    while k < opaque_ranges.len()
        invariant
            k <= opaque_ranges@.len(),
            forall|r: int|
                0 <= r < k ==> !(#[trigger] opaque_ranges@[r].start < gap.end && gap.start
                    < opaque_ranges@[r].end),
        decreases opaque_ranges.len() - k,
    {
        let range = opaque_ranges[k];
        if range.start < gap.end && gap.start < range.end {
            return true;
        }
        k = k + 1;
    }
    false
}

/// Rewrite only horizontal gaps between adjacent tokens to their canonical
/// spacing; line breaks, comments, strings and everything opaque stay.
pub fn rewrite_token_spacing(stream: &LosslessTokenStream, opaque_ranges: &[Span]) -> (r: String)
    ensures
        encode_utf8(r@) == spaced_text(stream.src(), stream.toks(), opaque_ranges@),
{
    proof {
        use_type_invariant(stream);
        stream.lemma_inv();
    }
    let source = stream.source();
    let b = source.as_bytes();
    let tokens = stream.tokens();
    let ghost s = b@;
    let ghost toks = tokens@;
    let ghost op = opaque_ranges@;
    let mut out: Vec<u8> = Vec::new();
    let mut k: usize = 0;
    proof {
        assert(out@ + spaced_from(s, toks, op, 0) =~= spaced_from(s, toks, op, 0));
        assert(valid_utf8(out@));
    }
    while k < tokens.len()
        invariant
            k <= tokens@.len(),
            s == b@,
            s == stream.src(),
            s == source.spec_bytes(),
            toks == tokens@,
            toks == stream.toks(),
            op == opaque_ranges@,
            well_placed(s, toks, 0),
            valid_utf8(s),
            valid_utf8(out@),
            out@ + spaced_from(s, toks, op, k as int) == spaced_from(s, toks, op, 0),
        decreases tokens.len() - k,
    {
        let t = tokens[k];
        proof {
            assert(toks[k as int] == t);
            assert(from_ok(s, t, 0));
            assert(edges_ok(s, t));
            reveal(from_ok);
            reveal(edges_ok);
        }
        let ghost before = out@;
        let mut replaced = false;
        if k >= 1 && t.kind != TokenKind::Eof && is_horizontal_gap(b, t.leading_trivia)
            && !overlaps_opaque(t.leading_trivia, opaque_ranges) {
            match spacing_between(tokens, k, source) {
                Some(sp) => {
                    if sp == Spacing::Spaced {
                        out.push(32);
                        proof {
                            lemma_ascii_byte(32);
                            valid_utf8_concat(before, seq![32u8]);
                            assert(out@ =~= before + seq![32u8]);
                        }
                    } else {
                        assert(out@ =~= before + Seq::<u8>::empty());
                    }
                    replaced = true;
                },
                None => {},
            }
        }
        if !replaced {
            append_range(&mut out, b, t.leading_trivia.start, t.leading_trivia.end);
            proof {
                lemma_slice(s, t.leading_trivia.start as int, t.leading_trivia.end as int);
                valid_utf8_concat(
                    before,
                    s.subrange(t.leading_trivia.start as int, t.leading_trivia.end as int),
                );
            }
        }
        assert(out@ == before + new_gap(s, toks, op, k as int));
        let ghost mid = out@;
        append_range(&mut out, b, t.span.start, t.span.end);
        proof {
            lemma_slice(s, t.span.start as int, t.span.end as int);
            valid_utf8_concat(mid, s.subrange(t.span.start as int, t.span.end as int));
            assert(out@ + spaced_from(s, toks, op, k + 1) =~= before + spaced_from(
                s,
                toks,
                op,
                k as int,
            ));
        }
        k = k + 1;
    }
    proof {
        assert(out@ =~= spaced_from(s, toks, op, 0));
    }
    match string_from_utf8(out) {
        Some(text) => text,
        None => {
            proof {
                assert(false);
            }
            String::new()
        },
    }
}


proof fn lemma_spaced_strip(s: Seq<u8>, toks: Seq<LosslessToken>, opaque: Seq<Span>, k: int)
    requires
        0 <= k <= toks.len(),
    ensures
        strip_hws(spaced_from(s, toks, opaque, k)) == strip_hws(
            rebuild(s, toks.subrange(k, toks.len() as int)),
        ),
    decreases toks.len() - k,
{
    let rest_toks = toks.subrange(k, toks.len() as int);
    if k == toks.len() {
        assert(rest_toks =~= Seq::<LosslessToken>::empty());
    } else {
        lemma_spaced_strip(s, toks, opaque, k + 1);
        let t = toks[k];
        let g = s.subrange(t.leading_trivia.start as int, t.leading_trivia.end as int);
        let w = s.subrange(t.span.start as int, t.span.end as int);
        let ng = new_gap(s, toks, opaque, k);
        let later = spaced_from(s, toks, opaque, k + 1);
        assert(rest_toks[0] == t);
        assert(rest_toks.drop_first() =~= toks.subrange(k + 1, toks.len() as int));
        let rb = rebuild(s, toks.subrange(k + 1, toks.len() as int));
        assert(rebuild(s, rest_toks) == g + w + rb);
        assert(strip_hws(ng) == strip_hws(g)) by {
            if ng != g {
                assert(horizontal(g));
                assert forall|j: int| 0 <= j < g.len() implies hws(#[trigger] g[j]) by {}
                lemma_strip_horizontal(g);
                let sp = spacing_of(toks, k, s)->0;
                assert(ng == sp.bytes());
                assert forall|j: int| 0 <= j < ng.len() implies hws(#[trigger] ng[j]) by {}
                lemma_strip_horizontal(ng);
            }
        }
        lemma_strip_add(ng + w, later);
        lemma_strip_add(ng, w);
        lemma_strip_add(g + w, rb);
        lemma_strip_add(g, w);
    }
}

/// Law: respacing a source changes nothing but spaces and tabs.
pub proof fn spacing_only_moves_horizontal_space(s: Seq<u8>, opaque: Seq<Span>)
    requires
        s.len() <= usize::MAX,
    ensures
        strip_hws(spaced_text(s, spec_lossless(s), opaque)) == strip_hws(s),
{
    let toks = spec_lossless(s);
    lossless_stream_reproduces_source(s);
    lemma_spaced_strip(s, toks, opaque, 0);
    assert(toks.subrange(0, toks.len() as int) =~= toks);
}

/// Walking back from any token of a run of identifiers, slashes and dots
/// that follows an `@` reaches the `@`.
proof fn lemma_path_back_run(toks: Seq<LosslessToken>, a: int, c: int)
    requires
        0 <= a <= c < toks.len(),
        toks[a].kind == TokenKind::At,
        forall|j: int|
            a < j <= c ==> (#[trigger] toks[j].kind == TokenKind::Identifier || toks[j].kind
                == TokenKind::Slash || toks[j].kind == TokenKind::Dot),
    ensures
        path_back(toks, c),
    decreases c - a,
{
    if c > a {
        lemma_path_back_run(toks, a, c - 1);
    }
}

/// Law: a slash inside an import path (`@` followed by names, slashes and
/// dots, as in `@fer/http`) is a path separator, so the canonical spacing
/// joins it to the tokens on both sides: formatting never spaces a path as
/// if it were a division.
pub proof fn import_path_slashes_stay_joined(toks: Seq<LosslessToken>, s: Seq<u8>, a: int, i: int)
    requires
        0 <= a < i < toks.len(),
        toks[a].kind == TokenKind::At,
        toks[i].kind == TokenKind::Slash,
        forall|j: int|
            a < j < i ==> (#[trigger] toks[j].kind == TokenKind::Identifier || toks[j].kind
                == TokenKind::Slash || toks[j].kind == TokenKind::Dot),
    ensures
        path_separator_at(toks, i),
        spacing_of(toks, a + 1, s) == Some(Spacing::Joined),
        spacing_of(toks, i, s) == Some(Spacing::Joined),
        i + 1 < toks.len() ==> spacing_of(toks, i + 1, s) == Some(Spacing::Joined),
{
    lemma_path_back_run(toks, a, i - 1);
}

} // verus!
