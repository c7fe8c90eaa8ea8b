use vstd::prelude::*;
use crate::grammar::TokenKind;
use crate::lossless::{edges_ok, from_ok, well_placed, LosslessToken, LosslessTokenStream};
use crate::span::Span;

verus! {

/// An opening or closing code brace and its byte offset.
#[derive(Clone, Copy, Debug, PartialEq, Eq, Structural)]
pub struct BraceEvent {
    pub offset: usize,
    pub kind: TokenKind,
}

/// Why a source cannot be given a layout.
#[derive(Clone, Copy, Debug, PartialEq, Eq, Structural)]
pub enum LayoutError {
    /// A lexical error token.
    InvalidToken { span: Span },
    /// A code brace without partner.
    UnbalancedBraces { span: Span },
}

/// End of a line comment inside trivia `[.., b)`: the next `\n`, or `b`.
pub open spec fn comment_line_end(s: Seq<u8>, i: int, b: int) -> int
    decreases b - i,
{
    if i < b && s[i] != 10 {
        comment_line_end(s, i + 1, b)
    } else {
        i
    }
}

/// End of a block comment inside trivia `[.., b)`: just past `*/`, or `b`.
pub open spec fn comment_block_end(s: Seq<u8>, i: int, b: int) -> int
    decreases b - i,
{
    if i >= b {
        i
    } else if s[i] == 42 && i + 1 < b && s[i + 1] == 47 {
        i + 2
    } else {
        comment_block_end(s, i + 1, b)
    }
}

pub proof fn lemma_comment_ends(s: Seq<u8>, i: int, b: int)
    requires
        i <= b,
    ensures
        i <= comment_line_end(s, i, b) <= b,
        i <= comment_block_end(s, i, b) <= b,
    decreases b - i,
{
    if i < b {
        lemma_comment_ends(s, i + 1, b);
    }
}

/// The spans of the block comments found in trivia `s[i..b]`.
pub open spec fn trivia_comments(s: Seq<u8>, i: int, b: int) -> Seq<Span>
    decreases b - i,
{
    if i >= b {
        seq![]
    } else if s[i] == 47 && i + 1 < b && s[i + 1] == 47 {
        proof {
            lemma_comment_ends(s, i + 2, b);
        }
        trivia_comments(s, comment_line_end(s, i + 2, b), b)
    } else if s[i] == 47 && i + 1 < b && s[i + 1] == 42 {
        proof {
            lemma_comment_ends(s, i + 2, b);
        }
        let e = comment_block_end(s, i + 2, b);
        seq![Span { start: i as usize, end: e as usize }] + trivia_comments(s, e, b)
    } else {
        trivia_comments(s, i + 1, b)
    }
}

/// Layout facts gathered while walking the tokens: brace events outside
/// interpolations, ranges whose bytes must not move (string bodies,
/// interpolations, block comments), and an open interpolation's start.
pub struct Layout {
    pub events: Seq<BraceEvent>,
    pub opaque: Seq<Span>,
    pub interpolation: Option<usize>,
}

/// The layout after one more token.
pub open spec fn layout_step(s: Seq<u8>, acc: Layout, t: LosslessToken) -> Layout {
    let (events, opaque, interp) = if t.kind == TokenKind::StringLiteral {
        (acc.events, acc.opaque.push(t.span), acc.interpolation)
    } else if t.kind == TokenKind::StringStart {
        (acc.events, acc.opaque, Some(t.span.start))
    } else if t.kind == TokenKind::StringEnd {
        match acc.interpolation {
            Some(start) => (
                acc.events,
                acc.opaque.push(Span { start, end: t.span.end }),
                None::<usize>,
            ),
            None => (acc.events, acc.opaque, None::<usize>),
        }
    } else if (t.kind == TokenKind::LBrace || t.kind == TokenKind::RBrace)
        && acc.interpolation is None {
        (acc.events.push(BraceEvent { offset: t.span.start, kind: t.kind }), acc.opaque, None::<usize>)
    } else {
        (acc.events, acc.opaque, acc.interpolation)
    };
    Layout {
        events,
        opaque: opaque + trivia_comments(
            s,
            t.leading_trivia.start as int,
            t.leading_trivia.end as int,
        ),
        interpolation: interp,
    }
}

/// The layout after the first `k` tokens.
pub open spec fn layout_upto(s: Seq<u8>, toks: Seq<LosslessToken>, k: int) -> Layout
    decreases k,
{
    if k <= 0 {
        Layout { events: seq![], opaque: seq![], interpolation: None }
    } else {
        layout_step(s, layout_upto(s, toks, k - 1), toks[k - 1])
    }
}

/// The layout of all tokens; an interpolation still open at the end covers
/// the rest of the source.
pub open spec fn layout_of(s: Seq<u8>, toks: Seq<LosslessToken>) -> (Seq<BraceEvent>, Seq<Span>) {
    let l = layout_upto(s, toks, toks.len() as int);
    match l.interpolation {
        Some(start) => (l.events, l.opaque.push(Span { start, end: s.len() as usize })),
        None => (l.events, l.opaque),
    }
}

/// Index of the first error token, if any.
pub open spec fn first_error(toks: Seq<LosslessToken>) -> Option<int> {
    if exists|k: int| 0 <= k < toks.len() && toks[k].kind == TokenKind::Error {
        Some(
            choose|k: int|
                0 <= k < toks.len() && toks[k].kind == TokenKind::Error && forall|j: int|
                    0 <= j < k ==> toks[j].kind != TokenKind::Error,
        )
    } else {
        None
    }
}

/// Brace depth after the first `k` events; a close at depth 0 stays at 0.
pub open spec fn depth_upto(events: Seq<BraceEvent>, k: int) -> int
    decreases k,
{
    if k <= 0 {
        0
    } else {
        let d = depth_upto(events, k - 1);
        if events[k - 1].kind == TokenKind::LBrace {
            d + 1
        } else if d > 0 {
            d - 1
        } else {
            0
        }
    }
}

/// Braces balance: no close ever finds depth 0, and all are closed at the end.
pub open spec fn balanced(events: Seq<BraceEvent>) -> bool {
    &&& forall|k: int|
        0 <= k < events.len() && events[k].kind == TokenKind::RBrace ==> depth_upto(events, k)
            > 0
    &&& depth_upto(events, events.len() as int) == 0
}

/// The error reported for unbalanced braces: the first close at depth 0,
/// else the last event (offset 0 when there is none).
pub open spec fn unbalanced_at(events: Seq<BraceEvent>) -> usize {
    if exists|k: int|
        0 <= k < events.len() && events[k].kind == TokenKind::RBrace && depth_upto(events, k) == 0 {
        events[choose|k: int|
            0 <= k < events.len() && events[k].kind == TokenKind::RBrace && depth_upto(events, k)
                == 0 && forall|j: int|
                0 <= j < k ==> !(events[j].kind == TokenKind::RBrace && depth_upto(events, j)
                    == 0)].offset
    } else if events.len() > 0 {
        events.last().offset
    } else {
        0
    }
}

pub proof fn lemma_depth_bounds(events: Seq<BraceEvent>, k: int)
    requires
        0 <= k <= events.len(),
    ensures
        0 <= depth_upto(events, k) <= k,
    decreases k,
{
    if k > 0 {
        lemma_depth_bounds(events, k - 1);
    }
}

/// Check that code braces balance.
pub fn validate_brace_balance(events: &[BraceEvent]) -> (r: Result<(), LayoutError>)
    requires
        forall|k: int|
            0 <= k < events@.len() ==> (#[trigger] events@[k].kind == TokenKind::LBrace
                || events@[k].kind == TokenKind::RBrace),
        forall|k: int| 0 <= k < events@.len() ==> #[trigger] events@[k].offset < usize::MAX,
    ensures
        r is Ok <==> balanced(events@),
        r matches Err(e) ==> e == (LayoutError::UnbalancedBraces {
            span: Span { start: unbalanced_at(events@), end: (unbalanced_at(events@) + 1) as usize },
        }),
{
    let mut depth: usize = 0;
    let mut k: usize = 0;
    while k < events.len()
        invariant
            0 <= k <= events.len(),
            depth == depth_upto(events@, k as int),
            forall|j: int|
                0 <= j < k && events@[j].kind == TokenKind::RBrace ==> depth_upto(events@, j) > 0,
            forall|j: int|
                0 <= j < events@.len() ==> (#[trigger] events@[j].kind == TokenKind::LBrace
                    || events@[j].kind == TokenKind::RBrace),
            forall|j: int| 0 <= j < events@.len() ==> #[trigger] events@[j].offset < usize::MAX,
        decreases events.len() - k,
    {
        proof {
            lemma_depth_bounds(events@, k as int);
        }
        let e = events[k];
        if e.kind == TokenKind::LBrace {
            depth = depth + 1;
        } else {
            if depth == 0 {
                proof {
                    let w = choose|w: int|
                        0 <= w < events@.len() && events@[w].kind == TokenKind::RBrace
                            && depth_upto(events@, w) == 0 && forall|j: int|
                            0 <= j < w ==> !(events@[j].kind == TokenKind::RBrace && depth_upto(
                                events@,
                                j,
                            ) == 0);
                    assert(events@[k as int].kind == TokenKind::RBrace && depth_upto(events@, k as int) == 0);
                    if w < k {
                    } else if w > k {
                    }
                    assert(w == k);
                }
                return Err(
                    LayoutError::UnbalancedBraces { span: Span::new(e.offset, e.offset + 1) },
                );
            }
            depth = depth - 1;
        }
        k = k + 1;
    }
    if depth == 0 {
        return Ok(());
    }
    let offset = if events.len() > 0 {
        events[events.len() - 1].offset
    } else {
        0
    };
    Err(LayoutError::UnbalancedBraces { span: Span::new(offset, offset + 1) })
}


/// What laying out a token stream gives: the first error token is refused,
/// then unbalanced code braces; otherwise the brace events and the ranges
/// whose bytes must not move.
pub open spec fn spec_layout_result(s: Seq<u8>, toks: Seq<LosslessToken>) -> Result<
    (Seq<BraceEvent>, Seq<Span>),
    LayoutError,
> {
    match first_error(toks) {
        Some(k) => Err(LayoutError::InvalidToken { span: toks[k].span }),
        None => {
            let (events, opaque) = layout_of(s, toks);
            if balanced(events) {
                Ok((events, opaque))
            } else {
                Err(
                    LayoutError::UnbalancedBraces {
                        span: Span {
                            start: unbalanced_at(events),
                            end: (unbalanced_at(events) + 1) as usize,
                        },
                    },
                )
            }
        },
    }
}

/// Every layout event is a code brace of the source, one byte before its end.
pub proof fn lemma_layout_events(s: Seq<u8>, toks: Seq<LosslessToken>, k: int)
    requires
        well_placed(s, toks, 0),
        0 <= k <= toks.len(),
    ensures
        forall|i: int|
            0 <= i < layout_upto(s, toks, k).events.len() ==> {
                let e = #[trigger] layout_upto(s, toks, k).events[i];
                &&& (e.kind == TokenKind::LBrace || e.kind == TokenKind::RBrace)
                &&& e.offset < s.len()
            },
    decreases k,
{
    if k > 0 {
        lemma_layout_events(s, toks, k - 1);
        let t = toks[k - 1];
        assert(from_ok(s, t, 0));
        reveal(from_ok);
        let prev = layout_upto(s, toks, k - 1).events;
        let cur = layout_upto(s, toks, k).events;
        assert forall|i: int| 0 <= i < cur.len() implies {
            let e = #[trigger] cur[i];
            &&& (e.kind == TokenKind::LBrace || e.kind == TokenKind::RBrace)
            &&& e.offset < s.len()
        } by {
            if i < prev.len() {
                assert(cur[i] == prev[i]);
            }
        }
    }
}

/// The end of a line comment starting at `i` inside trivia ending at `e`.
fn line_comment_end(b: &[u8], i: usize, e: usize) -> (r: usize)
    requires
        i <= e <= b@.len(),
    ensures
        r == comment_line_end(b@, i as int, e as int),
{
    let mut j = i;
    while j < e && b[j] != 10
        invariant
            i <= j <= e <= b@.len(),
            comment_line_end(b@, j as int, e as int) == comment_line_end(b@, i as int, e as int),
        decreases e - j,
    {
        j = j + 1;
    }
    j
}

/// The end of a block comment whose body starts at `i` inside trivia ending at `e`.
fn block_comment_end(b: &[u8], i: usize, e: usize) -> (r: usize)
    requires
        i <= e <= b@.len(),
    ensures
        r == comment_block_end(b@, i as int, e as int),
{
    let mut j = i;
    while j < e
        invariant
            i <= j <= e <= b@.len(),
            comment_block_end(b@, j as int, e as int) == comment_block_end(b@, i as int, e as int),
        decreases e - j,
    {
        if b[j] == 42 && j + 1 < e && b[j + 1] == 47 {
            return j + 2;
        }
        j = j + 1;
    }
    j
}

/// Record the block comments of one token's leading trivia, whose bodies
/// keep their layout like string bodies do.
pub fn collect_block_comments(stream: &LosslessTokenStream, trivia: Span, ranges: &mut Vec<Span>)
    ensures
        stream.slice_ok(trivia) ==> final(ranges)@ == old(ranges)@ + trivia_comments(
            stream.src(),
            trivia.start as int,
            trivia.end as int,
        ),
        !stream.slice_ok(trivia) ==> final(ranges)@ == old(ranges)@,
{
    if stream.slice(trivia).is_none() {
        return ;
    }
    let b = stream.source().as_bytes();
    let ghost s = b@;
    let ghost init = ranges@;
    let e = trivia.end;
    let mut i = trivia.start;
    assert(init + trivia_comments(s, i as int, e as int) == init + trivia_comments(
        s,
        trivia.start as int,
        e as int,
    ));
    while i < e
        invariant
            trivia.start <= i <= e <= b@.len(),
            b@ == s,
            ranges@ + trivia_comments(s, i as int, e as int) == init + trivia_comments(
                s,
                trivia.start as int,
                e as int,
            ),
        decreases e - i,
    {
        if b[i] == 47 && i + 1 < e && b[i + 1] == 47 {
            proof {
                lemma_comment_ends(s, i + 2, e as int);
            }
            i = line_comment_end(b, i + 2, e);
        } else if b[i] == 47 && i + 1 < e && b[i + 1] == 42 {
            let start = i;
            let end = block_comment_end(b, i + 2, e);
            proof {
                lemma_comment_ends(s, start + 2, e as int);
            }
            let ghost before = ranges@;
            ranges.push(Span::new(start, end));
            assert(ranges@ + trivia_comments(s, end as int, e as int) =~= before + (seq![
                Span { start: start, end: end },
            ] + trivia_comments(s, end as int, e as int)));
            i = end;
        } else {
            i = i + 1;
        }
    }
    assert(trivia_comments(s, i as int, e as int) == Seq::<Span>::empty());
    assert(ranges@ + Seq::<Span>::empty() =~= ranges@);
}

/// Walk the tokens once: refuse error tokens, collect code-brace events
/// and the ranges whose internal layout must not change, then check that
/// the braces balance.
pub fn collect_layout_metadata(stream: &LosslessTokenStream) -> (r: Result<
    (Vec<BraceEvent>, Vec<Span>),
    LayoutError,
>)
    ensures
        match r {
            Ok((events, opaque)) => spec_layout_result(stream.src(), stream.toks()) == Ok::<
                (Seq<BraceEvent>, Seq<Span>),
                LayoutError,
            >((events@, opaque@)),
            Err(e) => spec_layout_result(stream.src(), stream.toks()) == Err::<
                (Seq<BraceEvent>, Seq<Span>),
                LayoutError,
            >(e),
        },
{
    proof {
        use_type_invariant(stream);
        stream.lemma_inv();
    }
    let ghost s = stream.src();
    let tokens = stream.tokens();
    let ghost toks = tokens@;
    let mut events: Vec<BraceEvent> = Vec::new();
    let mut opaque: Vec<Span> = Vec::new();
    let mut interpolation: Option<usize> = None;
    let mut k: usize = 0;
    while k < tokens.len()
        invariant
            0 <= k <= tokens@.len(),
            toks == tokens@,
            toks == stream.toks(),
            s == stream.src(),
            well_placed(s, toks, 0),
            vstd::utf8::valid_utf8(s),
            forall|j: int| 0 <= j < k ==> toks[j].kind != TokenKind::Error,
            events@ == layout_upto(s, toks, k as int).events,
            opaque@ == layout_upto(s, toks, k as int).opaque,
            interpolation == layout_upto(s, toks, k as int).interpolation,
        decreases tokens.len() - k,
    {
        let token = tokens[k];
        if token.kind == TokenKind::Error {
            proof {
                let w = choose|w: int|
                    0 <= w < toks.len() && toks[w].kind == TokenKind::Error && forall|j: int|
                        0 <= j < w ==> toks[j].kind != TokenKind::Error;
                assert(toks[k as int].kind == TokenKind::Error);
                if w < k {
                } else if w > k {
                }
                assert(w == k);
            }
            return Err(LayoutError::InvalidToken { span: token.span });
        }
        if token.kind == TokenKind::StringLiteral {
            opaque.push(token.span);
        } else if token.kind == TokenKind::StringStart {
            interpolation = Some(token.span.start);
        } else if token.kind == TokenKind::StringEnd {
            match interpolation {
                Some(start) => {
                    opaque.push(Span::new(start, token.span.end));
                },
                None => {},
            }
            interpolation = None;
        } else if (token.kind == TokenKind::LBrace || token.kind == TokenKind::RBrace)
            && interpolation.is_none() {
            events.push(BraceEvent { offset: token.span.start, kind: token.kind });
        }
        proof {
            assert(toks[k as int] == token);
            assert(from_ok(s, toks[k as int], 0));
            assert(edges_ok(s, toks[k as int]));
            reveal(from_ok);
            reveal(edges_ok);
        }
        collect_block_comments(stream, token.leading_trivia, &mut opaque);
        k = k + 1;
    }
    proof {
        assert(first_error(toks) is None);
        lemma_layout_events(s, toks, toks.len() as int);
    }
    match interpolation {
        Some(start) => {
            opaque.push(Span::new(start, stream.source().len()));
        },
        None => {},
    }
    match validate_brace_balance(events.as_slice()) {
        Ok(()) => Ok((events, opaque)),
        Err(e) => Err(e),
    }
}

} // verus!
