use vstd::prelude::*;
use vstd::string::StringSliceAdditionalSpecFns;
use vstd::utf8::{encode_utf8, valid_utf8, valid_utf8_concat};
use crate::formatter::FormatOptions;
use crate::grammar::TokenKind;
use crate::layout::{depth_upto, lemma_depth_bounds, BraceEvent};
use crate::lex_facts::lemma_after_ascii;
use crate::span::Span;
use crate::text::{append_range, at_boundary, hws, lemma_strip_add, lemma_strip_horizontal, string_from_utf8, strip_hws};
use crate::utf8_facts::{lemma_ascii_seq, lemma_slice};

verus! {

/// The end of the line that starts at `p`: just past its `\n`, or the end
/// of the text.
pub open spec fn line_break_end(s: Seq<u8>, p: int) -> int
    decreases s.len() - p,
{
    if p < 0 || p >= s.len() {
        s.len() as int
    } else if s[p] == 10 {
        p + 1
    } else {
        line_break_end(s, p + 1)
    }
}

/// The length of the line ending of the segment `s[p..e]`: `\r\n` counts
/// two bytes, `\n` one, and a last line without ending none.
pub open spec fn eol_len(s: Seq<u8>, p: int, e: int) -> int {
    if e > p && s[e - 1] == 10 {
        if e - 2 >= p && s[e - 2] == 13 {
            2
        } else {
            1
        }
    } else {
        0
    }
}

/// The first position at or after `i`, and not past `e`, that is not a
/// space or a tab.
pub open spec fn hspace_end(s: Seq<u8>, i: int, e: int) -> int
    decreases e - i,
{
    if i < e && hws(s[i]) {
        hspace_end(s, i + 1, e)
    } else {
        i
    }
}

/// The index of the first event from `i` on at or after offset `p`.
pub open spec fn events_before(ev: Seq<BraceEvent>, i: int, p: int) -> int
    decreases ev.len() - i,
{
    if 0 <= i < ev.len() && ev[i].offset < p {
        events_before(ev, i + 1, p)
    } else {
        i
    }
}

/// Offset `p` lies inside one of the `opaque` ranges.
pub open spec fn in_opaque(op: Seq<Span>, p: int) -> bool {
    exists|r: int| 0 <= r < op.len() && #[trigger] op[r].start <= p && p < op[r].end
}

/// `n` copies of byte `b`.
pub open spec fn repeat_byte(b: u8, n: int) -> Seq<u8> {
    Seq::new(n as nat, |i: int| b)
}

/// The indentation of a line at nesting `depth`: one tab per level, or
/// `indent_width` spaces per level.
pub open spec fn indent_bytes(depth: int, opts: FormatOptions) -> Seq<u8> {
    if opts.use_tabs {
        repeat_byte(9, depth)
    } else {
        repeat_byte(32, depth * opts.indent_width)
    }
}

/// Where the content of the line starting at `p` ends: before its line ending.
pub open spec fn content_end_of(s: Seq<u8>, p: int) -> int {
    line_break_end(s, p) - eol_len(s, p, line_break_end(s, p))
}

/// Where the code of the line starting at `p` begins: after its leading
/// spaces and tabs.
pub open spec fn code_start_of(s: Seq<u8>, p: int) -> int {
    hspace_end(s, p, content_end_of(s, p))
}

/// The nesting depth that the line starting at `p` is indented to, with the
/// brace events before `ei` already applied. The depth counts the code
/// braces opened before the line (a close at depth 0 stays at 0); a line
/// whose first brace event is a close goes one level out.
pub open spec fn line_depth(s: Seq<u8>, ev: Seq<BraceEvent>, p: int, ei: int) -> int {
    let ei1 = events_before(ev, ei, p);
    let depth = depth_upto(ev, ei1);
    let close = ei1 < ev.len() && code_start_of(s, p) <= ev[ei1].offset && ev[ei1].offset
        < content_end_of(s, p) && ev[ei1].kind == TokenKind::RBrace;
    if close && depth > 0 {
        depth - 1
    } else if close {
        0
    } else {
        depth
    }
}

/// A line `s[p..seg_end]` written back: kept as it is, or with the
/// indentation for `depth` in place of the spaces and tabs before
/// `code_start`; then its line ending `s[content_end..seg_end]`.
pub open spec fn line_text(
    s: Seq<u8>,
    opts: FormatOptions,
    p: int,
    code_start: int,
    content_end: int,
    seg_end: int,
    depth: int,
    keep: bool,
) -> Seq<u8> {
    (if keep {
        s.subrange(p, content_end)
    } else {
        indent_bytes(depth, opts) + s.subrange(code_start, content_end)
    }) + s.subrange(content_end, seg_end)
}

/// Blank lines and lines that start inside an opaque range are kept.
pub open spec fn keep_line(s: Seq<u8>, op: Seq<Span>, p: int) -> bool {
    code_start_of(s, p) == content_end_of(s, p) || (p > 0 && in_opaque(op, p))
}

/// The rewritten line starting at `p`, with its line ending.
pub open spec fn line_out(
    s: Seq<u8>,
    opts: FormatOptions,
    ev: Seq<BraceEvent>,
    op: Seq<Span>,
    p: int,
    ei: int,
) -> Seq<u8> {
    line_text(
        s,
        opts,
        p,
        code_start_of(s, p),
        content_end_of(s, p),
        line_break_end(s, p),
        line_depth(s, ev, p, ei),
        keep_line(s, op, p),
    )
}

/// The index of the first brace event after the line starting at `p`.
pub open spec fn events_after_line(s: Seq<u8>, ev: Seq<BraceEvent>, p: int, ei: int) -> int {
    events_before(ev, events_before(ev, ei, p), content_end_of(s, p))
}

/// The text from line start `p` on with each line rewritten.
pub open spec fn indent_from(
    s: Seq<u8>,
    opts: FormatOptions,
    ev: Seq<BraceEvent>,
    op: Seq<Span>,
    p: int,
    ei: int,
) -> Seq<u8>
    decreases s.len() - p,
{
    if p < 0 || p >= s.len() {
        seq![]
    } else {
        proof {
            lemma_line_break_end(s, p);
        }
        line_out(s, opts, ev, op, p, ei) + indent_from(
            s,
            opts,
            ev,
            op,
            line_break_end(s, p),
            events_after_line(s, ev, p, ei),
        )
    }
}

/// The re-indented text.
pub open spec fn indent_text(
    s: Seq<u8>,
    opts: FormatOptions,
    ev: Seq<BraceEvent>,
    op: Seq<Span>,
) -> Seq<u8> {
    indent_from(s, opts, ev, op, 0, 0)
}

pub proof fn lemma_line_break_end(s: Seq<u8>, p: int)
    requires
        0 <= p < s.len(),
    ensures
        p < line_break_end(s, p) <= s.len(),
        line_break_end(s, p) < s.len() ==> s[line_break_end(s, p) - 1] == 10,
    decreases s.len() - p,
{
    if s[p] != 10 && p + 1 < s.len() {
        lemma_line_break_end(s, p + 1);
    } else if s[p] != 10 {
        assert(line_break_end(s, p + 1) == s.len());
    }
}

pub proof fn lemma_hspace_end(s: Seq<u8>, i: int, e: int)
    requires
        i <= e,
    ensures
        i <= hspace_end(s, i, e) <= e,
        forall|j: int| i <= j < hspace_end(s, i, e) ==> hws(#[trigger] s[j]),
        hspace_end(s, i, e) < e ==> !hws(s[hspace_end(s, i, e)]),
    decreases e - i,
{
    if i < e && hws(s[i]) {
        lemma_hspace_end(s, i + 1, e);
    }
}

pub proof fn lemma_events_before(ev: Seq<BraceEvent>, i: int, p: int)
    requires
        0 <= i <= ev.len(),
    ensures
        i <= events_before(ev, i, p) <= ev.len(),
    decreases ev.len() - i,
{
    if i < ev.len() && ev[i].offset < p {
        lemma_events_before(ev, i + 1, p);
    }
}

/// Apply one brace event to the running depth; a close at depth 0 stays at 0.
pub fn apply_event(event: BraceEvent, depth: &mut usize)
    requires
        event.kind == TokenKind::LBrace || event.kind == TokenKind::RBrace,
        event.kind == TokenKind::LBrace ==> *old(depth) < usize::MAX,
    ensures
        event.kind == TokenKind::LBrace ==> *final(depth) == *old(depth) + 1,
        event.kind == TokenKind::RBrace ==> *final(depth) == if *old(depth) > 0 {
            *old(depth) - 1
        } else {
            0
        },
{
    if event.kind == TokenKind::LBrace {
        *depth = *depth + 1;
    } else if *depth > 0 {
        *depth = *depth - 1;
    }
}

/// Append the canonical indentation for nesting `depth`.
pub fn write_indentation(output: &mut Vec<u8>, depth: usize, options: &FormatOptions)
    ensures
        final(output)@ == old(output)@ + indent_bytes(depth as int, *options),
{
    let ghost base = output@;
    if options.use_tabs {
        let mut i: usize = 0;
        while i < depth
            invariant
                i <= depth,
                output@ == base + repeat_byte(9, i as int),
            decreases depth - i,
        {
            output.push(9);
            i = i + 1;
            assert(output@ =~= base + repeat_byte(9, i as int));
        }
    } else {
        let w = options.indent_width;
        let mut i: usize = 0;
        while i < depth
            invariant
                i <= depth,
                w == options.indent_width,
                output@ == base + repeat_byte(32, i * w),
            decreases depth - i,
        {
            let mut j: usize = 0;
            while j < w
                invariant
                    j <= w,
                    i < depth,
                    output@ == base + repeat_byte(32, i * w + j),
                decreases w - j,
            {
                output.push(32);
                j = j + 1;
                assert(output@ =~= base + repeat_byte(32, i * w + j));
            }
            assert(i * w + w == (i + 1) * w) by (nonlinear_arith);
            i = i + 1;
        }
    }
}

fn line_end_at(b: &[u8], p: usize) -> (r: usize)
    requires
        p < b@.len(),
    ensures
        r == line_break_end(b@, p as int),
{
    let mut i = p;
    while i < b.len() && b[i] != 10
        invariant
            p <= i <= b@.len(),
            line_break_end(b@, i as int) == line_break_end(b@, p as int),
        decreases b.len() - i,
    {
        i = i + 1;
    }
    if i < b.len() {
        i + 1
    } else {
        i
    }
}

fn hspace_end_at(b: &[u8], i: usize, e: usize) -> (r: usize)
    requires
        i <= e <= b@.len(),
    ensures
        r == hspace_end(b@, i as int, e as int),
{
    let mut j = i;
    while j < e && (b[j] == 32 || b[j] == 9)
        invariant
            i <= j <= e <= b@.len(),
            hspace_end(b@, j as int, e as int) == hspace_end(b@, i as int, e as int),
        decreases e - j,
    {
        j = j + 1;
    }
    j
}

fn starts_inside_opaque(opaque_ranges: &[Span], p: usize) -> (r: bool)
    ensures
        r == in_opaque(opaque_ranges@, p as int),
{
    let mut k: usize = 0;
    while k < opaque_ranges.len()
        invariant
            k <= opaque_ranges@.len(),
            forall|r: int|
                0 <= r < k ==> !(#[trigger] opaque_ranges@[r].start <= p && p
                    < opaque_ranges@[r].end),
        decreases opaque_ranges.len() - k,
    {
        let range = opaque_ranges[k];
        if range.start <= p && p < range.end {
            return true;
        }
        k = k + 1;
    }
    false
}

/// Apply the brace events from `*ei` on whose offset is before `limit`.
fn apply_events_before(events: &[BraceEvent], ei: &mut usize, depth: &mut usize, limit: usize)
    requires
        *old(ei) <= events@.len(),
        *old(depth) == depth_upto(events@, *old(ei) as int),
        forall|k: int|
            0 <= k < events@.len() ==> (#[trigger] events@[k].kind == TokenKind::LBrace
                || events@[k].kind == TokenKind::RBrace),
    ensures
        *final(ei) == events_before(events@, *old(ei) as int, limit as int),
        *final(ei) <= events@.len(),
        *final(depth) == depth_upto(events@, *final(ei) as int),
{
    let ghost ei0 = *ei as int;
    proof {
        lemma_events_before(events@, ei0, limit as int);
    }
    while *ei < events.len() && events[*ei].offset < limit
        invariant
            ei0 <= *ei <= events@.len(),
            *depth == depth_upto(events@, *ei as int),
            events_before(events@, *ei as int, limit as int) == events_before(
                events@,
                ei0,
                limit as int,
            ),
            forall|k: int|
                0 <= k < events@.len() ==> (#[trigger] events@[k].kind == TokenKind::LBrace
                    || events@[k].kind == TokenKind::RBrace),
        decreases events@.len() - *ei,
    {
        proof {
            lemma_depth_bounds(events@, *ei as int);
        }
        apply_event(events[*ei], depth);
        *ei = *ei + 1;
    }
}

/// The pieces of a line of valid UTF-8 are valid UTF-8 and its edges are
/// character boundaries.
pub proof fn lemma_line_pieces(s: Seq<u8>, p: int)
    requires
        valid_utf8(s),
        0 <= p < s.len(),
        at_boundary(s, p),
    ensures
        p <= code_start_of(s, p) <= content_end_of(s, p) <= line_break_end(s, p) <= s.len(),
        p < line_break_end(s, p),
        at_boundary(s, line_break_end(s, p)),
        valid_utf8(s.subrange(p, content_end_of(s, p))),
        valid_utf8(s.subrange(code_start_of(s, p), content_end_of(s, p))),
        valid_utf8(s.subrange(content_end_of(s, p), line_break_end(s, p))),
{
    lemma_line_break_end(s, p);
    let seg_end = line_break_end(s, p);
    let content_end = content_end_of(s, p);
    let code_start = code_start_of(s, p);
    lemma_hspace_end(s, p, content_end);
    if seg_end < s.len() {
        assert(at_boundary(s, seg_end - 1));
        lemma_after_ascii(s, seg_end - 1);
    }
    if content_end < seg_end {
        assert(s[content_end] == 13 || s[content_end] == 10);
    }
    assert(at_boundary(s, content_end));
    if code_start > p {
        assert(hws(s[code_start - 1]));
        assert(at_boundary(s, code_start - 1));
        lemma_after_ascii(s, code_start - 1);
    }
    assert(at_boundary(s, code_start));
    lemma_slice(s, p, content_end);
    lemma_slice(s, code_start, content_end);
    lemma_slice(s, content_end, seg_end);
}

/// Write one line: kept as it is, or with canonical indentation at
/// `depth` in place of its leading spaces and tabs; then its line ending.
fn write_line(
    b: &[u8],
    options: &FormatOptions,
    p: usize,
    code_start: usize,
    content_end: usize,
    seg_end: usize,
    depth: usize,
    keep: bool,
    out: &mut Vec<u8>,
)
    requires
        p <= code_start <= content_end <= seg_end <= b@.len(),
        valid_utf8(old(out)@),
        valid_utf8(b@.subrange(p as int, content_end as int)),
        valid_utf8(b@.subrange(code_start as int, content_end as int)),
        valid_utf8(b@.subrange(content_end as int, seg_end as int)),
    ensures
        valid_utf8(final(out)@),
        final(out)@ == old(out)@ + line_text(
            b@,
            *options,
            p as int,
            code_start as int,
            content_end as int,
            seg_end as int,
            depth as int,
            keep,
        ),
{
    let ghost s = b@;
    let ghost before = out@;
    if keep {
        append_range(out, b, p, content_end);
        proof {
            valid_utf8_concat(before, s.subrange(p as int, content_end as int));
        }
    } else {
        write_indentation(out, depth, options);
        proof {
            let ind = indent_bytes(depth as int, *options);
            assert forall|k: int| 0 <= k < ind.len() implies ind[k] < 0x80 by {}
            lemma_ascii_seq(ind);
            valid_utf8_concat(before, ind);
        }
        let ghost mid = out@;
        append_range(out, b, code_start, content_end);
        proof {
            valid_utf8_concat(mid, s.subrange(code_start as int, content_end as int));
            assert(out@ =~= before + (indent_bytes(depth as int, *options) + s.subrange(
                code_start as int,
                content_end as int,
            )));
        }
    }
    let ghost mid2 = out@;
    append_range(out, b, content_end, seg_end);
    proof {
        valid_utf8_concat(mid2, s.subrange(content_end as int, seg_end as int));
        assert(out@ =~= before + line_text(
            s,
            *options,
            p as int,
            code_start as int,
            content_end as int,
            seg_end as int,
            depth as int,
            keep,
        ));
    }
}

/// Rewrite the line that starts at `p` onto `out`; returns where the next
/// line starts.
fn rewrite_line(
    b: &[u8],
    options: &FormatOptions,
    events: &[BraceEvent],
    opaque_ranges: &[Span],
    p: usize,
    ei: &mut usize,
    depth: &mut usize,
    out: &mut Vec<u8>,
) -> (next: usize)
    requires
        p < b@.len(),
        valid_utf8(b@),
        at_boundary(b@, p as int),
        valid_utf8(old(out)@),
        *old(ei) <= events@.len(),
        *old(depth) == depth_upto(events@, *old(ei) as int),
        forall|k: int|
            0 <= k < events@.len() ==> (#[trigger] events@[k].kind == TokenKind::LBrace
                || events@[k].kind == TokenKind::RBrace),
    ensures
        next == line_break_end(b@, p as int),
        p < next <= b@.len(),
        at_boundary(b@, next as int),
        valid_utf8(final(out)@),
        final(out)@ == old(out)@ + line_out(
            b@,
            *options,
            events@,
            opaque_ranges@,
            p as int,
            *old(ei) as int,
        ),
        *final(ei) == events_after_line(b@, events@, p as int, *old(ei) as int),
        *final(ei) <= events@.len(),
        *final(depth) == depth_upto(events@, *final(ei) as int),
{
    let ghost s = b@;
    let ghost ei0 = *ei as int;
    proof {
        lemma_line_break_end(s, p as int);
    }
    let seg_end = line_end_at(b, p);
    let nl: usize = if seg_end > p && b[seg_end - 1] == 10 {
        if seg_end - p >= 2 && b[seg_end - 2] == 13 {
            2
        } else {
            1
        }
    } else {
        0
    };
    let content_end = seg_end - nl;
    let code_start = hspace_end_at(b, p, content_end);
    assert(content_end == content_end_of(s, p as int));
    assert(code_start == code_start_of(s, p as int));
    let inside = p > 0 && starts_inside_opaque(opaque_ranges, p);
    apply_events_before(events, ei, depth, p);
    let close = *ei < events.len() && events[*ei].offset >= code_start && events[*ei].offset
        < content_end && events[*ei].kind == TokenKind::RBrace;
    let target = if close && *depth > 0 {
        *depth - 1
    } else if close {
        0
    } else {
        *depth
    };
    let ghost before = out@;
    proof {
        lemma_line_pieces(s, p as int);
    }
    let keep = code_start == content_end || inside;
    proof {
        assert(keep == keep_line(s, opaque_ranges@, p as int));
        assert(target == line_depth(s, events@, p as int, ei0));
    }
    write_line(b, options, p, code_start, content_end, seg_end, target, keep, out);
    apply_events_before(events, ei, depth, content_end);
    seg_end
}

/// Rewrite only the leading spaces and tabs of lines outside opaque ranges.
pub fn rewrite_line_indentation(
    source: &str,
    options: &FormatOptions,
    events: &[BraceEvent],
    opaque_ranges: &[Span],
) -> (r: String)
    requires
        forall|k: int|
            0 <= k < events@.len() ==> (#[trigger] events@[k].kind == TokenKind::LBrace
                || events@[k].kind == TokenKind::RBrace),
    ensures
        encode_utf8(r@) == indent_text(
            source.spec_bytes(),
            *options,
            events@,
            opaque_ranges@,
        ),
{
    let b = source.as_bytes();
    let ghost s = b@;
    let ghost ev = events@;
    let ghost op = opaque_ranges@;
    let ghost opts = *options;
    proof {
        vstd::utf8::encode_utf8_valid_utf8(source@);
    }
    let n = b.len();
    let mut out: Vec<u8> = Vec::new();
    let mut ei: usize = 0;
    let mut depth: usize = 0;
    let mut p: usize = 0;
    assert(out@ + indent_from(s, opts, ev, op, 0, 0) =~= indent_text(s, opts, ev, op));
    while p < n
        invariant
            p <= n == s.len(),
            s == b@,
            s == source.spec_bytes(),
            ev == events@,
            op == opaque_ranges@,
            opts == *options,
            valid_utf8(s),
            at_boundary(s, p as int),
            valid_utf8(out@),
            ei <= ev.len(),
            depth == depth_upto(ev, ei as int),
            forall|k: int|
                0 <= k < ev.len() ==> (#[trigger] ev[k].kind == TokenKind::LBrace || ev[k].kind
                    == TokenKind::RBrace),
            out@ + indent_from(s, opts, ev, op, p as int, ei as int) == indent_text(
                s,
                opts,
                ev,
                op,
            ),
        decreases n - p,
    {
        let ghost before = out@;
        let ghost ei0 = ei as int;
        let next = rewrite_line(b, options, events, opaque_ranges, p, &mut ei, &mut depth, &mut out);
        proof {
            assert(out@ + indent_from(s, opts, ev, op, next as int, ei as int) =~= before
                + indent_from(s, opts, ev, op, p as int, ei0));
        }
        p = next;
    }
    proof {
        assert(indent_from(s, opts, ev, op, p as int, ei as int) == Seq::<u8>::empty());
        assert(out@ =~= indent_text(s, opts, ev, op));
    }
    match string_from_utf8(out) {
        Some(text) => text,
        None => {
            proof {
                assert(false);
            }
            String::new()
        },
    }
}

/// Law: re-indenting changes nothing but spaces and tabs.
pub proof fn indentation_only_moves_horizontal_space(
    s: Seq<u8>,
    opts: FormatOptions,
    ev: Seq<BraceEvent>,
    op: Seq<Span>,
    p: int,
    ei: int,
)
    requires
        0 <= p <= s.len(),
    ensures
        strip_hws(indent_from(s, opts, ev, op, p, ei)) == strip_hws(s.subrange(p, s.len() as int)),
    decreases s.len() - p,
{
    if p < s.len() {
        lemma_line_break_end(s, p);
        let seg_end = line_break_end(s, p);
        let content_end = content_end_of(s, p);
        let code_start = code_start_of(s, p);
        lemma_hspace_end(s, p, content_end);
        let next_ei = events_after_line(s, ev, p, ei);
        let rest = indent_from(s, opts, ev, op, seg_end, next_ei);
        indentation_only_moves_horizontal_space(s, opts, ev, op, seg_end, next_ei);
        let lead = s.subrange(p, code_start);
        let code = s.subrange(code_start, content_end);
        let tail = s.subrange(content_end, seg_end);
        let after = s.subrange(seg_end, s.len() as int);
        let ind = indent_bytes(line_depth(s, ev, p, ei), opts);
        assert forall|j: int| 0 <= j < lead.len() implies hws(#[trigger] lead[j]) by {
            assert(lead[j] == s[p + j]);
        }
        lemma_strip_horizontal(lead);
        assert forall|j: int| 0 <= j < ind.len() implies hws(#[trigger] ind[j]) by {}
        lemma_strip_horizontal(ind);
        lemma_strip_add(lead, code);
        lemma_strip_add(ind, code);
        assert(s.subrange(p, content_end) =~= lead + code);
        assert(s.subrange(p, s.len() as int) =~= lead + code + tail + after);
        let body = if code_start == content_end || (p > 0 && in_opaque(op, p)) {
            s.subrange(p, content_end)
        } else {
            ind + code
        };
        assert(strip_hws(body) == strip_hws(code)) by {
            assert(strip_hws(lead + code) =~= strip_hws(code));
            assert(strip_hws(ind + code) =~= strip_hws(code));
        }
        assert(line_out(s, opts, ev, op, p, ei) == body + tail);
        assert(indent_from(s, opts, ev, op, p, ei) == body + tail + rest);
        lemma_strip_add(body, tail);
        lemma_strip_add(body + tail, rest);
        lemma_strip_add(lead + code, tail);
        lemma_strip_add(lead + code + tail, after);
        lemma_strip_add(code, tail);
    } else {
        assert(s.subrange(p, s.len() as int) =~= Seq::<u8>::empty());
    }
}

} // verus!
