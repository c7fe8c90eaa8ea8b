use vstd::prelude::*;
use vstd::utf8::{encode_utf8, valid_utf8};

verus! {

/// True for a UTF-8 continuation byte (`10xxxxxx`).
pub open spec fn is_cont(b: u8) -> bool {
    0x80 <= b <= 0xbf
}

/// True when `i` starts a character of `s` or is its end; for valid UTF-8
/// this is exactly the standard library's notion of a character boundary.
pub open spec fn at_boundary(s: Seq<u8>, i: int) -> bool {
    ||| i == 0
    ||| i == s.len()
    ||| (0 < i < s.len() && !is_cont(s[i]))
}

/// The number of bytes of a UTF-8 character that starts with lead byte `b`.
pub open spec fn utf8_width(b: u8) -> int {
    if b < 0x80 {
        1
    } else if b < 0xe0 {
        2
    } else if b < 0xf0 {
        3
    } else {
        4
    }
}

/// The byte length of the Unicode `White_Space` character encoded at `s[i..]`,
/// or 0 when no such character starts there. These are the characters that
/// `char::is_whitespace` accepts: U+0009..U+000D, U+0020, U+0085, U+00A0,
/// U+1680, U+2000..U+200A, U+2028, U+2029, U+202F, U+205F and U+3000.
pub open spec fn ws_char_len(s: Seq<u8>, i: int) -> int {
    if !(0 <= i < s.len()) {
        0
    } else if (9 <= s[i] <= 13) || s[i] == 32 {
        1
    } else if s[i] == 0xc2 && i + 1 < s.len() && (s[i + 1] == 0x85 || s[i + 1] == 0xa0) {
        2
    } else if i + 2 < s.len() && ((s[i] == 0xe1 && s[i + 1] == 0x9a && s[i + 2] == 0x80) || (
    s[i] == 0xe2 && s[i + 1] == 0x80 && ((0x80 <= s[i + 2] <= 0x8a) || s[i + 2] == 0xa8
        || s[i + 2] == 0xa9 || s[i + 2] == 0xaf)) || (s[i] == 0xe2 && s[i + 1] == 0x81 && s[i
        + 2] == 0x9f) || (s[i] == 0xe3 && s[i + 1] == 0x80 && s[i + 2] == 0x80)) {
        3
    } else {
        0
    }
}

/// The byte length of the run of whitespace characters starting at `i`.
pub open spec fn ws_run(s: Seq<u8>, i: int) -> int
    decreases s.len() - i,
{
    let w = ws_char_len(s, i);
    if w == 0 || !(0 <= i < s.len()) {
        0
    } else {
        w + ws_run(s, i + w)
    }
}

/// The byte length of the leading whitespace of `s` (what `trim_start` removes).
pub open spec fn leading_ws(s: Seq<u8>) -> int {
    ws_run(s, 0)
}

/// True when `s` holds nothing but whitespace (`s.trim().is_empty()`).
pub open spec fn is_blank(s: Seq<u8>) -> bool {
    leading_ws(s) == s.len()
}

pub proof fn lemma_ws_run_bounds(s: Seq<u8>, i: int)
    requires
        0 <= i <= s.len(),
    ensures
        0 <= ws_run(s, i) <= s.len() - i,
    decreases s.len() - i,
{
    let w = ws_char_len(s, i);
    if w != 0 && i < s.len() {
        lemma_ws_run_bounds(s, i + w);
    }
}

/// Byte length of the whitespace character at `s[i..]`, or 0.
pub fn ws_char_len_at(s: &[u8], i: usize) -> (r: usize)
    ensures
        r == ws_char_len(s@, i as int),
{
    let n = s.len();
    if i >= n {
        return 0;
    }
    let b = s[i];
    if (9 <= b && b <= 13) || b == 32 {
        return 1;
    }
    if b == 0xc2 && i + 1 < n && (s[i + 1] == 0x85 || s[i + 1] == 0xa0) {
        return 2;
    }
    if n - i > 2 {
        let b1 = s[i + 1];
        let b2 = s[i + 2];
        if (b == 0xe1 && b1 == 0x9a && b2 == 0x80) || (b == 0xe2 && b1 == 0x80 && ((0x80 <= b2
            && b2 <= 0x8a) || b2 == 0xa8 || b2 == 0xa9 || b2 == 0xaf)) || (b == 0xe2 && b1 == 0x81
            && b2 == 0x9f) || (b == 0xe3 && b1 == 0x80 && b2 == 0x80) {
            return 3;
        }
    }
    0
}

/// Byte length of the leading whitespace of `s`.
pub fn leading_ws_len(s: &[u8]) -> (r: usize)
    ensures
        r == leading_ws(s@),
        r <= s.len(),
{
    let mut i: usize = 0;
    proof {
        lemma_ws_run_bounds(s@, 0);
    }
    while i < s.len()
        invariant
            0 <= i <= s.len(),
            i + ws_run(s@, i as int) == ws_run(s@, 0),
        decreases s.len() - i,
    {
        let w = ws_char_len_at(s, i);
        if w == 0 {
            return i;
        }
        i = i + w;
    }
    i
}

/// Copy `s[start..end]` into a fresh vector.
pub fn copy_range(s: &[u8], start: usize, end: usize) -> (r: Vec<u8>)
    requires
        start <= end <= s.len(),
    ensures
        r@ == s@.subrange(start as int, end as int),
{
    let mut r: Vec<u8> = Vec::new();
    let mut i = start;
    while i < end
        invariant
            start <= i <= end <= s.len(),
            r@ == s@.subrange(start as int, i as int),
        decreases end - i,
    {
        r.push(s[i]);
        i = i + 1;
        assert(r@ =~= s@.subrange(start as int, i as int));
    }
    r
}

/// Append `s[start..end]` to `out`.
pub fn append_range(out: &mut Vec<u8>, s: &[u8], start: usize, end: usize)
    requires
        start <= end <= s.len(),
    ensures
        final(out)@ == old(out)@ + s@.subrange(start as int, end as int),
{
    let ghost base = out@;
    let mut i = start;
    while i < end
        invariant
            start <= i <= end <= s.len(),
            out@ == base + s@.subrange(start as int, i as int),
        decreases end - i,
    {
        out.push(s[i]);
        i = i + 1;
        assert(out@ =~= base + s@.subrange(start as int, i as int));
    }
}


/// Trusted: `String::from_utf8`. Its documentation promises `Ok` exactly when
/// the bytes are well-formed UTF-8, and then a string holding those very
/// bytes; `Err` otherwise. This item states that, with `None` for `Err`.
#[verifier::external_body]
pub fn string_from_utf8(bytes: Vec<u8>) -> (r: Option<String>)
    ensures
        r is Some <==> valid_utf8(bytes@),
        r matches Some(s) ==> encode_utf8(s@) == bytes@,
{
    String::from_utf8(bytes).ok()
}


/// A horizontal whitespace byte: a space or a tab.
pub open spec fn hws(b: u8) -> bool {
    b == 32 || b == 9
}

/// `s` with every space and tab removed.
pub open spec fn strip_hws(s: Seq<u8>) -> Seq<u8>
    decreases s.len(),
{
    if s.len() == 0 {
        seq![]
    } else {
        let r = strip_hws(s.drop_last());
        if hws(s.last()) {
            r
        } else {
            r.push(s.last())
        }
    }
}

/// Removing horizontal whitespace distributes over concatenation.
pub proof fn lemma_strip_add(a: Seq<u8>, b: Seq<u8>)
    ensures
        strip_hws(a + b) == strip_hws(a) + strip_hws(b),
    decreases b.len(),
{
    if b.len() == 0 {
        assert(a + b =~= a);
        assert(strip_hws(a) + strip_hws(b) =~= strip_hws(a));
    } else {
        lemma_strip_add(a, b.drop_last());
        assert((a + b).drop_last() =~= a + b.drop_last());
        assert((a + b).last() == b.last());
        assert(strip_hws(a) + strip_hws(b.drop_last()).push(b.last()) =~= (strip_hws(a)
            + strip_hws(b.drop_last())).push(b.last()));
    }
}

/// A run of spaces and tabs disappears entirely.
pub proof fn lemma_strip_horizontal(g: Seq<u8>)
    requires
        forall|j: int| 0 <= j < g.len() ==> hws(#[trigger] g[j]),
    ensures
        strip_hws(g) == Seq::<u8>::empty(),
    decreases g.len(),
{
    if g.len() > 0 {
        assert(hws(g[g.len() - 1]));
        lemma_strip_horizontal(g.drop_last());
    }
}

} // verus!
