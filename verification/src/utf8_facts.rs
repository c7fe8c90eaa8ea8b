use vstd::prelude::*;
use vstd::string::StringSliceAdditionalSpecFns;
use vstd::utf8::{encode_utf8_valid_utf8, encode_utf8};
use vstd::utf8::{
    is_char_boundary, length_of_first_scalar, pop_first_scalar, valid_first_scalar, valid_utf8, valid_utf8_concat,
};
use crate::text::{at_boundary, is_cont, utf8_width};

verus! {

// Facts about well-formed UTF-8 used to show that text assembled from
// slices of a valid source (cut at character boundaries) and ASCII bytes
// is itself valid.

/// A single ASCII byte is valid UTF-8.
pub proof fn lemma_ascii_byte(b: u8)
    requires
        b < 0x80,
    ensures
        valid_utf8(seq![b]),
{
    reveal_with_fuel(valid_utf8, 2);
    assert(pop_first_scalar(seq![b]) =~= Seq::<u8>::empty());
}

/// A run of ASCII bytes is valid UTF-8.
pub proof fn lemma_ascii_seq(s: Seq<u8>)
    requires
        forall|k: int| 0 <= k < s.len() ==> s[k] < 0x80,
    ensures
        valid_utf8(s),
    decreases s.len(),
{
    if s.len() > 0 {
        lemma_ascii_byte(s[0]);
        lemma_ascii_seq(s.drop_first());
        valid_utf8_concat(seq![s[0]], s.drop_first());
        assert(seq![s[0]] + s.drop_first() =~= s);
    }
}

/// The shape of the first character of valid, non-empty UTF-8.
pub proof fn lemma_first(t: Seq<u8>)
    requires
        valid_utf8(t),
        t.len() > 0,
    ensures
        length_of_first_scalar(t) == utf8_width(t[0]),
        1 <= utf8_width(t[0]) <= t.len(),
        !is_cont(t[0]),
        forall|k: int| 1 <= k < utf8_width(t[0]) ==> is_cont(#[trigger] t[k]),
        valid_utf8(t.subrange(0, utf8_width(t[0]))),
        valid_utf8(t.subrange(utf8_width(t[0]), t.len() as int)),
        t[0] < 0x80 ==> utf8_width(t[0]) == 1,
{
    reveal_with_fuel(valid_utf8, 2);
    assert(valid_first_scalar(t));
    let w = utf8_width(t[0]);
    let h = t.subrange(0, w);
    assert(h.len() == w);
    assert(forall|k: int| 0 <= k < w ==> h[k] == t[k]);
    assert(valid_first_scalar(h));
    assert(pop_first_scalar(h) =~= Seq::<u8>::empty());
    assert(pop_first_scalar(t) =~= t.subrange(w, t.len() as int));
}

/// Splitting valid UTF-8 in front of a byte that is not a continuation byte
/// leaves two valid halves.
pub proof fn lemma_split(a: Seq<u8>, b: Seq<u8>)
    requires
        valid_utf8(a + b),
        b.len() == 0 || !is_cont(b[0]),
    ensures
        valid_utf8(a),
        valid_utf8(b),
    decreases a.len(),
{
    let t = a + b;
    if a.len() == 0 {
        assert(t =~= b);
        assert(valid_utf8(a));
    } else {
        lemma_first(t);
        let w = utf8_width(t[0]);
        if w > a.len() {
            assert(t[a.len() as int] == b[0]);
            assert(is_cont(t[a.len() as int]));
            assert(false);
        }
        assert(t.subrange(w, t.len() as int) =~= a.subrange(w, a.len() as int) + b);
        lemma_split(a.subrange(w, a.len() as int), b);
        assert(t.subrange(0, w) =~= a.subrange(0, w));
        valid_utf8_concat(a.subrange(0, w), a.subrange(w, a.len() as int));
        assert(a.subrange(0, w) + a.subrange(w, a.len() as int) =~= a);
    }
}

/// Cutting valid UTF-8 at two character boundaries gives valid UTF-8.
pub proof fn lemma_slice(s: Seq<u8>, i: int, j: int)
    requires
        valid_utf8(s),
        0 <= i <= j <= s.len(),
        at_boundary(s, i),
        at_boundary(s, j),
    ensures
        valid_utf8(s.subrange(i, j)),
{
    assert(s =~= s.subrange(0, i) + s.subrange(i, s.len() as int));
    lemma_split(s.subrange(0, i), s.subrange(i, s.len() as int));
    let r = s.subrange(i, s.len() as int);
    assert(r =~= s.subrange(i, j) + s.subrange(j, s.len() as int));
    lemma_split(s.subrange(i, j), s.subrange(j, s.len() as int));
}

/// Valid UTF-8 without its leading ASCII byte is still valid.
pub proof fn lemma_drop_ascii(t: Seq<u8>)
    requires
        valid_utf8(t),
        t.len() > 0,
        t[0] < 0x80,
    ensures
        valid_utf8(t.subrange(1, t.len() as int)),
{
    lemma_first(t);
}

/// Concatenation of three valid pieces is valid.
pub proof fn lemma_concat3(a: Seq<u8>, b: Seq<u8>, c: Seq<u8>)
    requires
        valid_utf8(a),
        valid_utf8(b),
        valid_utf8(c),
    ensures
        valid_utf8(a + b + c),
{
    valid_utf8_concat(a, b);
    valid_utf8_concat(a + b, c);
}


/// On valid UTF-8 the standard library's character boundaries are exactly
/// the offsets that are the end or start a character (`at_boundary`).
pub proof fn lemma_boundary_iff(s: Seq<u8>, i: int)
    requires
        valid_utf8(s),
    ensures
        is_char_boundary(s, i) <==> at_boundary(s, i),
    decreases s.len(),
{
    if i == 0 {
    } else if i < 0 || s.len() < i {
    } else {
        lemma_first(s);
        let w = utf8_width(s[0]);
        let rest = s.subrange(w, s.len() as int);
        assert(pop_first_scalar(s) == rest);
        lemma_boundary_iff(rest, i - w);
        if i < w {
            assert(is_cont(s[i]));
        } else if i == w && w < s.len() {
            lemma_first(rest);
            assert(rest[0] == s[w]);
        } else if i > w && i < s.len() {
            assert(rest[i - w] == s[i]);
        }
    }
}

/// Boundaries carry over to a slice that starts at a boundary.
pub proof fn lemma_boundary_shift(s: Seq<u8>, i: int, j: int)
    requires
        valid_utf8(s),
        0 <= i <= j <= s.len(),
        is_char_boundary(s, i),
        is_char_boundary(s, j),
    ensures
        valid_utf8(s.subrange(i, s.len() as int)),
        is_char_boundary(s.subrange(i, s.len() as int), j - i),
{
    lemma_boundary_iff(s, i);
    lemma_boundary_iff(s, j);
    lemma_slice(s, i, s.len() as int);
    let t = s.subrange(i, s.len() as int);
    if j < s.len() && j > i {
        assert(t[j - i] == s[j]);
    }
    lemma_boundary_iff(t, j - i);
}


/// The text of `s` between two byte offsets, when both are in bounds and at
/// character boundaries (what `str::get(start..end)` returns).
pub fn str_get<'a>(s: &'a str, start: usize, end: usize) -> (r: Option<&'a str>)
    ensures
        r is Some <==> (start <= end <= s.spec_bytes().len() && at_boundary(s.spec_bytes(), start as int)
            && at_boundary(s.spec_bytes(), end as int)),
        r matches Some(t) ==> t.spec_bytes() == s.spec_bytes().subrange(start as int, end as int),
{
    proof {
        encode_utf8_valid_utf8(s@);
        lemma_boundary_iff(s.spec_bytes(), start as int);
        lemma_boundary_iff(s.spec_bytes(), end as int);
    }
    let n = s.as_bytes().len();
    if start > end || end > n {
        return None;
    }
    if !s.is_char_boundary(start) || !s.is_char_boundary(end) {
        return None;
    }
    let (_, rest) = s.split_at(start);
    proof {
        lemma_boundary_shift(s.spec_bytes(), start as int, end as int);
    }
    let (mid, _) = rest.split_at(end - start);
    assert(mid.spec_bytes() =~= s.spec_bytes().subrange(start as int, end as int));
    Some(mid)
}

} // verus!
