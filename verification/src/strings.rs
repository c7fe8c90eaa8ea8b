use vstd::prelude::*;
use vstd::string::StringSliceAdditionalSpecFns;
use vstd::utf8::{encode_utf8, encode_utf8_valid_utf8, valid_utf8};
use crate::utf8_facts::{lemma_ascii_byte, lemma_concat3, lemma_drop_ascii, lemma_first, lemma_slice, lemma_split};
use crate::text::{string_from_utf8, is_cont, utf8_width, append_range, at_boundary, is_blank, leading_ws, leading_ws_len};

verus! {

/// The first position at or after `j` that is not a space or a tab.
pub open spec fn skip_indent(s: Seq<u8>, j: int) -> int
    decreases s.len() - j,
{
    if 0 <= j < s.len() && (s[j] == 32 || s[j] == 9) {
        skip_indent(s, j + 1)
    } else {
        j
    }
}

pub proof fn lemma_skip_indent(s: Seq<u8>, j: int)
    requires
        0 <= j <= s.len(),
    ensures
        j <= skip_indent(s, j) <= s.len(),
        forall|k: int| j <= k < skip_indent(s, j) ==> (s[k] == 32 || s[k] == 9),
        skip_indent(s, j) < s.len() ==> !(s[skip_indent(s, j)] == 32 || s[skip_indent(s, j)] == 9),
    decreases s.len() - j,
{
    if j < s.len() && (s[j] == 32 || s[j] == 9) {
        lemma_skip_indent(s, j + 1);
    }
}

/// Where decoding resumes after a backslash-newline continuation whose
/// backslash sits at `i`: past the line break (`\n` or `\r\n`, or a lone
/// `\r`) and past the spaces and tabs that indent the next line.
pub open spec fn continuation_end(s: Seq<u8>, i: int) -> int {
    if s[i + 1] == 10 {
        skip_indent(s, i + 2)
    } else if i + 2 < s.len() && s[i + 2] == 10 {
        skip_indent(s, i + 3)
    } else {
        skip_indent(s, i + 2)
    }
}

/// Decode the escapes of the Fer string draft in `s[i..]`: `` \` ``, `\{`, `\}`,
/// `\\`, `\n`, `\t`, and a backslash before a line break, which joins the
/// physical lines and drops the next line's indentation. Any other escape
/// is kept verbatim, as is a trailing lone backslash.
pub open spec fn unescape_from(s: Seq<u8>, i: int) -> Seq<u8>
    decreases s.len() - i,
{
    if !(0 <= i < s.len()) {
        seq![]
    } else if s[i] != 92 {
        seq![s[i]] + unescape_from(s, i + 1)
    } else if i + 1 >= s.len() {
        seq![92u8]
    } else {
        let c = s[i + 1];
        if c == 96 || c == 123 || c == 125 || c == 92 {
            seq![c] + unescape_from(s, i + 2)
        } else if c == 110 {
            seq![10u8] + unescape_from(s, i + 2)
        } else if c == 116 {
            seq![9u8] + unescape_from(s, i + 2)
        } else if c == 10 || c == 13 {
            proof {
                lemma_skip_indent(s, i + 2);
                if i + 2 < s.len() {
                    lemma_skip_indent(s, i + 3);
                }
            }
            unescape_from(s, continuation_end(s, i))
        } else {
            seq![92u8, c] + unescape_from(s, i + 2)
        }
    }
}

/// The decoded form of the escapes in `s`.
pub open spec fn spec_unescape(s: Seq<u8>) -> Seq<u8> {
    unescape_from(s, 0)
}

/// The lines of `s[..n]` split on `\n`; the last line is the one still open.
pub open spec fn split_upto(s: Seq<u8>, n: int) -> Seq<Seq<u8>>
    decreases n,
{
    if n <= 0 {
        seq![seq![]]
    } else {
        let p = split_upto(s, n - 1);
        if s[n - 1] == 10 {
            p.push(seq![])
        } else {
            p.update(p.len() - 1, p.last().push(s[n - 1]))
        }
    }
}

/// The `\n`-separated lines of `s` (what `str::split('\n')` yields).
pub open spec fn split_lines(s: Seq<u8>) -> Seq<Seq<u8>> {
    split_upto(s, s.len() as int)
}

pub proof fn lemma_split_upto_nonempty(s: Seq<u8>, n: int)
    ensures
        split_upto(s, n).len() >= 1,
    decreases n,
{
    if n > 0 {
        lemma_split_upto_nonempty(s, n - 1);
    }
}

/// Lines joined back together with `\n` between neighbours.
pub open spec fn join_lines(ls: Seq<Seq<u8>>) -> Seq<u8>
    decreases ls.len(),
{
    if ls.len() == 0 {
        seq![]
    } else if ls.len() == 1 {
        ls[0]
    } else {
        join_lines(ls.drop_last()) + seq![10u8] + ls.last()
    }
}

/// The lines of a string body that take part in indentation cropping: a
/// leading empty line (the one right after the opening delimiter) and a
/// trailing blank line (the one before the closing delimiter) are dropped.
pub open spec fn body_lines(raw: Seq<u8>) -> Seq<Seq<u8>> {
    let ls = split_lines(raw);
    let ls1 = if ls.len() > 0 && ls[0].len() == 0 {
        ls.drop_first()
    } else {
        ls
    };
    if ls1.len() > 1 && is_blank(ls1.last()) {
        ls1.drop_last()
    } else {
        ls1
    }
}

/// The smallest leading-whitespace width among the non-empty lines, if any.
pub open spec fn indent_min(ls: Seq<Seq<u8>>) -> Option<int>
    decreases ls.len(),
{
    if ls.len() == 0 {
        None
    } else {
        let rest = indent_min(ls.drop_last());
        let l = ls.last();
        if l.len() == 0 {
            rest
        } else {
            let w = leading_ws(l);
            match rest {
                None => Some(w),
                Some(m) => Some(if w < m {
                    w
                } else {
                    m
                }),
            }
        }
    }
}

/// The common indentation width that is cropped from every line.
pub open spec fn common_indent(ls: Seq<Seq<u8>>) -> int {
    match indent_min(ls) {
        Some(m) => m,
        None => 0,
    }
}

/// Remove the first `m` bytes of a line when that is a character boundary
/// within it; otherwise keep the line whole.
pub open spec fn dedent(line: Seq<u8>, m: int) -> Seq<u8> {
    if 0 <= m <= line.len() && at_boundary(line, m) {
        line.subrange(m, line.len() as int)
    } else {
        line
    }
}

/// Normalized string content: body lines with their common indentation
/// cropped, rejoined with `\n`, then unescaped.
pub open spec fn spec_normalize(raw: Seq<u8>) -> Seq<u8> {
    let ls = body_lines(raw);
    let m = common_indent(ls);
    spec_unescape(join_lines(ls.map_values(|l: Seq<u8>| dedent(l, m))))
}

/// The content of a literal: the text between its backticks when it has both
/// delimiters, otherwise the text itself.
pub open spec fn literal_content(source: Seq<u8>) -> Seq<u8> {
    if source.len() >= 2 && source[0] == 96 && source[source.len() - 1] == 96 {
        source.subrange(1, source.len() - 1)
    } else {
        source
    }
}

/// Decode the escapes in `s`.
pub fn unescape(s: &[u8]) -> (r: Vec<u8>)
    ensures
        r@ == spec_unescape(s@),
{
    let n = s.len();
    let mut out: Vec<u8> = Vec::new();
    let mut i: usize = 0;
    while i < n
        invariant
            n == s.len(),
            0 <= i <= n,
            out@ + unescape_from(s@, i as int) == spec_unescape(s@),
        decreases n - i,
    {
        let ghost prev = out@;
        let c = s[i];
        if c != 92 {
            out.push(c);
            i = i + 1;
            assert(prev + unescape_from(s@, i - 1) == out@ + unescape_from(s@, i as int)) by {
                assert(prev + (seq![c] + unescape_from(s@, i as int)) =~= (prev + seq![c])
                    + unescape_from(s@, i as int));
            }
        } else if i + 1 >= n {
            out.push(92);
            i = i + 1;
            assert(out@ =~= prev + seq![92u8]);
        } else {
            let d = s[i + 1];
            if d == 96 || d == 123 || d == 125 || d == 92 || d == 110 || d == 116 {
                let e = if d == 110 {
                    10u8
                } else if d == 116 {
                    9u8
                } else {
                    d
                };
                out.push(e);
                i = i + 2;
                assert(prev + (seq![e] + unescape_from(s@, i as int)) =~= (prev + seq![e])
                    + unescape_from(s@, i as int));
            } else if d == 10 || d == 13 {
                let mut j = i + 2;
                if d == 13 && j < n && s[j] == 10 {
                    j = j + 1;
                }
                let ghost start = j;
                proof {
                    lemma_skip_indent(s@, j as int);
                }
                while j < n && (s[j] == 32 || s[j] == 9)
                    invariant
                        n == s.len(),
                        start <= j <= n,
                        skip_indent(s@, start as int) == skip_indent(s@, j as int),
                    decreases n - j,
                {
                    j = j + 1;
                }
                i = j;
            } else {
                out.push(92);
                out.push(d);
                i = i + 2;
                assert(prev + (seq![92u8, d] + unescape_from(s@, i as int)) =~= out@
                    + unescape_from(s@, i as int));
            }
        }
    }
    assert(out@ + unescape_from(s@, i as int) =~= out@);
    out
}


/// The byte contents of a vector of byte vectors.
pub open spec fn views(ls: Seq<Vec<u8>>) -> Seq<Seq<u8>> {
    ls.map_values(|v: Vec<u8>| v@)
}

/// Split `raw` on `\n`.
pub fn split_lines_of(raw: &[u8]) -> (ls: Vec<Vec<u8>>)
    ensures
        views(ls@) == split_lines(raw@),
{
    let mut lines: Vec<Vec<u8>> = Vec::new();
    let mut cur: Vec<u8> = Vec::new();
    let mut i: usize = 0;
    while i < raw.len()
        invariant
            0 <= i <= raw.len(),
            views(lines@).push(cur@) == split_upto(raw@, i as int),
        decreases raw.len() - i,
    {
        let ghost p = views(lines@).push(cur@);
        let b = raw[i];
        if b == 10 {
            lines.push(cur);
            cur = Vec::new();
            assert(views(lines@).push(cur@) =~= p.push(seq![]));
        } else {
            cur.push(b);
            assert(views(lines@).push(cur@) =~= p.update(p.len() - 1, p.last().push(b)));
        }
        i = i + 1;
    }
    lines.push(cur);
    lines
}

/// Whether a line consists of whitespace only.
pub fn line_is_blank(line: &[u8]) -> (r: bool)
    ensures
        r == is_blank(line@),
{
    leading_ws_len(line) == line.len()
}

/// Drop the leading empty line and the trailing blank line of a string body.
pub fn body_lines_of(raw: &[u8]) -> (ls: Vec<Vec<u8>>)
    ensures
        views(ls@) == body_lines(raw@),
{
    let mut ls = split_lines_of(raw);
    let ghost all = views(ls@);
    if ls.len() > 0 && ls[0].len() == 0 {
        ls.remove(0);
        assert(views(ls@) =~= all.drop_first());
    }
    let ghost mid = views(ls@);
    assert(mid == (if all.len() > 0 && all[0].len() == 0 {
        all.drop_first()
    } else {
        all
    }));
    if ls.len() > 1 {
        let last = ls.len() - 1;
        if line_is_blank(ls[last].as_slice()) {
            ls.pop();
            assert(views(ls@) =~= mid.drop_last());
        }
    }
    ls
}

/// The smallest leading-whitespace width among the non-empty lines.
pub fn common_indent_of(ls: &Vec<Vec<u8>>) -> (m: usize)
    ensures
        m == common_indent(views(ls@)),
{
    let ghost dv = views(ls@);
    let mut cur: Option<usize> = None;
    let mut k: usize = 0;
    while k < ls.len()
        invariant
            0 <= k <= ls.len(),
            dv == views(ls@),
            match cur {
                None => indent_min(dv.take(k as int)) is None,
                Some(v) => indent_min(dv.take(k as int)) == Some(v as int),
            },
        decreases ls.len() - k,
    {
        assert(dv.take(k + 1).drop_last() =~= dv.take(k as int));
        assert(dv.take(k + 1).last() == dv[k as int]);
        let line = ls[k].as_slice();
        if line.len() != 0 {
            let w = leading_ws_len(line);
            cur = match cur {
                None => Some(w),
                Some(v) => Some(if w < v {
                    w
                } else {
                    v
                }),
            };
        }
        k = k + 1;
    }
    assert(dv.take(ls.len() as int) =~= dv);
    match cur {
        None => 0,
        Some(v) => v,
    }
}

/// Whether byte offset `m` is a character boundary of `line`.
pub fn is_boundary_at(line: &[u8], m: usize) -> (r: bool)
    ensures
        r == (m <= line.len() && at_boundary(line@, m as int)),
{
    if m > line.len() {
        false
    } else if m == 0 || m == line.len() {
        true
    } else {
        let b = line[m];
        !(0x80 <= b && b <= 0xbf)
    }
}

/// Rejoin the lines with `\n` after cropping `m` bytes of indentation.
pub fn join_dedented(ls: &Vec<Vec<u8>>, m: usize) -> (r: Vec<u8>)
    ensures
        r@ == join_lines(views(ls@).map_values(|l: Seq<u8>| dedent(l, m as int))),
{
    let ghost dl = views(ls@).map_values(|l: Seq<u8>| dedent(l, m as int));
    let mut out: Vec<u8> = Vec::new();
    let mut k: usize = 0;
    while k < ls.len()
        invariant
            0 <= k <= ls.len(),
            dl == views(ls@).map_values(|l: Seq<u8>| dedent(l, m as int)),
            out@ == join_lines(dl.take(k as int)),
        decreases ls.len() - k,
    {
        let line = ls[k].as_slice();
        assert(line@ == views(ls@)[k as int]);
        let ghost prev = out@;
        if k > 0 {
            out.push(10);
        }
        if is_boundary_at(line, m) {
            append_range(&mut out, line, m, line.len());
        } else {
            append_range(&mut out, line, 0, line.len());
            assert(line@.subrange(0, line@.len() as int) =~= line@);
        }
        assert(dl.take(k + 1).drop_last() =~= dl.take(k as int));
        assert(dl.take(k + 1).last() == dl[k as int]);
        if k == 0 {
            assert(out@ =~= join_lines(dl.take(k + 1)));
        } else {
            assert(out@ =~= join_lines(dl.take(k + 1)));
        }
        k = k + 1;
    }
    assert(dl.take(ls.len() as int) =~= dl);
    out
}

/// Normalize indentation and escapes in an already-delimited string body.
pub fn normalize_bytes(raw: &[u8]) -> (r: Vec<u8>)
    ensures
        r@ == spec_normalize(raw@),
{
    let ls = body_lines_of(raw);
    let m = common_indent_of(&ls);
    let joined = join_dedented(&ls, m);
    unescape(joined.as_slice())
}

/// Decode the bytes of a backtick-delimited literal.
pub fn decode_literal_bytes(source: &[u8]) -> (r: Vec<u8>)
    ensures
        r@ == spec_normalize(literal_content(source@)),
{
    let n = source.len();
    if n >= 2 && source[0] == 96 && source[n - 1] == 96 {
        let mut content: Vec<u8> = Vec::new();
        append_range(&mut content, source, 1, n - 1);
        assert(content@ =~= source@.subrange(1, n - 1));
        normalize_bytes(content.as_slice())
    } else {
        normalize_bytes(source)
    }
}


/// Joining the lines of a text gives the text back.
pub proof fn lemma_join_split_upto(s: Seq<u8>, n: int)
    requires
        0 <= n <= s.len(),
    ensures
        join_lines(split_upto(s, n)) == s.subrange(0, n),
    decreases n,
{
    if n == 0 {
        assert(join_lines(split_upto(s, 0)) =~= s.subrange(0, 0));
    } else {
        lemma_join_split_upto(s, n - 1);
        lemma_split_upto_nonempty(s, n - 1);
        let p = split_upto(s, n - 1);
        if s[n - 1] == 10 {
            let q = p.push(seq![]);
            assert(q.drop_last() =~= p);
            assert(join_lines(q) =~= s.subrange(0, n));
        } else {
            let q = p.update(p.len() - 1, p.last().push(s[n - 1]));
            if p.len() == 1 {
                assert(join_lines(q) =~= s.subrange(0, n));
            } else {
                assert(q.drop_last() =~= p.drop_last());
                assert(q.last() == p.last().push(s[n - 1]));
                assert(join_lines(q) == join_lines(p.drop_last()) + seq![10u8] + p.last().push(
                    s[n - 1],
                ));
                assert(join_lines(p) == join_lines(p.drop_last()) + seq![10u8] + p.last());
                assert(join_lines(q) =~= join_lines(p).push(s[n - 1]));
                assert(s.subrange(0, n) =~= s.subrange(0, n - 1).push(s[n - 1]));
            }
        }
    }
}

/// The lines of valid UTF-8 joined by `\n` are each valid.
pub proof fn lemma_join_parts_valid(ls: Seq<Seq<u8>>)
    requires
        valid_utf8(join_lines(ls)),
    ensures
        forall|k: int| 0 <= k < ls.len() ==> valid_utf8(#[trigger] ls[k]),
    decreases ls.len(),
{
    if ls.len() == 1 {
    } else if ls.len() > 1 {
        let a = join_lines(ls.drop_last());
        let b = seq![10u8] + ls.last();
        assert(join_lines(ls) =~= a + b);
        lemma_split(a, b);
        lemma_drop_ascii(b);
        assert(b.subrange(1, b.len() as int) =~= ls.last());
        lemma_join_parts_valid(ls.drop_last());
        assert forall|k: int| 0 <= k < ls.len() implies valid_utf8(#[trigger] ls[k]) by {
            if k < ls.len() - 1 {
                assert(ls[k] == ls.drop_last()[k]);
            }
        }
    }
}

/// Joining valid lines with `\n` gives valid UTF-8.
pub proof fn lemma_join_valid(ls: Seq<Seq<u8>>)
    requires
        forall|k: int| 0 <= k < ls.len() ==> valid_utf8(#[trigger] ls[k]),
    ensures
        valid_utf8(join_lines(ls)),
    decreases ls.len(),
{
    reveal_with_fuel(valid_utf8, 1);
    if ls.len() == 0 {
        assert(join_lines(ls) =~= Seq::<u8>::empty());
    } else if ls.len() > 1 {
        assert forall|k: int| 0 <= k < ls.drop_last().len() implies valid_utf8(
            #[trigger] ls.drop_last()[k],
        ) by {
            assert(ls.drop_last()[k] == ls[k]);
        }
        lemma_join_valid(ls.drop_last());
        lemma_ascii_byte(10u8);
        assert(valid_utf8(ls[ls.len() - 1]));
        lemma_concat3(join_lines(ls.drop_last()), seq![10u8], ls.last());
    }
}

/// Decoding proceeds byte by byte over text that holds no backslash.
pub proof fn lemma_unescape_run(s: Seq<u8>, i: int, e: int)
    requires
        0 <= i <= e <= s.len(),
        forall|k: int| i <= k < e ==> s[k] != 92,
    ensures
        unescape_from(s, i) == s.subrange(i, e) + unescape_from(s, e),
    decreases e - i,
{
    if i == e {
        assert(s.subrange(i, e) =~= Seq::<u8>::empty());
        assert(s.subrange(i, e) + unescape_from(s, e) =~= unescape_from(s, e));
    } else {
        lemma_unescape_run(s, i + 1, e);
        assert(s.subrange(i, e) =~= seq![s[i]] + s.subrange(i + 1, e));
        assert(seq![s[i]] + (s.subrange(i + 1, e) + unescape_from(s, e)) =~= s.subrange(i, e)
            + unescape_from(s, e));
    }
}

/// Skipping indentation keeps a valid suffix valid.
pub proof fn lemma_skip_indent_valid(s: Seq<u8>, j: int)
    requires
        0 <= j <= s.len(),
        valid_utf8(s.subrange(j, s.len() as int)),
    ensures
        valid_utf8(s.subrange(skip_indent(s, j), s.len() as int)),
    decreases s.len() - j,
{
    if j < s.len() && (s[j] == 32 || s[j] == 9) {
        let t = s.subrange(j, s.len() as int);
        lemma_drop_ascii(t);
        assert(t.subrange(1, t.len() as int) =~= s.subrange(j + 1, s.len() as int));
        lemma_skip_indent_valid(s, j + 1);
    }
}

/// Decoding a valid suffix yields valid UTF-8.
pub proof fn lemma_unescape_valid(s: Seq<u8>, i: int)
    requires
        0 <= i <= s.len(),
        valid_utf8(s.subrange(i, s.len() as int)),
    ensures
        valid_utf8(unescape_from(s, i)),
    decreases s.len() - i,
{
    reveal_with_fuel(valid_utf8, 1);
    if i < s.len() {
        let t = s.subrange(i, s.len() as int);
        lemma_first(t);
        let w = utf8_width(s[i]);
        assert(t[0] == s[i]);
        assert(t.subrange(w, t.len() as int) =~= s.subrange(i + w, s.len() as int));
        assert(t.subrange(0, w) =~= s.subrange(i, i + w));
        if s[i] != 92 {
            assert forall|k: int| i <= k < i + w implies s[k] != 92 by {
                if k > i {
                    assert(t[k - i] == s[k]);
                }
            }
            lemma_unescape_run(s, i, i + w);
            lemma_unescape_valid(s, i + w);
            vstd::utf8::valid_utf8_concat(s.subrange(i, i + w), unescape_from(s, i + w));
        } else if i + 1 >= s.len() {
            lemma_ascii_byte(92u8);
        } else {
            let t1 = s.subrange(i + 1, s.len() as int);
            lemma_first(t1);
            assert(t1[0] == s[i + 1]);
            let c = s[i + 1];
            let w1 = utf8_width(c);
            assert(t1.subrange(w1, t1.len() as int) =~= s.subrange(i + 1 + w1, s.len() as int));
            if c == 96 || c == 123 || c == 125 || c == 92 || c == 110 || c == 116 {
                lemma_unescape_valid(s, i + 2);
                let e: u8 = if c == 110 {
                    10u8
                } else if c == 116 {
                    9u8
                } else {
                    c
                };
                lemma_ascii_byte(e);
                vstd::utf8::valid_utf8_concat(seq![e], unescape_from(s, i + 2));
            } else if c == 10 || c == 13 {
                lemma_skip_indent(s, i + 2);
                if i + 2 < s.len() && c == 13 && s[i + 2] == 10 {
                    let t2 = s.subrange(i + 2, s.len() as int);
                    lemma_drop_ascii(t2);
                    assert(t2.subrange(1, t2.len() as int) =~= s.subrange(i + 3, s.len() as int));
                    lemma_skip_indent(s, i + 3);
                    lemma_skip_indent_valid(s, i + 3);
                } else {
                    lemma_skip_indent_valid(s, i + 2);
                }
                lemma_unescape_valid(s, continuation_end(s, i));
            } else {
                assert forall|k: int| i + 2 <= k < i + 1 + w1 implies s[k] != 92 by {
                    assert(t1[k - i - 1] == s[k]);
                }
                lemma_unescape_run(s, i + 2, i + 1 + w1);
                lemma_unescape_valid(s, i + 1 + w1);
                lemma_ascii_byte(92u8);
                assert(t1.subrange(0, w1) =~= s.subrange(i + 1, i + 1 + w1));
                assert(seq![92u8, c] + unescape_from(s, i + 2) =~= seq![92u8] + s.subrange(
                    i + 1,
                    i + 1 + w1,
                ) + unescape_from(s, i + 1 + w1));
                lemma_concat3(seq![92u8], s.subrange(i + 1, i + 1 + w1), unescape_from(s, i + 1 + w1));
            }
        }
    }
}

/// Normalizing valid UTF-8 yields valid UTF-8.
pub proof fn lemma_normalize_valid(raw: Seq<u8>)
    requires
        valid_utf8(raw),
    ensures
        valid_utf8(spec_normalize(raw)),
{
    let all = split_lines(raw);
    lemma_join_split_upto(raw, raw.len() as int);
    assert(raw.subrange(0, raw.len() as int) =~= raw);
    lemma_join_parts_valid(all);
    let ls = body_lines(raw);
    assert forall|k: int| 0 <= k < ls.len() implies valid_utf8(#[trigger] ls[k]) by {
        let ls1 = if all.len() > 0 && all[0].len() == 0 {
            all.drop_first()
        } else {
            all
        };
        assert(ls[k] == ls1[k]);
        if all.len() > 0 && all[0].len() == 0 {
            assert(ls1[k] == all[k + 1]);
        }
    }
    let m = common_indent(ls);
    let dl = ls.map_values(|l: Seq<u8>| dedent(l, m));
    assert forall|k: int| 0 <= k < dl.len() implies valid_utf8(#[trigger] dl[k]) by {
        let l = ls[k];
        if 0 <= m <= l.len() && at_boundary(l, m) {
            assert(l =~= l.subrange(0, m) + l.subrange(m, l.len() as int));
            lemma_split(l.subrange(0, m), l.subrange(m, l.len() as int));
        }
    }
    lemma_join_valid(dl);
    let j = join_lines(dl);
    assert(j.subrange(0, j.len() as int) =~= j);
    lemma_unescape_valid(j, 0);
}


/// Normalize indentation and escapes in a string's already-delimited content:
/// the leading empty line and a trailing blank line are dropped, the common
/// indentation of the non-empty lines is cropped, and escapes are decoded.
pub fn normalize_multiline_string(raw: &str) -> (r: String)
    ensures
        encode_utf8(r@) == spec_normalize(raw.spec_bytes()),
{
    let b = normalize_bytes(raw.as_bytes());
    proof {
        encode_utf8_valid_utf8(raw@);
        lemma_normalize_valid(raw.spec_bytes());
    }
    match string_from_utf8(b) {
        Some(text) => text,
        None => {
            proof {
                assert(false);
            }
            String::new()
        },
    }
}

/// Decode a backtick-delimited string literal: the content between the
/// delimiters (or the whole text when they are missing) is normalized.
pub fn decode_string_literal(source: &str) -> (r: String)
    ensures
        encode_utf8(r@) == spec_normalize(literal_content(source.spec_bytes())),
{
    let b = decode_literal_bytes(source.as_bytes());
    proof {
        let s = source.spec_bytes();
        encode_utf8_valid_utf8(source@);
        if s.len() >= 2 && s[0] == 96 && s[s.len() - 1] == 96 {
            lemma_drop_ascii(s);
            let t = s.subrange(1, s.len() as int);
            assert(t =~= s.subrange(1, s.len() - 1) + seq![96u8]);
            lemma_split(s.subrange(1, s.len() - 1), seq![96u8]);
        }
        lemma_normalize_valid(literal_content(s));
    }
    match string_from_utf8(b) {
        Some(text) => text,
        None => {
            proof {
                assert(false);
            }
            String::new()
        },
    }
}

} // verus!
