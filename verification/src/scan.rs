use vstd::prelude::*;

verus! {

// Byte-level scanners shared by the lexer. Each one is a maximal-munch run
// over the UTF-8 bytes of the source, stated as a spec function, with an
// executable twin proved equal to it.

pub open spec fn is_digit(b: u8) -> bool {
    48 <= b <= 57
}

pub open spec fn is_alpha(b: u8) -> bool {
    (65 <= b <= 90) || (97 <= b <= 122)
}

/// Bytes that may start an identifier: ASCII letters and `_`.
pub open spec fn is_ident_start(b: u8) -> bool {
    is_alpha(b) || b == 95
}

/// Bytes that may continue an identifier: ASCII letters, digits, `-` and `_`.
pub open spec fn is_ident_continue(b: u8) -> bool {
    is_alpha(b) || is_digit(b) || b == 45 || b == 95
}

/// Bytes skipped as plain whitespace between tokens.
pub open spec fn is_space(b: u8) -> bool {
    b == 32 || b == 9 || b == 10 || b == 13
}

/// End of the run of ASCII digits starting at `i`.
pub open spec fn digits_end(s: Seq<u8>, i: int) -> int
    decreases s.len() - i,
{
    if 0 <= i < s.len() && is_digit(s[i]) {
        digits_end(s, i + 1)
    } else {
        i
    }
}

/// End of the run of identifier bytes starting at `i`.
pub open spec fn ident_end(s: Seq<u8>, i: int) -> int
    decreases s.len() - i,
{
    if 0 <= i < s.len() && is_ident_continue(s[i]) {
        ident_end(s, i + 1)
    } else {
        i
    }
}

/// End of the run of ASCII letters starting at `i` (regex flags).
pub open spec fn alpha_end(s: Seq<u8>, i: int) -> int
    decreases s.len() - i,
{
    if 0 <= i < s.len() && is_alpha(s[i]) {
        alpha_end(s, i + 1)
    } else {
        i
    }
}

/// Position of the first `\n` at or after `i` (end of a line comment), or the end.
pub open spec fn line_end(s: Seq<u8>, i: int) -> int
    decreases s.len() - i,
{
    if 0 <= i < s.len() && s[i] != 10 {
        line_end(s, i + 1)
    } else {
        i
    }
}

/// Position just past the first `*/` at or after `i` (end of a block
/// comment), or the end when the comment is not closed.
pub open spec fn block_end(s: Seq<u8>, i: int) -> int
    decreases s.len() - i,
{
    if !(0 <= i < s.len()) {
        i
    } else if s[i] == 42 && i + 1 < s.len() && s[i + 1] == 47 {
        i + 2
    } else {
        block_end(s, i + 1)
    }
}

/// The first unescaped `` ` `` or `{` at or after `i` inside string text; a
/// backslash escapes the byte after it. The end of the source when there is none.
pub open spec fn string_scan(s: Seq<u8>, i: int) -> int
    decreases s.len() - i,
{
    if !(0 <= i < s.len()) {
        i
    } else if s[i] == 96 || s[i] == 123 {
        i
    } else if s[i] == 92 {
        if i + 1 < s.len() {
            string_scan(s, i + 2)
        } else {
            i + 1
        }
    } else {
        string_scan(s, i + 1)
    }
}

/// The first unescaped `/` at or after `i` inside a regex body, or the end.
pub open spec fn regex_close(s: Seq<u8>, i: int) -> int
    decreases s.len() - i,
{
    if !(0 <= i < s.len()) {
        i
    } else if s[i] == 92 {
        if i + 1 < s.len() {
            regex_close(s, i + 2)
        } else {
            i + 1
        }
    } else if s[i] == 47 {
        i
    } else {
        regex_close(s, i + 1)
    }
}

pub proof fn lemma_scans(s: Seq<u8>, i: int)
    requires
        0 <= i <= s.len(),
    ensures
        i <= digits_end(s, i) <= s.len(),
        i <= ident_end(s, i) <= s.len(),
        i <= alpha_end(s, i) <= s.len(),
        i <= line_end(s, i) <= s.len(),
        i <= block_end(s, i) <= s.len(),
        i <= string_scan(s, i) <= s.len(),
        i <= regex_close(s, i) <= s.len(),
        string_scan(s, i) < s.len() ==> (s[string_scan(s, i)] == 96 || s[string_scan(s, i)]
            == 123),
        regex_close(s, i) < s.len() ==> s[regex_close(s, i)] == 47,
        i < s.len() && is_digit(s[i]) ==> i < digits_end(s, i),
        i < s.len() && is_ident_continue(s[i]) ==> i < ident_end(s, i),
        forall|k: int| i <= k < ident_end(s, i) ==> is_ident_continue(#[trigger] s[k]),
    decreases s.len() - i,
{
    if i < s.len() {
        lemma_scans(s, i + 1);
        if i + 1 < s.len() {
            lemma_scans(s, i + 2);
        }
    }
}

/// Plain whitespace and comments skipped before a token.
pub open spec fn skip_trivia(s: Seq<u8>, p: int) -> int
    decreases s.len() - p,
{
    if !(0 <= p < s.len()) {
        p
    } else if is_space(s[p]) {
        skip_trivia(s, p + 1)
    } else if s[p] == 47 && p + 1 < s.len() && s[p + 1] == 47 {
        proof {
            lemma_scans(s, p + 2);
        }
        skip_trivia(s, line_end(s, p + 2))
    } else if s[p] == 47 && p + 1 < s.len() && s[p + 1] == 42 {
        proof {
            lemma_scans(s, p + 2);
        }
        skip_trivia(s, block_end(s, p + 2))
    } else {
        p
    }
}

pub proof fn lemma_skip_trivia(s: Seq<u8>, p: int)
    requires
        0 <= p,
    ensures
        p <= skip_trivia(s, p),
        p <= s.len() ==> skip_trivia(s, p) <= s.len(),
        p > s.len() ==> skip_trivia(s, p) == p,
        skip_trivia(s, skip_trivia(s, p)) == skip_trivia(s, p),
    decreases s.len() - p,
{
    if p < s.len() {
        lemma_scans(s, p + 1);
        if p + 1 < s.len() {
            lemma_scans(s, p + 2);
        }
        if is_space(s[p]) {
            lemma_skip_trivia(s, p + 1);
        } else if s[p] == 47 && p + 1 < s.len() && s[p + 1] == 47 {
            lemma_skip_trivia(s, line_end(s, p + 2));
        } else if s[p] == 47 && p + 1 < s.len() && s[p + 1] == 42 {
            lemma_skip_trivia(s, block_end(s, p + 2));
        }
    }
}

pub fn digits_end_at(s: &[u8], i: usize) -> (r: usize)
    requires
        i <= s.len(),
    ensures
        r == digits_end(s@, i as int),
{
    let mut j = i;
    while j < s.len() && 48 <= s[j] && s[j] <= 57
        invariant
            i <= j <= s.len(),
            digits_end(s@, j as int) == digits_end(s@, i as int),
        decreases s.len() - j,
    {
        j = j + 1;
    }
    j
}

pub fn ident_end_at(s: &[u8], i: usize) -> (r: usize)
    requires
        i <= s.len(),
    ensures
        r == ident_end(s@, i as int),
{
    let mut j = i;
    while j < s.len() && ((65 <= s[j] && s[j] <= 90) || (97 <= s[j] && s[j] <= 122) || (48
        <= s[j] && s[j] <= 57) || s[j] == 45 || s[j] == 95)
        invariant
            i <= j <= s.len(),
            ident_end(s@, j as int) == ident_end(s@, i as int),
        decreases s.len() - j,
    {
        j = j + 1;
    }
    j
}

pub fn alpha_end_at(s: &[u8], i: usize) -> (r: usize)
    requires
        i <= s.len(),
    ensures
        r == alpha_end(s@, i as int),
{
    let mut j = i;
    while j < s.len() && ((65 <= s[j] && s[j] <= 90) || (97 <= s[j] && s[j] <= 122))
        invariant
            i <= j <= s.len(),
            alpha_end(s@, j as int) == alpha_end(s@, i as int),
        decreases s.len() - j,
    {
        j = j + 1;
    }
    j
}

pub fn line_end_at(s: &[u8], i: usize) -> (r: usize)
    requires
        i <= s.len(),
    ensures
        r == line_end(s@, i as int),
{
    let mut j = i;
    while j < s.len() && s[j] != 10
        invariant
            i <= j <= s.len(),
            line_end(s@, j as int) == line_end(s@, i as int),
        decreases s.len() - j,
    {
        j = j + 1;
    }
    j
}

pub fn block_end_at(s: &[u8], i: usize) -> (r: usize)
    requires
        i <= s.len(),
    ensures
        r == block_end(s@, i as int),
{
    let mut j = i;
    while j < s.len()
        invariant
            i <= j <= s.len(),
            block_end(s@, j as int) == block_end(s@, i as int),
        decreases s.len() - j,
    {
        if s[j] == 42 && j + 1 < s.len() && s[j + 1] == 47 {
            return j + 2;
        }
        j = j + 1;
    }
    j
}

pub fn string_scan_at(s: &[u8], i: usize) -> (r: usize)
    requires
        i <= s.len(),
    ensures
        r == string_scan(s@, i as int),
{
    let mut j = i;
    while j < s.len()
        invariant
            i <= j <= s.len(),
            string_scan(s@, j as int) == string_scan(s@, i as int),
        decreases s.len() - j,
    {
        let b = s[j];
        if b == 96 || b == 123 {
            return j;
        } else if b == 92 {
            if j + 1 < s.len() {
                j = j + 2;
            } else {
                return j + 1;
            }
        } else {
            j = j + 1;
        }
    }
    j
}

pub fn regex_close_at(s: &[u8], i: usize) -> (r: usize)
    requires
        i <= s.len(),
    ensures
        r == regex_close(s@, i as int),
{
    let mut j = i;
    while j < s.len()
        invariant
            i <= j <= s.len(),
            regex_close(s@, j as int) == regex_close(s@, i as int),
        decreases s.len() - j,
    {
        let b = s[j];
        if b == 92 {
            if j + 1 < s.len() {
                j = j + 2;
            } else {
                return j + 1;
            }
        } else if b == 47 {
            return j;
        } else {
            j = j + 1;
        }
    }
    j
}

pub fn skip_trivia_at(s: &[u8], p: usize) -> (r: usize)
    ensures
        r == skip_trivia(s@, p as int),
{
    let mut j = p;
    proof {
        lemma_skip_trivia(s@, p as int);
    }
    while j < s.len()
        invariant
            p <= j,
            skip_trivia(s@, j as int) == skip_trivia(s@, p as int),
        decreases s.len() - j,
    {
        let b = s[j];
        proof {
            lemma_scans(s@, j as int);
            lemma_scans(s@, (j + 1) as int);
            if j + 2 <= s.len() {
                lemma_scans(s@, (j + 2) as int);
            }
        }
        if b == 32 || b == 9 || b == 10 || b == 13 {
            j = j + 1;
        } else if b == 47 && j + 1 < s.len() && s[j + 1] == 47 {
            j = line_end_at(s, j + 2);
        } else if b == 47 && j + 1 < s.len() && s[j + 1] == 42 {
            j = block_end_at(s, j + 2);
        } else {
            return j;
        }
    }
    j
}

} // verus!
