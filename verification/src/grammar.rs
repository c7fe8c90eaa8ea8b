use vstd::prelude::*;
use vstd::string::StringSliceAdditionalSpecFns;

verus! {

/// Every terminal symbol the Fer lexer can produce.
#[derive(Clone, Copy, Debug, PartialEq, Eq, Hash, Structural)]
pub enum TokenKind {
    IntLiteral,
    FloatLiteral,
    StringLiteral,
    RegexLiteral,
    TrueKw,
    FalseKw,
    StringStart,
    StringPart,
    ExprStart,
    ExprEnd,
    StringEnd,
    Identifier,
    Struct,
    Enum,
    Exports,
    And,
    Or,
    Not,
    Contains,
    Less,
    More,
    Least,
    Most,
    Equals,
    In,
    Matches,
    Starts,
    Ends,
    LBrace,
    RBrace,
    LParen,
    RParen,
    LBracket,
    RBracket,
    Comma,
    Dot,
    Colon,
    Arrow,
    At,
    Hash,
    Plus,
    Minus,
    Star,
    Slash,
    Percent,
    Eq,
    Lt,
    Gt,
    LtEq,
    GtEq,
    Eof,
    Error,
}

/// Associativity of a binary operator.
#[derive(Clone, Copy, Debug, PartialEq, Eq, Structural)]
pub enum Assoc {
    Left,
    Right,
}

/// A row in the binary-operator precedence table.
#[derive(Clone, Copy, Debug)]
pub struct OpInfo {
    pub kind: TokenKind,
    pub prec: u8,
    pub assoc: Assoc,
}

/// Precedence and associativity of each binary operator: comparisons, in
/// symbols or in condition words, bind at 4, additive operators at 5 and
/// multiplicative operators at 6, all left-associative.
pub open spec fn spec_prec_of(kind: TokenKind) -> Option<(u8, Assoc)> {
    match kind {
        TokenKind::Lt | TokenKind::Gt | TokenKind::LtEq | TokenKind::GtEq | TokenKind::Less
        | TokenKind::More | TokenKind::Least | TokenKind::Most | TokenKind::Equals
        | TokenKind::Contains | TokenKind::In | TokenKind::Matches | TokenKind::Starts
        | TokenKind::Ends => Some((4u8, Assoc::Left)),
        TokenKind::Plus | TokenKind::Minus => Some((5u8, Assoc::Left)),
        TokenKind::Star | TokenKind::Slash | TokenKind::Percent => Some((6u8, Assoc::Left)),
        _ => None,
    }
}

/// The static precedence table for binary operators, in table order.
pub fn binary_ops() -> (table: Vec<OpInfo>)
    ensures
        table.len() == 19,
        forall|i: int|
            0 <= i < table.len() ==> spec_prec_of(#[trigger] table[i].kind) == Some(
                (table[i].prec, table[i].assoc),
            ),
        forall|k: TokenKind|
            spec_prec_of(k) is Some ==> exists|i: int| 0 <= i < table.len() && #[trigger] table[i].kind == k,
{
    let table = vec![
        OpInfo { kind: TokenKind::Lt, prec: 4, assoc: Assoc::Left },
        OpInfo { kind: TokenKind::Gt, prec: 4, assoc: Assoc::Left },
        OpInfo { kind: TokenKind::LtEq, prec: 4, assoc: Assoc::Left },
        OpInfo { kind: TokenKind::GtEq, prec: 4, assoc: Assoc::Left },
        OpInfo { kind: TokenKind::Less, prec: 4, assoc: Assoc::Left },
        OpInfo { kind: TokenKind::More, prec: 4, assoc: Assoc::Left },
        OpInfo { kind: TokenKind::Least, prec: 4, assoc: Assoc::Left },
        OpInfo { kind: TokenKind::Most, prec: 4, assoc: Assoc::Left },
        OpInfo { kind: TokenKind::Equals, prec: 4, assoc: Assoc::Left },
        OpInfo { kind: TokenKind::Contains, prec: 4, assoc: Assoc::Left },
        OpInfo { kind: TokenKind::In, prec: 4, assoc: Assoc::Left },
        OpInfo { kind: TokenKind::Matches, prec: 4, assoc: Assoc::Left },
        OpInfo { kind: TokenKind::Starts, prec: 4, assoc: Assoc::Left },
        OpInfo { kind: TokenKind::Ends, prec: 4, assoc: Assoc::Left },
        OpInfo { kind: TokenKind::Plus, prec: 5, assoc: Assoc::Left },
        OpInfo { kind: TokenKind::Minus, prec: 5, assoc: Assoc::Left },
        OpInfo { kind: TokenKind::Star, prec: 6, assoc: Assoc::Left },
        OpInfo { kind: TokenKind::Slash, prec: 6, assoc: Assoc::Left },
        OpInfo { kind: TokenKind::Percent, prec: 6, assoc: Assoc::Left },
    ];
    assert forall|k: TokenKind| spec_prec_of(k) is Some implies exists|i: int|
        0 <= i < table.len() && #[trigger] table[i].kind == k by {
        match k {
            TokenKind::Lt => assert(table[0].kind == k),
            TokenKind::Gt => assert(table[1].kind == k),
            TokenKind::LtEq => assert(table[2].kind == k),
            TokenKind::GtEq => assert(table[3].kind == k),
            TokenKind::Less => assert(table[4].kind == k),
            TokenKind::More => assert(table[5].kind == k),
            TokenKind::Least => assert(table[6].kind == k),
            TokenKind::Most => assert(table[7].kind == k),
            TokenKind::Equals => assert(table[8].kind == k),
            TokenKind::Contains => assert(table[9].kind == k),
            TokenKind::In => assert(table[10].kind == k),
            TokenKind::Matches => assert(table[11].kind == k),
            TokenKind::Starts => assert(table[12].kind == k),
            TokenKind::Ends => assert(table[13].kind == k),
            TokenKind::Plus => assert(table[14].kind == k),
            TokenKind::Minus => assert(table[15].kind == k),
            TokenKind::Star => assert(table[16].kind == k),
            TokenKind::Slash => assert(table[17].kind == k),
            TokenKind::Percent => assert(table[18].kind == k),
            _ => {},
        }
    }
    table
}

/// Look up precedence and associativity for a binary operator.
pub fn prec_of(kind: TokenKind) -> (r: Option<(u8, Assoc)>)
    ensures
        r == spec_prec_of(kind),
{
    let table = binary_ops();
    let mut i: usize = 0;
    while i < table.len()
        invariant
            0 <= i <= table.len(),
            table.len() == 19,
            forall|j: int| 0 <= j < table.len() ==> spec_prec_of(#[trigger] table[j].kind) == Some(
                (table[j].prec, table[j].assoc),
            ),
            forall|k: TokenKind|
                spec_prec_of(k) is Some ==> exists|j: int| 0 <= j < table.len() && #[trigger] table[j].kind == k,
            forall|j: int| 0 <= j < i ==> #[trigger] table[j].kind != kind,
        decreases table.len() - i,
    {
        if table[i].kind == kind {
            return Some((table[i].prec, table[i].assoc));
        }
        i = i + 1;
    }
    None
}

/// The words the lexer reads as keywords, by their UTF-8 spelling. The
/// logical words `and` and `or`, like the quantifier words, are contextual
/// in source text and lex as identifiers.
pub open spec fn spec_keyword(w: Seq<u8>) -> Option<TokenKind> {
    if w == seq![115u8, 116, 114, 117, 99, 116] {
        Some(TokenKind::Struct)
    } else if w == seq![101u8, 110, 117, 109] {
        Some(TokenKind::Enum)
    } else if w == seq![101u8, 120, 112, 111, 114, 116, 115] {
        Some(TokenKind::Exports)
    } else if w == seq![110u8, 111, 116] {
        Some(TokenKind::Not)
    } else if w == seq![99u8, 111, 110, 116, 97, 105, 110, 115] {
        Some(TokenKind::Contains)
    } else if w == seq![108u8, 101, 115, 115] {
        Some(TokenKind::Less)
    } else if w == seq![109u8, 111, 114, 101] {
        Some(TokenKind::More)
    } else if w == seq![108u8, 101, 97, 115, 116] {
        Some(TokenKind::Least)
    } else if w == seq![109u8, 111, 115, 116] {
        Some(TokenKind::Most)
    } else if w == seq![101u8, 113, 117, 97, 108, 115] {
        Some(TokenKind::Equals)
    } else if w == seq![105u8, 110] {
        Some(TokenKind::In)
    } else if w == seq![109u8, 97, 116, 99, 104, 101, 115] {
        Some(TokenKind::Matches)
    } else if w == seq![115u8, 116, 97, 114, 116, 115] {
        Some(TokenKind::Starts)
    } else if w == seq![101u8, 110, 100, 115] {
        Some(TokenKind::Ends)
    } else if w == seq![116u8, 114, 117, 101] {
        Some(TokenKind::TrueKw)
    } else if w == seq![102u8, 97, 108, 115, 101] {
        Some(TokenKind::FalseKw)
    } else {
        None
    }
}

/// Compare a byte slice with a literal byte sequence.
pub fn bytes_equal(a: &[u8], b: &[u8]) -> (r: bool)
    ensures
        r == (a@ == b@),
{
    if a.len() != b.len() {
        return false;
    }
    let mut i: usize = 0;
    while i < a.len()
        invariant
            0 <= i <= a.len(),
            a.len() == b.len(),
            forall|j: int| 0 <= j < i ==> a@[j] == b@[j],
        decreases a.len() - i,
    {
        if a[i] != b[i] {
            return false;
        }
        i = i + 1;
    }
    assert(a@ =~= b@);
    true
}

/// Map a keyword spelled in UTF-8 bytes to its token kind.
pub fn keyword_of_bytes(w: &[u8]) -> (r: Option<TokenKind>)
    ensures
        r == spec_keyword(w@),
{
    let k_struct: [u8; 6] = [115, 116, 114, 117, 99, 116];
    let k_enum: [u8; 4] = [101, 110, 117, 109];
    let k_exports: [u8; 7] = [101, 120, 112, 111, 114, 116, 115];
    let k_not: [u8; 3] = [110, 111, 116];
    let k_contains: [u8; 8] = [99, 111, 110, 116, 97, 105, 110, 115];
    let k_less: [u8; 4] = [108, 101, 115, 115];
    let k_more: [u8; 4] = [109, 111, 114, 101];
    let k_least: [u8; 5] = [108, 101, 97, 115, 116];
    let k_most: [u8; 4] = [109, 111, 115, 116];
    let k_equals: [u8; 6] = [101, 113, 117, 97, 108, 115];
    let k_in: [u8; 2] = [105, 110];
    let k_matches: [u8; 7] = [109, 97, 116, 99, 104, 101, 115];
    let k_starts: [u8; 6] = [115, 116, 97, 114, 116, 115];
    let k_ends: [u8; 4] = [101, 110, 100, 115];
    let k_true: [u8; 4] = [116, 114, 117, 101];
    let k_false: [u8; 5] = [102, 97, 108, 115, 101];
    assert(k_struct@ =~= seq![115u8, 116, 114, 117, 99, 116]);
    assert(k_enum@ =~= seq![101u8, 110, 117, 109]);
    assert(k_exports@ =~= seq![101u8, 120, 112, 111, 114, 116, 115]);
    assert(k_not@ =~= seq![110u8, 111, 116]);
    assert(k_contains@ =~= seq![99u8, 111, 110, 116, 97, 105, 110, 115]);
    assert(k_less@ =~= seq![108u8, 101, 115, 115]);
    assert(k_more@ =~= seq![109u8, 111, 114, 101]);
    assert(k_least@ =~= seq![108u8, 101, 97, 115, 116]);
    assert(k_most@ =~= seq![109u8, 111, 115, 116]);
    assert(k_equals@ =~= seq![101u8, 113, 117, 97, 108, 115]);
    assert(k_in@ =~= seq![105u8, 110]);
    assert(k_matches@ =~= seq![109u8, 97, 116, 99, 104, 101, 115]);
    assert(k_starts@ =~= seq![115u8, 116, 97, 114, 116, 115]);
    assert(k_ends@ =~= seq![101u8, 110, 100, 115]);
    assert(k_true@ =~= seq![116u8, 114, 117, 101]);
    assert(k_false@ =~= seq![102u8, 97, 108, 115, 101]);
    if bytes_equal(w, &k_struct) {
        Some(TokenKind::Struct)
    } else if bytes_equal(w, &k_enum) {
        Some(TokenKind::Enum)
    } else if bytes_equal(w, &k_exports) {
        Some(TokenKind::Exports)
    } else if bytes_equal(w, &k_not) {
        Some(TokenKind::Not)
    } else if bytes_equal(w, &k_contains) {
        Some(TokenKind::Contains)
    } else if bytes_equal(w, &k_less) {
        Some(TokenKind::Less)
    } else if bytes_equal(w, &k_more) {
        Some(TokenKind::More)
    } else if bytes_equal(w, &k_least) {
        Some(TokenKind::Least)
    } else if bytes_equal(w, &k_most) {
        Some(TokenKind::Most)
    } else if bytes_equal(w, &k_equals) {
        Some(TokenKind::Equals)
    } else if bytes_equal(w, &k_in) {
        Some(TokenKind::In)
    } else if bytes_equal(w, &k_matches) {
        Some(TokenKind::Matches)
    } else if bytes_equal(w, &k_starts) {
        Some(TokenKind::Starts)
    } else if bytes_equal(w, &k_ends) {
        Some(TokenKind::Ends)
    } else if bytes_equal(w, &k_true) {
        Some(TokenKind::TrueKw)
    } else if bytes_equal(w, &k_false) {
        Some(TokenKind::FalseKw)
    } else {
        None
    }
}

/// The token kind of a keyword: every word the lexer treats as a keyword,
/// and the logical words `and` and `or`.
pub open spec fn spec_keyword_token(w: Seq<u8>) -> Option<TokenKind> {
    if w == seq![97u8, 110, 100] {
        Some(TokenKind::And)
    } else if w == seq![111u8, 114] {
        Some(TokenKind::Or)
    } else {
        spec_keyword(w)
    }
}

/// Map a keyword string to its token kind, if it is one.
pub fn keyword_token(word: &str) -> (r: Option<TokenKind>)
    ensures
        r == spec_keyword_token(word.spec_bytes()),
{
    let w = word.as_bytes();
    let k_and: [u8; 3] = [97, 110, 100];
    let k_or: [u8; 2] = [111, 114];
    assert(k_and@ =~= seq![97u8, 110, 100]);
    assert(k_or@ =~= seq![111u8, 114]);
    if bytes_equal(w, &k_and) {
        Some(TokenKind::And)
    } else if bytes_equal(w, &k_or) {
        Some(TokenKind::Or)
    } else {
        keyword_of_bytes(w)
    }
}

} // verus!
