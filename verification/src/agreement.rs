use vstd::prelude::*;
use crate::grammar::{spec_keyword, spec_prec_of, Assoc, TokenKind};
use crate::hir::BinaryOp;
use crate::lex::single_byte_kind;
use crate::lowering::{spec_binary_op, spec_condition_op};
use crate::parse::spec_kind_name;
use crate::runtime::spec_binary_condition;

verus! {

// Laws that tie the tables of the lexer, the parser, the lowering and the
// runtime to what their entries mean.

/// The lower-case form of an ASCII letter, as a code; other characters
/// keep their code.
pub open spec fn ascii_lower(c: char) -> int {
    if 'A' <= c && c <= 'Z' {
        c as int + 32
    } else {
        c as int
    }
}

/// The bytes `w` spell the diagnostic name `name` in lower case, where a
/// trailing `Kw` of the name (the literal keywords) is not spelled.
pub open spec fn spells_name(w: Seq<u8>, name: Seq<char>) -> bool {
    &&& w.len() <= name.len()
    &&& forall|i: int| 0 <= i < w.len() ==> #[trigger] w[i] as int == ascii_lower(name[i])
    &&& (name.len() == w.len() || name.subrange(w.len() as int, name.len() as int) == "Kw"@)
}

/// Law: every keyword lexes to the token kind named after it: the kind's
/// name, read in lower case, is the keyword (`less` is `Less`, `true` is
/// `TrueKw`).
pub proof fn keywords_lex_to_their_namesakes(w: Seq<u8>)
    ensures
        spec_keyword(w) matches Some(k) ==> spells_name(w, spec_kind_name(k)),
{
    reveal_strlit("Kw");
    if w == seq![115u8, 116, 114, 117, 99, 116] {
        reveal_strlit("Struct");
        let name = "Struct"@;
        assert forall|i: int| 0 <= i < w.len() implies #[trigger] w[i] as int == ascii_lower(
            name[i],
        ) by {
            if i == 0 {
                assert(name[0] == 'S');
            } else if i == 1 {
                assert(name[1] == 't');
            } else if i == 2 {
                assert(name[2] == 'r');
            } else if i == 3 {
                assert(name[3] == 'u');
            } else if i == 4 {
                assert(name[4] == 'c');
            } else if i == 5 {
                assert(name[5] == 't');
            }
        }
    } else if w == seq![101u8, 110, 117, 109] {
        reveal_strlit("Enum");
        let name = "Enum"@;
        assert forall|i: int| 0 <= i < w.len() implies #[trigger] w[i] as int == ascii_lower(
            name[i],
        ) by {
            if i == 0 {
                assert(name[0] == 'E');
            } else if i == 1 {
                assert(name[1] == 'n');
            } else if i == 2 {
                assert(name[2] == 'u');
            } else if i == 3 {
                assert(name[3] == 'm');
            }
        }
    } else if w == seq![101u8, 120, 112, 111, 114, 116, 115] {
        reveal_strlit("Exports");
        let name = "Exports"@;
        assert forall|i: int| 0 <= i < w.len() implies #[trigger] w[i] as int == ascii_lower(
            name[i],
        ) by {
            if i == 0 {
                assert(name[0] == 'E');
            } else if i == 1 {
                assert(name[1] == 'x');
            } else if i == 2 {
                assert(name[2] == 'p');
            } else if i == 3 {
                assert(name[3] == 'o');
            } else if i == 4 {
                assert(name[4] == 'r');
            } else if i == 5 {
                assert(name[5] == 't');
            } else if i == 6 {
                assert(name[6] == 's');
            }
        }
    } else if w == seq![110u8, 111, 116] {
        reveal_strlit("Not");
        let name = "Not"@;
        assert forall|i: int| 0 <= i < w.len() implies #[trigger] w[i] as int == ascii_lower(
            name[i],
        ) by {
            if i == 0 {
                assert(name[0] == 'N');
            } else if i == 1 {
                assert(name[1] == 'o');
            } else if i == 2 {
                assert(name[2] == 't');
            }
        }
    } else if w == seq![99u8, 111, 110, 116, 97, 105, 110, 115] {
        reveal_strlit("Contains");
        let name = "Contains"@;
        assert forall|i: int| 0 <= i < w.len() implies #[trigger] w[i] as int == ascii_lower(
            name[i],
        ) by {
            if i == 0 {
                assert(name[0] == 'C');
            } else if i == 1 {
                assert(name[1] == 'o');
            } else if i == 2 {
                assert(name[2] == 'n');
            } else if i == 3 {
                assert(name[3] == 't');
            } else if i == 4 {
                assert(name[4] == 'a');
            } else if i == 5 {
                assert(name[5] == 'i');
            } else if i == 6 {
                assert(name[6] == 'n');
            } else if i == 7 {
                assert(name[7] == 's');
            }
        }
    } else if w == seq![108u8, 101, 115, 115] {
        reveal_strlit("Less");
        let name = "Less"@;
        assert forall|i: int| 0 <= i < w.len() implies #[trigger] w[i] as int == ascii_lower(
            name[i],
        ) by {
            if i == 0 {
                assert(name[0] == 'L');
            } else if i == 1 {
                assert(name[1] == 'e');
            } else if i == 2 {
                assert(name[2] == 's');
            } else if i == 3 {
                assert(name[3] == 's');
            }
        }
    } else if w == seq![109u8, 111, 114, 101] {
        reveal_strlit("More");
        let name = "More"@;
        assert forall|i: int| 0 <= i < w.len() implies #[trigger] w[i] as int == ascii_lower(
            name[i],
        ) by {
            if i == 0 {
                assert(name[0] == 'M');
            } else if i == 1 {
                assert(name[1] == 'o');
            } else if i == 2 {
                assert(name[2] == 'r');
            } else if i == 3 {
                assert(name[3] == 'e');
            }
        }
    } else if w == seq![108u8, 101, 97, 115, 116] {
        reveal_strlit("Least");
        let name = "Least"@;
        assert forall|i: int| 0 <= i < w.len() implies #[trigger] w[i] as int == ascii_lower(
            name[i],
        ) by {
            if i == 0 {
                assert(name[0] == 'L');
            } else if i == 1 {
                assert(name[1] == 'e');
            } else if i == 2 {
                assert(name[2] == 'a');
            } else if i == 3 {
                assert(name[3] == 's');
            } else if i == 4 {
                assert(name[4] == 't');
            }
        }
    } else if w == seq![109u8, 111, 115, 116] {
        reveal_strlit("Most");
        let name = "Most"@;
        assert forall|i: int| 0 <= i < w.len() implies #[trigger] w[i] as int == ascii_lower(
            name[i],
        ) by {
            if i == 0 {
                assert(name[0] == 'M');
            } else if i == 1 {
                assert(name[1] == 'o');
            } else if i == 2 {
                assert(name[2] == 's');
            } else if i == 3 {
                assert(name[3] == 't');
            }
        }
    } else if w == seq![101u8, 113, 117, 97, 108, 115] {
        reveal_strlit("Equals");
        let name = "Equals"@;
        assert forall|i: int| 0 <= i < w.len() implies #[trigger] w[i] as int == ascii_lower(
            name[i],
        ) by {
            if i == 0 {
                assert(name[0] == 'E');
            } else if i == 1 {
                assert(name[1] == 'q');
            } else if i == 2 {
                assert(name[2] == 'u');
            } else if i == 3 {
                assert(name[3] == 'a');
            } else if i == 4 {
                assert(name[4] == 'l');
            } else if i == 5 {
                assert(name[5] == 's');
            }
        }
    } else if w == seq![105u8, 110] {
        reveal_strlit("In");
        let name = "In"@;
        assert forall|i: int| 0 <= i < w.len() implies #[trigger] w[i] as int == ascii_lower(
            name[i],
        ) by {
            if i == 0 {
                assert(name[0] == 'I');
            } else if i == 1 {
                assert(name[1] == 'n');
            }
        }
    } else if w == seq![109u8, 97, 116, 99, 104, 101, 115] {
        reveal_strlit("Matches");
        let name = "Matches"@;
        assert forall|i: int| 0 <= i < w.len() implies #[trigger] w[i] as int == ascii_lower(
            name[i],
        ) by {
            if i == 0 {
                assert(name[0] == 'M');
            } else if i == 1 {
                assert(name[1] == 'a');
            } else if i == 2 {
                assert(name[2] == 't');
            } else if i == 3 {
                assert(name[3] == 'c');
            } else if i == 4 {
                assert(name[4] == 'h');
            } else if i == 5 {
                assert(name[5] == 'e');
            } else if i == 6 {
                assert(name[6] == 's');
            }
        }
    } else if w == seq![115u8, 116, 97, 114, 116, 115] {
        reveal_strlit("Starts");
        let name = "Starts"@;
        assert forall|i: int| 0 <= i < w.len() implies #[trigger] w[i] as int == ascii_lower(
            name[i],
        ) by {
            if i == 0 {
                assert(name[0] == 'S');
            } else if i == 1 {
                assert(name[1] == 't');
            } else if i == 2 {
                assert(name[2] == 'a');
            } else if i == 3 {
                assert(name[3] == 'r');
            } else if i == 4 {
                assert(name[4] == 't');
            } else if i == 5 {
                assert(name[5] == 's');
            }
        }
    } else if w == seq![101u8, 110, 100, 115] {
        reveal_strlit("Ends");
        let name = "Ends"@;
        assert forall|i: int| 0 <= i < w.len() implies #[trigger] w[i] as int == ascii_lower(
            name[i],
        ) by {
            if i == 0 {
                assert(name[0] == 'E');
            } else if i == 1 {
                assert(name[1] == 'n');
            } else if i == 2 {
                assert(name[2] == 'd');
            } else if i == 3 {
                assert(name[3] == 's');
            }
        }
    } else if w == seq![116u8, 114, 117, 101] {
        reveal_strlit("TrueKw");
        let name = "TrueKw"@;
        assert forall|i: int| 0 <= i < w.len() implies #[trigger] w[i] as int == ascii_lower(
            name[i],
        ) by {
            if i == 0 {
                assert(name[0] == 'T');
            } else if i == 1 {
                assert(name[1] == 'r');
            } else if i == 2 {
                assert(name[2] == 'u');
            } else if i == 3 {
                assert(name[3] == 'e');
            }
        }
        assert(name.subrange(4, 6) =~= "Kw"@);
    } else if w == seq![102u8, 97, 108, 115, 101] {
        reveal_strlit("FalseKw");
        let name = "FalseKw"@;
        assert forall|i: int| 0 <= i < w.len() implies #[trigger] w[i] as int == ascii_lower(
            name[i],
        ) by {
            if i == 0 {
                assert(name[0] == 'F');
            } else if i == 1 {
                assert(name[1] == 'a');
            } else if i == 2 {
                assert(name[2] == 'l');
            } else if i == 3 {
                assert(name[3] == 's');
            } else if i == 4 {
                assert(name[4] == 'e');
            }
        }
        assert(name.subrange(5, 7) =~= "Kw"@);
    }
}

/// Law: every binary operator is left associative, so `a - b - c` groups
/// as `(a - b) - c` and `a - b + c` as `(a - b) + c`.
pub proof fn binary_operators_associate_left(k: TokenKind)
    ensures
        spec_prec_of(k) matches Some((_, assoc)) ==> assoc == Assoc::Left,
{
}

/// Law: an operator written between two operands evaluates as the match
/// condition written the same way: for every spelling `w` that is both a
/// binary operator and a condition (`<`, `less`, `most`, `contains`, ...),
/// the operator's condition is the spelling's condition.
pub proof fn operators_evaluate_as_their_spelling(w: Seq<u8>)
    ensures
        spec_binary_op(w) is Some && spec_condition_op(w) is Some ==> spec_binary_condition(
            spec_binary_op(w)->0,
        ) == spec_condition_op(w)->0,
{
    if w == seq![60u8] {
    } else if w == seq![108u8, 101, 115, 115] {
    } else if w == seq![62u8] {
    } else if w == seq![109u8, 111, 114, 101] {
    } else if w == seq![60u8, 61] {
    } else if w == seq![108u8, 101, 97, 115, 116] {
    } else if w == seq![62u8, 61] {
    } else if w == seq![109u8, 111, 115, 116] {
    } else if w == seq![101u8, 113, 117, 97, 108, 115] {
    } else if w == seq![99u8, 111, 110, 116, 97, 105, 110, 115] {
    } else if w == seq![109u8, 97, 116, 99, 104, 101, 115] {
    } else if w == seq![115u8, 116, 97, 114, 116, 115] {
    } else if w == seq![101u8, 110, 100, 115] {
    } else if w == seq![105u8, 110] {
    } else {
        assert(spec_condition_op(w) is None);
    }
}


/// The binary operator a token of kind `k` stands for, by name.
pub open spec fn token_operator(k: TokenKind) -> Option<BinaryOp> {
    match k {
        TokenKind::Lt => Some(BinaryOp::Lt),
        TokenKind::Less => Some(BinaryOp::Less),
        TokenKind::Gt => Some(BinaryOp::Gt),
        TokenKind::More => Some(BinaryOp::More),
        TokenKind::LtEq => Some(BinaryOp::LtEq),
        TokenKind::Least => Some(BinaryOp::Least),
        TokenKind::GtEq => Some(BinaryOp::GtEq),
        TokenKind::Most => Some(BinaryOp::Most),
        TokenKind::Equals => Some(BinaryOp::Equals),
        TokenKind::Contains => Some(BinaryOp::Contains),
        TokenKind::Matches => Some(BinaryOp::Matches),
        TokenKind::Starts => Some(BinaryOp::Starts),
        TokenKind::Ends => Some(BinaryOp::Ends),
        TokenKind::In => Some(BinaryOp::In),
        TokenKind::Plus => Some(BinaryOp::Add),
        TokenKind::Minus => Some(BinaryOp::Subtract),
        TokenKind::Star => Some(BinaryOp::Multiply),
        TokenKind::Slash => Some(BinaryOp::Divide),
        TokenKind::Percent => Some(BinaryOp::Remainder),
        _ => None,
    }
}

/// Law: the lowering reads an operator word as the operator of the token
/// the lexer makes of that word: `less` lexes to `Less` and lowers to
/// `BinaryOp::Less`, and so for every operator keyword.
pub proof fn operator_words_lower_as_they_lex(w: Seq<u8>)
    ensures
        spec_keyword(w) is Some && token_operator(spec_keyword(w)->0) is Some ==> spec_binary_op(w)
            == token_operator(spec_keyword(w)->0),
{
    if w == seq![115u8, 116, 114, 117, 99, 116] {
    } else if w == seq![101u8, 110, 117, 109] {
    } else if w == seq![101u8, 120, 112, 111, 114, 116, 115] {
    } else if w == seq![110u8, 111, 116] {
    } else if w == seq![99u8, 111, 110, 116, 97, 105, 110, 115] {
    } else if w == seq![108u8, 101, 115, 115] {
    } else if w == seq![109u8, 111, 114, 101] {
    } else if w == seq![108u8, 101, 97, 115, 116] {
    } else if w == seq![109u8, 111, 115, 116] {
    } else if w == seq![101u8, 113, 117, 97, 108, 115] {
    } else if w == seq![105u8, 110] {
    } else if w == seq![109u8, 97, 116, 99, 104, 101, 115] {
    } else if w == seq![115u8, 116, 97, 114, 116, 115] {
    } else if w == seq![101u8, 110, 100, 115] {
    }
}


/// Law: a one-byte operator lowers as the operator of the token the lexer
/// makes of that byte: `+` lexes to `Plus` and lowers to `BinaryOp::Add`.
pub proof fn operator_bytes_lower_as_they_lex(b: u8)
    ensures
        single_byte_kind(b) is Some && token_operator(single_byte_kind(b)->0) is Some
            ==> spec_binary_op(seq![b]) == token_operator(single_byte_kind(b)->0),
{
    if b == 43 {
        assert(seq![b] == seq![43u8]);
        assert(seq![43u8][0] != seq![60u8][0]);
        assert(seq![43u8][0] != seq![62u8][0]);
    } else if b == 42 {
        assert(seq![b] == seq![42u8]);
        assert(seq![42u8][0] != seq![60u8][0]);
        assert(seq![42u8][0] != seq![62u8][0]);
        assert(seq![42u8][0] != seq![43u8][0]);
        assert(seq![42u8][0] != seq![45u8][0]);
    } else if b == 37 {
        assert(seq![b] == seq![37u8]);
        assert(seq![37u8][0] != seq![60u8][0]);
        assert(seq![37u8][0] != seq![62u8][0]);
        assert(seq![37u8][0] != seq![43u8][0]);
        assert(seq![37u8][0] != seq![45u8][0]);
        assert(seq![37u8][0] != seq![42u8][0]);
        assert(seq![37u8][0] != seq![47u8][0]);
    }
}

} // verus!
