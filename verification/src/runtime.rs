use vstd::prelude::*;
use crate::hir::{BinaryOp, ConditionOp};
use crate::span::Span;
use vstd::string::StringSliceAdditionalSpecFns;

verus! {

/// The category of a runtime value, used in structured errors.
#[derive(Clone, Copy, Debug, PartialEq, Eq, Structural)]
pub enum ValueKind {
    Unit,
    Integer,
    Float,
    String,
    Bool,
    Char,
    Regex,
    Array,
    Object,
    Function,
}

/// Structured failures raised while evaluating valid HIR.
#[derive(Clone, Debug, PartialEq, Eq)]
pub enum RuntimeError {
    InvalidReference { span: Span, arena: &'static str },
    Unsupported { span: Span, feature: &'static str },
    TypeMismatch { span: Span, expected: ValueKind, found: ValueKind },
    DivisionByZero { span: Span },
    ArgumentCount { span: Span, expected: usize, found: usize },
    CyclicConstant { span: Span },
    CyclicCall { span: Span },
}

impl ValueKind {
    /// The name of the category, as it reads in messages.
    pub open spec fn spec_name(self) -> Seq<char> {
        match self {
            ValueKind::Unit => "Unit"@,
            ValueKind::Integer => "Integer"@,
            ValueKind::Float => "Float"@,
            ValueKind::String => "String"@,
            ValueKind::Bool => "Bool"@,
            ValueKind::Char => "Char"@,
            ValueKind::Regex => "Regex"@,
            ValueKind::Array => "Array"@,
            ValueKind::Object => "Object"@,
            ValueKind::Function => "Function"@,
        }
    }

    /// The name of the category, as it reads in messages.
    pub fn name(&self) -> (r: &'static str)
        ensures
            r@ == self.spec_name(),
    {
        match self {
            ValueKind::Unit => "Unit",
            ValueKind::Integer => "Integer",
            ValueKind::Float => "Float",
            ValueKind::String => "String",
            ValueKind::Bool => "Bool",
            ValueKind::Char => "Char",
            ValueKind::Regex => "Regex",
            ValueKind::Array => "Array",
            ValueKind::Object => "Object",
            ValueKind::Function => "Function",
        }
    }
}

/// The decimal digit character for `d`, which is below ten.
pub open spec fn digit_char(d: nat) -> char {
    if d == 0 {
        '0'
    } else if d == 1 {
        '1'
    } else if d == 2 {
        '2'
    } else if d == 3 {
        '3'
    } else if d == 4 {
        '4'
    } else if d == 5 {
        '5'
    } else if d == 6 {
        '6'
    } else if d == 7 {
        '7'
    } else if d == 8 {
        '8'
    } else {
        '9'
    }
}

/// The decimal spelling of `n`, without leading zeros.
pub open spec fn decimal(n: nat) -> Seq<char>
    decreases n,
{
    if n < 10 {
        seq![digit_char(n)]
    } else {
        decimal(n / 10).push(digit_char(n % 10))
    }
}

/// The one-character text of digit `d`.
fn digit_text(d: usize) -> (r: &'static str)
    requires
        d < 10,
    ensures
        r@ == seq![digit_char(d as nat)],
{
    proof {
        reveal_strlit("0");
        reveal_strlit("1");
        reveal_strlit("2");
        reveal_strlit("3");
        reveal_strlit("4");
        reveal_strlit("5");
        reveal_strlit("6");
        reveal_strlit("7");
        reveal_strlit("8");
        reveal_strlit("9");
    }
    match d {
        0 => "0",
        1 => "1",
        2 => "2",
        3 => "3",
        4 => "4",
        5 => "5",
        6 => "6",
        7 => "7",
        8 => "8",
        _ => "9",
    }
}

/// Append the decimal spelling of `n`.
fn push_decimal(out: &mut String, n: usize)
    ensures
        final(out)@ == old(out)@ + decimal(n as nat),
    decreases n,
{
    if n >= 10 {
        push_decimal(out, n / 10);
    }
    out.append(digit_text(n % 10));
    proof {
        if n >= 10 {
            assert(old(out)@ + decimal(n as nat) =~= old(out)@ + decimal((n / 10) as nat) + seq![
                digit_char((n % 10) as nat),
            ]);
        }
    }
}

impl RuntimeError {
    /// The text a user reads for this error.
    pub open spec fn spec_message(self) -> Seq<char> {
        match self {
            RuntimeError::InvalidReference { arena, .. } => "invalid "@ + arena@ + " reference"@,
            RuntimeError::Unsupported { feature, .. } => "unsupported runtime feature: "@
                + feature@,
            RuntimeError::TypeMismatch { expected, found, .. } => "expected "@
                + expected.spec_name() + ", found "@ + found.spec_name(),
            RuntimeError::DivisionByZero { .. } => "division by zero"@,
            RuntimeError::ArgumentCount { expected, found, .. } => "expected "@ + decimal(
                expected as nat,
            ) + " arguments, found "@ + decimal(found as nat),
            RuntimeError::CyclicConstant { .. } => "cyclic constant dependency"@,
            RuntimeError::CyclicCall { .. } => "cyclic function call"@,
        }
    }

    /// The text a user reads for this error.
    pub fn message(&self) -> (r: String)
        ensures
            r@ == self.spec_message(),
    {
        match self {
            RuntimeError::InvalidReference { arena, .. } => {
                let mut m = String::from_str("invalid ");
                m.append(arena);
                m.append(" reference");
                m
            },
            RuntimeError::Unsupported { feature, .. } => {
                let mut m = String::from_str("unsupported runtime feature: ");
                m.append(feature);
                m
            },
            RuntimeError::TypeMismatch { expected, found, .. } => {
                let mut m = String::from_str("expected ");
                m.append(expected.name());
                m.append(", found ");
                m.append(found.name());
                m
            },
            RuntimeError::DivisionByZero { .. } => String::from_str("division by zero"),
            RuntimeError::ArgumentCount { expected, found, .. } => {
                let mut m = String::from_str("expected ");
                push_decimal(&mut m, *expected);
                m.append(" arguments, found ");
                push_decimal(&mut m, *found);
                m
            },
            RuntimeError::CyclicConstant { .. } => String::from_str("cyclic constant dependency"),
            RuntimeError::CyclicCall { .. } => String::from_str("cyclic function call"),
        }
    }
}

/// Whether `pattern` occurs in `text` starting at byte `at`.
pub open spec fn occurs_at(text: Seq<u8>, pattern: Seq<u8>, at: int) -> bool {
    &&& 0 <= at
    &&& at + pattern.len() <= text.len()
    &&& text.subrange(at, at + pattern.len()) == pattern
}

/// What a text predicate gives on two strings, by their bytes: `contains`
/// holds where the right side occurs anywhere in the left, `starts` where it
/// occurs at the front, `ends` where it occurs at the back; the other
/// predicates are not text predicates.
pub open spec fn spec_text_condition(op: ConditionOp, left: Seq<u8>, right: Seq<u8>) -> Option<
    bool,
> {
    match op {
        ConditionOp::Contains => Some(exists|i: int| occurs_at(left, right, i)),
        ConditionOp::Starts => Some(occurs_at(left, right, 0)),
        ConditionOp::Ends => Some(occurs_at(left, right, left.len() - right.len())),
        _ => None,
    }
}

/// Whether `pattern` occurs in `text` at byte `at`.
fn occurs_here(text: &[u8], pattern: &[u8], at: usize) -> (r: bool)
    requires
        at + pattern@.len() <= text@.len(),
    ensures
        r == occurs_at(text@, pattern@, at as int),
{
    let n = text.len();
    let mut k: usize = 0;
    while k < pattern.len()
        invariant
            n == text@.len(),
            at + pattern@.len() <= text@.len(),
            k <= pattern@.len(),
            forall|j: int| 0 <= j < k ==> text@[at + j] == pattern@[j],
        decreases pattern@.len() - k,
    {
        if text[at + k] != pattern[k] {
            assert(text@.subrange(at as int, at + pattern@.len())[k as int] != pattern@[k as int]);
            return false;
        }
        k = k + 1;
    }
    assert(text@.subrange(at as int, at + pattern@.len()) =~= pattern@);
    true
}

/// The text predicates of match conditions on two strings: `contains`,
/// `starts` and `ends`; `None` for any other predicate.
pub fn text_condition(op: ConditionOp, left: &str, right: &str) -> (r: Option<bool>)
    ensures
        r == spec_text_condition(op, left.spec_bytes(), right.spec_bytes()),
{
    let text = left.as_bytes();
    let pattern = right.as_bytes();
    match op {
        ConditionOp::Starts => Some(pattern.len() <= text.len() && occurs_here(text, pattern, 0)),
        ConditionOp::Ends => Some(
            pattern.len() <= text.len() && occurs_here(text, pattern, text.len() - pattern.len()),
        ),
        ConditionOp::Contains => {
            if pattern.len() > text.len() {
                assert(forall|i: int| !occurs_at(text@, pattern@, i));
                return Some(false);
            }
            if pattern.len() == 0 {
                assert(text@.subrange(0, 0) =~= pattern@);
                assert(occurs_at(text@, pattern@, 0));
                return Some(true);
            }
            let n = text.len();
            let last = n - pattern.len();
            let mut i: usize = 0;
            while i <= last
                invariant
                    op == ConditionOp::Contains,
                    text@ == left.spec_bytes(),
                    pattern@ == right.spec_bytes(),
                    pattern@.len() > 0,
                    n == text@.len(),
                    last == text@.len() - pattern@.len(),
                    i <= last + 1,
                    forall|j: int| 0 <= j < i ==> !occurs_at(text@, pattern@, j),
                decreases last + 1 - i,
            {
                if occurs_here(text, pattern, i) {
                    assert(occurs_at(text@, pattern@, i as int));
                    return Some(true);
                }
                i = i + 1;
            }
            assert(forall|j: int| !occurs_at(text@, pattern@, j));
            Some(false)
        },
        _ => None,
    }
}

/// The arithmetic operators.
pub open spec fn arithmetic(op: BinaryOp) -> bool {
    ||| op == BinaryOp::Add
    ||| op == BinaryOp::Subtract
    ||| op == BinaryOp::Multiply
    ||| op == BinaryOp::Divide
    ||| op == BinaryOp::Remainder
}

/// Whether an operator is arithmetic.
pub fn is_arithmetic(op: BinaryOp) -> (r: bool)
    ensures
        r == arithmetic(op),
{
    matches!(
        op,
        BinaryOp::Add | BinaryOp::Subtract | BinaryOp::Multiply | BinaryOp::Divide
            | BinaryOp::Remainder
    )
}

/// Whether an operator compares its operands: every operator that is not
/// arithmetic.
pub fn is_comparison(op: BinaryOp) -> (r: bool)
    ensures
        r == !arithmetic(op),
{
    matches!(
        op,
        BinaryOp::Lt | BinaryOp::Less | BinaryOp::Gt | BinaryOp::More | BinaryOp::LtEq
            | BinaryOp::Least | BinaryOp::GtEq | BinaryOp::Most | BinaryOp::Equals
            | BinaryOp::Contains | BinaryOp::Matches | BinaryOp::Starts | BinaryOp::Ends
            | BinaryOp::In
    )
}

/// The match condition a comparison operator evaluates as.
pub open spec fn spec_binary_condition(op: BinaryOp) -> ConditionOp {
    match op {
        BinaryOp::Lt => ConditionOp::Lt,
        BinaryOp::Less => ConditionOp::Less,
        BinaryOp::Gt => ConditionOp::Gt,
        BinaryOp::More => ConditionOp::More,
        BinaryOp::LtEq => ConditionOp::LtEq,
        BinaryOp::Least => ConditionOp::Least,
        BinaryOp::GtEq => ConditionOp::GtEq,
        BinaryOp::Most => ConditionOp::Most,
        BinaryOp::Equals => ConditionOp::Equals,
        BinaryOp::Contains => ConditionOp::Contains,
        BinaryOp::Matches => ConditionOp::Matches,
        BinaryOp::Starts => ConditionOp::Starts,
        BinaryOp::Ends => ConditionOp::Ends,
        BinaryOp::In => ConditionOp::In,
        _ => ConditionOp::Equals,
    }
}

/// The match condition a comparison operator evaluates as; arithmetic
/// operators map to equality.
pub fn binary_condition(op: BinaryOp) -> (r: ConditionOp)
    ensures
        r == spec_binary_condition(op),
{
    match op {
        BinaryOp::Lt => ConditionOp::Lt,
        BinaryOp::Less => ConditionOp::Less,
        BinaryOp::Gt => ConditionOp::Gt,
        BinaryOp::More => ConditionOp::More,
        BinaryOp::LtEq => ConditionOp::LtEq,
        BinaryOp::Least => ConditionOp::Least,
        BinaryOp::GtEq => ConditionOp::GtEq,
        BinaryOp::Most => ConditionOp::Most,
        BinaryOp::Equals => ConditionOp::Equals,
        BinaryOp::Contains => ConditionOp::Contains,
        BinaryOp::Matches => ConditionOp::Matches,
        BinaryOp::Starts => ConditionOp::Starts,
        BinaryOp::Ends => ConditionOp::Ends,
        BinaryOp::In => ConditionOp::In,
        _ => ConditionOp::Equals,
    }
}

/// The absolute value of `a`.
pub open spec fn magnitude(a: int) -> int {
    if a < 0 {
        -a
    } else {
        a
    }
}

/// The quotient of `a` by `b`, rounded toward zero.
pub open spec fn quotient(a: int, b: int) -> int {
    let q = magnitude(a) / magnitude(b);
    if (a >= 0) == (b > 0) {
        q
    } else {
        -q
    }
}

/// The integer result of an arithmetic operator before the range check:
/// division rounds toward zero and the remainder takes the sign of the
/// dividend; `None` for operators that are not arithmetic.
pub open spec fn exact_arithmetic(op: BinaryOp, a: int, b: int) -> Option<int> {
    match op {
        BinaryOp::Add => Some(a + b),
        BinaryOp::Subtract => Some(a - b),
        BinaryOp::Multiply => Some(a * b),
        BinaryOp::Divide => Some(quotient(a, b)),
        BinaryOp::Remainder => Some(a - b * quotient(a, b)),
        _ => None,
    }
}

/// How the rounding-toward-zero quotient and its remainder read in each
/// sign case, in terms of the Euclidean operators on magnitudes.
pub proof fn lemma_quotient_cases(x: int, d: int)
    requires
        d != 0,
    ensures
        x == 0 ==> quotient(x, d) == 0 && x - d * quotient(x, d) == 0,
        x > 0 && d > 0 ==> quotient(x, d) == x / d && x - d * quotient(x, d) == x % d,
        x < 0 && d < 0 ==> quotient(x, d) == (x * -1) / (d * -1) && x - d * quotient(x, d) == ((x
            * -1) % (d * -1)) * -1,
        x < 0 && d > 0 ==> quotient(x, d) == ((x * -1) / d) * -1 && x - d * quotient(x, d) == ((x
            * -1) % d) * -1,
        x > 0 && d < 0 ==> quotient(x, d) == (x / (d * -1)) * -1 && x - d * quotient(x, d) == x % (d
            * -1),
{
    if x > 0 && d > 0 {
        vstd::arithmetic::div_mod::lemma_fundamental_div_mod(x, d);
    } else if x < 0 && d < 0 {
        vstd::arithmetic::div_mod::lemma_fundamental_div_mod(-x, -d);
        let q = (-x) / (-d);
        assert(d * q == -((-d) * q)) by (nonlinear_arith);
    } else if x < 0 && d > 0 {
        vstd::arithmetic::div_mod::lemma_fundamental_div_mod(-x, d);
        let q = (-x) / d;
        assert(d * (-q) == -(d * q)) by (nonlinear_arith);
    } else if x > 0 && d < 0 {
        vstd::arithmetic::div_mod::lemma_fundamental_div_mod(x, -d);
        let q = x / (-d);
        assert(d * (-q) == (-d) * q) by (nonlinear_arith);
    } else if x == 0 {
        assert(0int / magnitude(d) == 0) by (nonlinear_arith)
            requires
                magnitude(d) > 0,
        ;
    }
}

/// Integer arithmetic that never wraps: division or remainder by zero is a
/// `DivisionByZero` error; a result outside `i128`, the remainder of
/// `i128::MIN` by `-1` (which overflows while it is computed), or an
/// operator that is not arithmetic is reported as unsupported integer
/// overflow.
pub fn integer_arithmetic(op: BinaryOp, left: i128, right: i128, span: Span) -> (r: Result<
    i128,
    RuntimeError,
>)
    ensures
        (op == BinaryOp::Divide || op == BinaryOp::Remainder) && right == 0 ==> r == Err::<
            i128,
            RuntimeError,
        >(RuntimeError::DivisionByZero { span }),
        !((op == BinaryOp::Divide || op == BinaryOp::Remainder) && right == 0) ==> match r {
            Ok(v) => exact_arithmetic(op, left as int, right as int) == Some(v as int),
            Err(e) => e == (RuntimeError::Unsupported { span, feature: "integer overflow" })
                && match exact_arithmetic(op, left as int, right as int) {
                Some(v) => v < i128::MIN || v > i128::MAX || (op == BinaryOp::Remainder && left
                    == i128::MIN && right == -1),
                None => true,
            },
        },
{
    let result = match op {
        BinaryOp::Add => left.checked_add(right),
        BinaryOp::Subtract => left.checked_sub(right),
        BinaryOp::Multiply => left.checked_mul(right),
        BinaryOp::Divide => {
            if right == 0 {
                return Err(RuntimeError::DivisionByZero { span });
            }
            proof {
                lemma_quotient_cases(left as int, right as int);
            }
            left.checked_div(right)
        },
        BinaryOp::Remainder => {
            if right == 0 {
                return Err(RuntimeError::DivisionByZero { span });
            }
            proof {
                lemma_quotient_cases(left as int, right as int);
            }
            left.checked_rem(right)
        },
        _ => None,
    };
    match result {
        Some(value) => Ok(value),
        None => Err(RuntimeError::Unsupported { span, feature: "integer overflow" }),
    }
}

} // verus!
