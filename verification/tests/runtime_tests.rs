use fer::hir::{BinaryOp, ConditionOp};
use fer::runtime::{
    binary_condition, integer_arithmetic, is_arithmetic, is_comparison, text_condition, RuntimeError,
    ValueKind,
};
use fer::span::Span;

fn span() -> Span {
    Span::new(3, 4)
}

#[test]
fn integer_arithmetic_computes_exact_results() {
    assert_eq!(integer_arithmetic(BinaryOp::Add, 40, 2, span()), Ok(42));
    assert_eq!(integer_arithmetic(BinaryOp::Subtract, 40, 50, span()), Ok(-10));
    assert_eq!(integer_arithmetic(BinaryOp::Multiply, -6, 7, span()), Ok(-42));
    assert_eq!(integer_arithmetic(BinaryOp::Divide, -7, 2, span()), Ok(-3));
    assert_eq!(integer_arithmetic(BinaryOp::Remainder, -7, 2, span()), Ok(-1));
    assert_eq!(integer_arithmetic(BinaryOp::Remainder, 7, -2, span()), Ok(1));
}

#[test]
fn integer_division_by_zero_is_an_error() {
    assert_eq!(
        integer_arithmetic(BinaryOp::Divide, 1, 0, span()),
        Err(RuntimeError::DivisionByZero { span: span() })
    );
    assert_eq!(
        integer_arithmetic(BinaryOp::Remainder, 1, 0, span()),
        Err(RuntimeError::DivisionByZero { span: span() })
    );
}

#[test]
fn overflow_is_reported_not_wrapped() {
    let overflow = Err(RuntimeError::Unsupported {
        span: span(),
        feature: "integer overflow",
    });
    assert_eq!(integer_arithmetic(BinaryOp::Add, i128::MAX, 1, span()), overflow);
    assert_eq!(integer_arithmetic(BinaryOp::Divide, i128::MIN, -1, span()), overflow);
    assert_eq!(integer_arithmetic(BinaryOp::Remainder, i128::MIN, -1, span()), overflow);
    assert_eq!(integer_arithmetic(BinaryOp::Less, 1, 2, span()), overflow);
}

#[test]
fn operators_are_either_arithmetic_or_comparisons() {
    for op in [
        BinaryOp::Add,
        BinaryOp::Subtract,
        BinaryOp::Multiply,
        BinaryOp::Divide,
        BinaryOp::Remainder,
    ] {
        assert!(is_arithmetic(op));
        assert!(!is_comparison(op));
        assert_eq!(binary_condition(op), ConditionOp::Equals);
    }
    assert!(is_comparison(BinaryOp::Contains));
    assert_eq!(binary_condition(BinaryOp::Least), ConditionOp::Least);
    assert_eq!(binary_condition(BinaryOp::GtEq), ConditionOp::GtEq);
}

#[test]
fn text_predicates_compare_bytes() {
    assert_eq!(text_condition(ConditionOp::Contains, "hello world", "o w"), Some(true));
    assert_eq!(text_condition(ConditionOp::Contains, "hello", "world"), Some(false));
    assert_eq!(text_condition(ConditionOp::Contains, "hi", "high"), Some(false));
    assert_eq!(text_condition(ConditionOp::Contains, "", ""), Some(true));
    assert_eq!(text_condition(ConditionOp::Starts, "forward", "for"), Some(true));
    assert_eq!(text_condition(ConditionOp::Starts, "forward", "ward"), Some(false));
    assert_eq!(text_condition(ConditionOp::Ends, "forward", "ward"), Some(true));
    assert_eq!(text_condition(ConditionOp::Ends, "ward", "forward"), Some(false));
    assert_eq!(text_condition(ConditionOp::Ends, "héllo", "llo"), Some(true));
    assert_eq!(text_condition(ConditionOp::Equals, "a", "a"), None);
    assert_eq!(text_condition(ConditionOp::Less, "a", "b"), None);
}

#[test]
fn runtime_errors_read_as_messages() {
    assert_eq!(
        RuntimeError::InvalidReference { span: span(), arena: "body" }.message(),
        "invalid body reference"
    );
    assert_eq!(
        RuntimeError::Unsupported { span: span(), feature: "match predicate" }.message(),
        "unsupported runtime feature: match predicate"
    );
    assert_eq!(
        RuntimeError::TypeMismatch {
            span: span(),
            expected: ValueKind::Integer,
            found: ValueKind::String,
        }
        .message(),
        "expected Integer, found String"
    );
    assert_eq!(RuntimeError::DivisionByZero { span: span() }.message(), "division by zero");
    assert_eq!(
        RuntimeError::ArgumentCount { span: span(), expected: 2, found: 105 }.message(),
        "expected 2 arguments, found 105"
    );
    assert_eq!(
        RuntimeError::ArgumentCount { span: span(), expected: 0, found: 10 }.message(),
        "expected 0 arguments, found 10"
    );
    assert_eq!(
        RuntimeError::CyclicConstant { span: span() }.message(),
        "cyclic constant dependency"
    );
    assert_eq!(RuntimeError::CyclicCall { span: span() }.message(), "cyclic function call");
    assert_eq!(ValueKind::Function.name(), "Function");
}
