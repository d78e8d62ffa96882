use rs_lisp::error::{ErrorKind, EvalError};
use rs_lisp::run;

#[test]
fn literal_round_trip_small() {
    assert_eq!(run("0").unwrap(), "0");
    assert_eq!(run("7").unwrap(), "7");
}

#[test]
fn literal_round_trip_multi_digit() {
    assert_eq!(run("12").unwrap(), "12");
    assert_eq!(run("105").unwrap(), "105");
    assert_eq!(run("4294967295").unwrap(), "4294967295");
}

#[test]
fn literal_with_leading_zeros_normalizes() {
    assert_eq!(run("007").unwrap(), "7");
}

#[test]
fn grouping_is_value_transparent() {
    assert_eq!(run("(5)").unwrap(), "5");
    assert_eq!(run("(12)").unwrap(), "12");
}

#[test]
fn addition_single_run() {
    assert_eq!(run("+ 2 3").unwrap(), "5");
}

#[test]
fn addition_folds_over_all_numbers() {
    assert_eq!(run("+ 2 3 4").unwrap(), "9");
    assert_eq!(run("+ 1 2 3 4").unwrap(), "10");
}

#[test]
fn addition_identity_is_zero() {
    assert_eq!(run("+ 0 5").unwrap(), "5");
}

#[test]
fn subtraction_is_left_fold() {
    assert_eq!(run("- 10 3").unwrap(), "7");
    assert_eq!(run("- 10 3 2").unwrap(), "5");
}

#[test]
fn subtraction_underflows_below_zero() {
    assert_eq!(run("- 3 10").unwrap_err(), EvalError::SubUnderflow);
}

#[test]
fn lexical_error_is_reported_not_skipped() {
    assert_eq!(run("a").unwrap_err(), EvalError::UnexpectedChar { at: 0, ch: 'a' });
    assert_eq!(run("5x").unwrap_err(), EvalError::UnexpectedChar { at: 1, ch: 'x' });
    assert_eq!(run("+ 2\t3").unwrap_err(), EvalError::UnexpectedChar { at: 3, ch: '\t' });
}

#[test]
fn operator_without_space_is_syntax_error() {
    assert_eq!(run("+2").unwrap_err(), EvalError::ExpectSpaceAfterOperator { at: 1 });
    assert_eq!(run("-7").unwrap_err(), EvalError::ExpectSpaceAfterOperator { at: 1 });
}

#[test]
fn addition_commutes_when_no_overflow() {
    assert_eq!(run("+ 2 3").unwrap(), run("+ 3 2").unwrap());
    assert_eq!(run("+ 2 3 4").unwrap(), run("+ 4 3 2").unwrap());
}

#[test]
fn unmatched_left_paren_is_syntax_error() {
    assert_eq!(run("(5").unwrap_err(), EvalError::ExpectRightParen { at: 2 });
}

#[test]
fn empty_input_expects_expression() {
    assert_eq!(run("").unwrap_err(), EvalError::ExpectExpression { at: 0 });
    assert_eq!(run(")").unwrap_err(), EvalError::ExpectExpression { at: 0 });
}

#[test]
fn number_too_large_for_32_bits() {
    assert_eq!(run("4294967296").unwrap_err(), EvalError::NumberTooLarge);
    assert_eq!(run("999999999999999999").unwrap_err(), EvalError::NumberTooLarge);
}

#[test]
fn addition_overflow_is_reported() {
    assert_eq!(run("+ 4294967295 1").unwrap_err(), EvalError::AddOverflow);
}

#[test]
fn addition_near_limit_still_works() {
    assert_eq!(run("+ 4294967294 1").unwrap(), "4294967295");
}

#[test]
fn operator_with_one_run_leaves_empty_segment() {
    // the parser always appends a synthetic separator after the first run,
    // so a single-run operand list re-splits into an empty last segment
    assert_eq!(run("+ 2").unwrap_err(), EvalError::InvalidNumber);
}

#[test]
fn nested_expressions_evaluate() {
    assert_eq!(run("(+ 2 3)").unwrap(), "5");
    assert_eq!(run("+ 1 (+ 2 3)").unwrap(), "6");
    assert_eq!(run("- 10 (+ 1 2)").unwrap(), "7");
    assert_eq!(run("+ 1 ((4))").unwrap(), "5");
}

#[test]
fn error_kinds_classify_the_variants() {
    assert_eq!(EvalError::UnexpectedChar { at: 0, ch: 'a' }.kind(), ErrorKind::Lexical);
    assert_eq!(EvalError::ExpectExpression { at: 0 }.kind(), ErrorKind::Syntax);
    assert_eq!(EvalError::ExpectSpaceAfterOperator { at: 1 }.kind(), ErrorKind::Syntax);
    assert_eq!(EvalError::ExpectRightParen { at: 2 }.kind(), ErrorKind::Syntax);
    assert_eq!(EvalError::InvalidNumber.kind(), ErrorKind::Numeric);
    assert_eq!(EvalError::NumberTooLarge.kind(), ErrorKind::Numeric);
    assert_eq!(EvalError::AddOverflow.kind(), ErrorKind::Numeric);
    assert_eq!(EvalError::SubUnderflow.kind(), ErrorKind::Numeric);
    assert_eq!(EvalError::UnknownOperation.kind(), ErrorKind::Evaluation);
}

#[test]
fn error_messages_match_the_fixed_texts() {
    assert_eq!(EvalError::ExpectExpression { at: 0 }.message(), "Expect expression.");
    assert_eq!(
        EvalError::ExpectSpaceAfterOperator { at: 1 }.message(),
        "Expect space after operator."
    );
    assert_eq!(EvalError::ExpectRightParen { at: 2 }.message(), "Expect ')' after expression.");
    assert_eq!(EvalError::UnknownOperation.message(), "Unknown operation.");
}
