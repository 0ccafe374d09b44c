//! End-to-end tests of the prefix-expression parser through its public
//! entry point.

use prefix_parser::parser::Parser;

fn run(text: &str) -> i64 {
    Parser.execute(&String::from(text))
}

#[test]
fn literal() {
    assert_eq!(run("5"), 5);
}

#[test]
fn literal_multi_digit() {
    assert_eq!(run("12345"), 12345);
}

#[test]
fn literal_leading_zeros() {
    assert_eq!(run("007"), 7);
}

#[test]
fn addition() {
    assert_eq!(run("+ 2 3"), 5);
}

#[test]
fn subtraction() {
    assert_eq!(run("- 10 4"), 6);
}

#[test]
fn multiplication_with_group() {
    assert_eq!(run("* 3 (+ 2 2)"), 12);
}

#[test]
fn division_truncates() {
    assert_eq!(run("/ 7 2"), 3);
}

#[test]
fn division_truncates_toward_zero() {
    // -7 / 2 is -3 under truncation (flooring would give -4)
    assert_eq!(run("/ - 0 7 2"), -3);
}

#[test]
fn negative_result() {
    assert_eq!(run("- 1 2"), -1);
}

#[test]
fn parenthesized_equals_bare() {
    assert_eq!(run("+ 1 2"), run("(+ 1 2)"));
    assert_eq!(run("(+ 1 2)"), 3);
}

#[test]
fn nested_parentheses() {
    assert_eq!(run("((7))"), 7);
}

#[test]
fn whitespace_insensitive() {
    assert_eq!(run("+ 1 2"), run("  +   1    2  "));
    assert_eq!(run("\t+\n1\r\n2"), 3);
}

#[test]
fn unicode_whitespace() {
    assert_eq!(run("+\u{3000}1\u{2028}2"), 3);
    assert_eq!(run("\u{00A0}\u{2003}42"), 42);
}

#[test]
fn operands_without_spaces() {
    // the digit run after the operator is maximal: "+12 3" is 12 + 3
    assert_eq!(run("+12 3"), 15);
}

#[test]
fn nested_depth_first() {
    // (1 + 2) * (5 - 3)
    assert_eq!(run("* + 1 2 - 5 3"), 6);
}

#[test]
fn empty_input_yields_zero() {
    assert_eq!(run(""), 0);
}

#[test]
fn truncated_expression_yields_zero() {
    assert_eq!(run("+"), 0);
    assert_eq!(run("+ 1"), 0);
    assert_eq!(run("+123"), 0);
}

#[test]
fn unknown_operator_yields_zero() {
    assert_eq!(run("% 1 2"), 0);
}

#[test]
fn unmatched_parenthesis_yields_zero() {
    assert_eq!(run("(+ 1 2"), 0);
}

#[test]
fn wrong_closing_character_yields_zero() {
    assert_eq!(run("(1]"), 0);
}

#[test]
fn empty_group_yields_zero() {
    assert_eq!(run("()"), 0);
}

#[test]
fn division_by_zero_yields_zero() {
    assert_eq!(run("/ 1 0"), 0);
}

#[test]
fn zero_dividend_is_conflated_with_errors() {
    // a valid expression of value 0 and a malformed one are indistinguishable
    assert_eq!(run("/ 0 5"), 0);
    assert_eq!(run("- 3 3"), 0);
}

#[test]
fn trailing_input_is_ignored() {
    assert_eq!(run("5 6"), 5);
    assert_eq!(run("+ 1 2 )))"), 3);
}

#[test]
fn addition_wraps_on_overflow() {
    assert_eq!(run("+ 9223372036854775807 1"), i64::MIN);
}

#[test]
fn subtraction_wraps_on_overflow() {
    assert_eq!(run("- - 0 9223372036854775808 1"), i64::MAX);
}

#[test]
fn multiplication_wraps_on_overflow() {
    assert_eq!(run("* 4611686018427387904 2"), i64::MIN);
}

#[test]
fn literal_wraps_on_overflow() {
    assert_eq!(run("9223372036854775808"), i64::MIN);
}

#[test]
fn division_min_by_minus_one_wraps() {
    // the dividend literal wraps to i64::MIN; the quotient wraps back to it
    assert_eq!(run("/ 9223372036854775808 - 0 1"), i64::MIN);
}

#[test]
fn repeated_calls_agree() {
    let program = String::from("* + 1 2 - 5 3");
    let first = Parser.execute(&program);
    let second = Parser.execute(&program);
    assert_eq!(first, second);
    assert_eq!(first, 6);
}
