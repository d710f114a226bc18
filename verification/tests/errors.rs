//! Texts that are no formula, and what is said of them.

use formula::error::numeral_text;
use formula::{parse_expr, Expected, ParseError};

fn trailing(remainder: &str) -> ParseError {
    ParseError::TrailingInput { remainder: String::from(remainder) }
}

fn syntax(position: usize, expected: Expected, remainder: &str) -> ParseError {
    ParseError::Syntax { position, expected, remainder: String::from(remainder) }
}

#[test]
fn input_behind_a_formula_is_reported_as_it_stands() {
    assert_eq!(parse_expr("00.1"), Err(trailing("0.1")));
    assert_eq!(parse_expr("0.1.2.3"), Err(trailing(".2.3")));
    assert_eq!(parse_expr("0 .1"), Err(trailing(".1")));
    assert_eq!(parse_expr("1 2"), Err(trailing("2")));
    assert_eq!(parse_expr("1)"), Err(trailing(")")));
    assert_eq!(parse_expr("2(3)"), Err(trailing("(3)")));
    assert_eq!(parse_expr("1 + 2   x y "), Err(trailing("x y ")));
    assert_eq!(parse_expr("(1)(2)"), Err(trailing("(2)")));
    assert_eq!(parse_expr("1e5"), Err(trailing("e5")));
    assert_eq!(parse_expr("1,5"), Err(trailing(",5")));
    assert_eq!(parse_expr("3 \u{e9}t\u{e9}"), Err(trailing("\u{e9}t\u{e9}")));
}

#[test]
fn a_decimal_point_without_a_digit_is_left_unread() {
    assert_eq!(parse_expr("1."), Err(trailing(".")));
    assert_eq!(parse_expr("1. 5"), Err(trailing(". 5")));
    assert_eq!(parse_expr("0.x"), Err(trailing(".x")));
    assert_eq!(parse_expr("0.1."), Err(trailing(".")));
    assert_eq!(parse_expr("3+4.+5"), Err(trailing(".+5")));
    assert_eq!(parse_expr("-7."), Err(trailing(".")));
    assert_eq!(parse_expr("(1.)"), Err(syntax(2, Expected::ClosingParen, ".)")));
    assert_eq!(parse_expr("1.").unwrap_err().message(), "invalid formula: .");
}

#[test]
fn an_operator_without_an_operand_is_left_unread() {
    assert_eq!(parse_expr("1+"), Err(trailing("+")));
    assert_eq!(parse_expr("1-"), Err(trailing("-")));
    assert_eq!(parse_expr("2*"), Err(trailing("*")));
    assert_eq!(parse_expr("2/"), Err(trailing("/")));
    assert_eq!(parse_expr("1 + "), Err(trailing("+ ")));
    assert_eq!(parse_expr("1 + * 2"), Err(trailing("+ * 2")));
    assert_eq!(parse_expr("2 / )"), Err(trailing("/ )")));
    assert_eq!(parse_expr("1--"), Err(trailing("--")));
    assert_eq!(parse_expr("2*-"), Err(trailing("*-")));
    assert_eq!(parse_expr("1+(2"), Err(trailing("+(2")));
    assert_eq!(parse_expr("2*(3+4]"), Err(trailing("*(3+4]")));
    assert_eq!(parse_expr("1+2*"), Err(trailing("*")));
    assert_eq!(parse_expr("1*2+"), Err(trailing("+")));
    assert_eq!(parse_expr("1+\u{e9}"), Err(trailing("+\u{e9}")));
    assert_eq!(parse_expr("1+").unwrap_err().message(), "invalid formula: +");
}

#[test]
fn an_operand_is_expected_where_no_factor_begins() {
    assert_eq!(parse_expr(""), Err(syntax(0, Expected::Operand, "")));
    assert_eq!(parse_expr("   "), Err(syntax(3, Expected::Operand, "")));
    assert_eq!(parse_expr("x"), Err(syntax(0, Expected::Operand, "x")));
    assert_eq!(parse_expr("+1"), Err(syntax(0, Expected::Operand, "+1")));
    assert_eq!(parse_expr("*"), Err(syntax(0, Expected::Operand, "*")));
    assert_eq!(parse_expr(".5"), Err(syntax(0, Expected::Operand, ".5")));
    assert_eq!(parse_expr(")"), Err(syntax(0, Expected::Operand, ")")));
    assert_eq!(parse_expr("()"), Err(syntax(1, Expected::Operand, ")")));
    assert_eq!(parse_expr("( "), Err(syntax(2, Expected::Operand, "")));
    assert_eq!(parse_expr("((x"), Err(syntax(2, Expected::Operand, "x")));
    assert_eq!(parse_expr(" \u{e9}"), Err(syntax(1, Expected::Operand, "\u{e9}")));
}

#[test]
fn a_digit_is_expected_behind_a_sign() {
    assert_eq!(parse_expr("-"), Err(syntax(1, Expected::Digit, "")));
    assert_eq!(parse_expr("-  x"), Err(syntax(3, Expected::Digit, "x")));
    assert_eq!(parse_expr("--1"), Err(syntax(1, Expected::Digit, "-1")));
    assert_eq!(parse_expr("-(1)"), Err(syntax(1, Expected::Digit, "(1)")));
    assert_eq!(parse_expr("-.5"), Err(syntax(1, Expected::Digit, ".5")));
    assert_eq!(parse_expr("(-)"), Err(syntax(2, Expected::Digit, ")")));
}

#[test]
fn a_closing_parenthesis_is_expected_behind_a_group() {
    assert_eq!(parse_expr("(1"), Err(syntax(2, Expected::ClosingParen, "")));
    assert_eq!(parse_expr("(1+2"), Err(syntax(4, Expected::ClosingParen, "")));
    assert_eq!(parse_expr("(1 2)"), Err(syntax(3, Expected::ClosingParen, "2)")));
    assert_eq!(parse_expr("((1)"), Err(syntax(4, Expected::ClosingParen, "")));
    assert_eq!(parse_expr("(0.1.2)"), Err(syntax(4, Expected::ClosingParen, ".2)")));
    assert_eq!(parse_expr("(3+4]"), Err(syntax(4, Expected::ClosingParen, "]")));
    assert_eq!(parse_expr("(1+)"), Err(syntax(2, Expected::ClosingParen, "+)")));
    assert_eq!(parse_expr("(2*)+1"), Err(syntax(2, Expected::ClosingParen, "*)+1")));
}

#[test]
fn positions_count_characters() {
    assert_eq!(
        parse_expr("\u{3000}\u{3000}(1"),
        Err(syntax(4, Expected::ClosingParen, ""))
    );
    assert_eq!(
        parse_expr("\u{2003}(1\u{a0}\u{1f600}"),
        Err(syntax(4, Expected::ClosingParen, "\u{1f600}"))
    );
}

#[test]
fn the_message_for_trailing_input_holds_the_remainder() {
    assert_eq!(trailing("0.1").message(), "invalid formula: 0.1");
    assert_eq!(trailing(" x ").message(), "invalid formula:  x ");
    assert_eq!(parse_expr("1 2").unwrap_err().message(), "invalid formula: 2");
}

#[test]
fn the_message_for_a_failure_holds_the_position_and_what_was_expected() {
    assert_eq!(
        parse_expr("").unwrap_err().message(),
        "invalid formula at position 0: expected a number or '('"
    );
    assert_eq!(
        parse_expr("-").unwrap_err().message(),
        "invalid formula at position 1: expected a digit"
    );
    assert_eq!(
        parse_expr("(1+2+3+4+5+6").unwrap_err().message(),
        "invalid formula at position 12: expected ')'"
    );
    assert_eq!(
        syntax(1234567, Expected::Digit, "").message(),
        "invalid formula at position 1234567: expected a digit"
    );
}

#[test]
fn what_was_expected_is_described() {
    assert_eq!(Expected::Operand.description(), "a number or '('");
    assert_eq!(Expected::Digit.description(), "a digit");
    assert_eq!(Expected::ClosingParen.description(), "')'");
}

#[test]
fn numerals_are_decimal() {
    assert_eq!(numeral_text(0), "0");
    assert_eq!(numeral_text(7), "7");
    assert_eq!(numeral_text(9), "9");
    assert_eq!(numeral_text(10), "10");
    assert_eq!(numeral_text(109), "109");
    assert_eq!(numeral_text(12345), "12345");
    assert_eq!(numeral_text(usize::MAX), usize::MAX.to_string());
    for n in 0..2000 {
        assert_eq!(numeral_text(n), n.to_string());
    }
}

#[test]
fn the_remainder_is_an_end_of_the_text() {
    for text in ["00.1", "1 + 2 ) * 3", "(1", "1.", "", "7 \u{e9}", "-", "4 4 4"] {
        let error = parse_expr(text).unwrap_err();
        assert!(text.ends_with(error.remainder().as_str()));
        match &error {
            ParseError::TrailingInput { remainder } => {
                assert!(!remainder.is_empty());
                assert_eq!(error.remainder(), remainder);
            }
            ParseError::Syntax { position, remainder, .. } => {
                assert_eq!(text.chars().count(), position + remainder.chars().count());
                assert_eq!(error.remainder(), remainder);
            }
        }
    }
}

#[test]
fn the_text_before_trailing_input_is_the_formula_that_was_read() {
    for (text, formula) in [
        ("00.1", "0"),
        ("0.1.2.3", "0.1"),
        ("0 .1", "0 "),
        ("1.", "1"),
        ("1+", "1"),
        ("1 + 2 * ", "1 + 2 "),
        ("(1+2)*3 4", "(1+2)*3 "),
        ("1+(2", "1"),
        ("2*3)", "2*3"),
    ] {
        match parse_expr(text) {
            Err(ParseError::TrailingInput { remainder }) => {
                assert_eq!(format!("{formula}{remainder}"), text);
                assert!(parse_expr(formula).is_ok(), "{formula:?}");
            }
            other => panic!("{text:?} gave {other:?}"),
        }
    }
}

#[test]
fn an_error_can_be_cloned() {
    let error = parse_expr("(1").unwrap_err();
    assert_eq!(error.clone(), error);
    let error = parse_expr("1 1").unwrap_err();
    assert_eq!(error.clone(), error);
}
