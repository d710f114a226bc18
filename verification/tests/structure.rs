//! The trees that formulas denote.

use formula::{parse_expr, Expr, Literal, Operator, ParseError};

fn literal(negative: bool, integer: &[u8], fraction: &[u8]) -> Expr {
    Expr::Number(Literal { negative, integer: integer.to_vec(), fraction: fraction.to_vec() })
}

fn whole(n: u8) -> Expr {
    literal(false, &[n], &[])
}

fn binary(op: Operator, left: Expr, right: Expr) -> Expr {
    Expr::Binary(op, Box::new(left), Box::new(right))
}

fn tree(text: &str) -> Expr {
    parse_expr(text).unwrap()
}

#[test]
fn a_literal_keeps_its_sign_and_digits() {
    assert_eq!(tree("-12.034"), literal(true, &[1, 2], &[0, 3, 4]));
    assert_eq!(tree("0"), literal(false, &[0], &[]));
    assert_eq!(tree("0.10"), literal(false, &[0], &[1, 0]));
    assert_eq!(tree("9876543210"), literal(false, &[9, 8, 7, 6, 5, 4, 3, 2, 1, 0], &[]));
    assert_eq!(tree("-  5"), literal(true, &[5], &[]));
    assert_eq!(tree("-0"), literal(true, &[0], &[]));
}

#[test]
fn each_operator_has_its_node() {
    assert_eq!(tree("1+2"), binary(Operator::Add, whole(1), whole(2)));
    assert_eq!(tree("1-2"), binary(Operator::Sub, whole(1), whole(2)));
    assert_eq!(tree("1*2"), binary(Operator::Mul, whole(1), whole(2)));
    assert_eq!(tree("1/2"), binary(Operator::Div, whole(1), whole(2)));
}

#[test]
fn products_nest_inside_sums() {
    assert_eq!(
        tree("1+2*3"),
        binary(Operator::Add, whole(1), binary(Operator::Mul, whole(2), whole(3)))
    );
    assert_eq!(
        tree("1*2+3"),
        binary(Operator::Add, binary(Operator::Mul, whole(1), whole(2)), whole(3))
    );
    assert_eq!(
        tree("1*2-3/4"),
        binary(
            Operator::Sub,
            binary(Operator::Mul, whole(1), whole(2)),
            binary(Operator::Div, whole(3), whole(4))
        )
    );
}

#[test]
fn chains_nest_to_the_left() {
    assert_eq!(
        tree("1-2-3"),
        binary(Operator::Sub, binary(Operator::Sub, whole(1), whole(2)), whole(3))
    );
    assert_eq!(
        tree("1/2*3"),
        binary(Operator::Mul, binary(Operator::Div, whole(1), whole(2)), whole(3))
    );
}

#[test]
fn parentheses_leave_no_node() {
    assert_eq!(tree("(1)"), whole(1));
    assert_eq!(tree("((1+2))"), tree("1+2"));
    assert_eq!(
        tree("1-(2-3)"),
        binary(Operator::Sub, whole(1), binary(Operator::Sub, whole(2), whole(3)))
    );
    assert_eq!(
        tree("(1+2)*3"),
        binary(Operator::Mul, binary(Operator::Add, whole(1), whole(2)), whole(3))
    );
}

#[test]
fn a_formula_and_a_term_compose_under_plus_and_minus() {
    let formulas = ["1", "1+2", "1*2-3", " (4) ", "-5.5/2", "1-2-3"];
    let terms = ["7", "7*8", " ( 7 + 8 ) ", "-0.5", "1/2/3"];
    for a in formulas {
        for b in terms {
            assert_eq!(tree(&format!("{a}+{b}")), binary(Operator::Add, tree(a), tree(b)));
            assert_eq!(tree(&format!("{a}-{b}")), binary(Operator::Sub, tree(a), tree(b)));
        }
    }
}

#[test]
fn a_term_and_a_factor_compose_under_times_and_over() {
    let terms = ["1", "1*2", " (1+2) ", "-5.5/2", "1/2/3"];
    let factors = ["7", " ( 7 + 8 ) ", "-0.5", "(7*8)", " 0 "];
    for a in terms {
        for b in factors {
            assert_eq!(tree(&format!("{a}*{b}")), binary(Operator::Mul, tree(a), tree(b)));
            assert_eq!(tree(&format!("{a}/{b}")), binary(Operator::Div, tree(a), tree(b)));
        }
    }
}

#[test]
fn a_formula_in_parentheses_is_a_factor() {
    for inner in ["1", "1+2", "1-2*3", " 4 / 5 ", "(6)", "-7"] {
        assert_eq!(tree(&format!("({inner})")), tree(inner));
        assert_eq!(tree(&format!("2*({inner})")), binary(Operator::Mul, whole(2), tree(inner)));
        assert_eq!(tree(&format!("({inner})/2")), binary(Operator::Div, tree(inner), whole(2)));
    }
}

#[test]
fn a_product_behind_a_sum_is_taken_first() {
    for (a, b, c) in [("1", "2", "3"), ("1-1", "2/2", "(3+3)"), (" 1 ", " 2 ", " 3 ")] {
        assert_eq!(
            tree(&format!("{a}+{b}*{c}")),
            binary(Operator::Add, tree(a), binary(Operator::Mul, tree(b), tree(c)))
        );
        assert_eq!(
            tree(&format!("{a}-{b}/{c}")),
            binary(Operator::Sub, tree(a), binary(Operator::Div, tree(b), tree(c)))
        );
    }
}

#[test]
fn two_operators_of_one_rank_apply_in_turn() {
    for (a, b, c) in [("1", "2", "3"), ("1*1", "2/2", "(3+3)"), (" 1 ", " 2 ", " 3 ")] {
        assert_eq!(
            tree(&format!("{a}+{b}-{c}")),
            binary(Operator::Sub, binary(Operator::Add, tree(a), tree(b)), tree(c))
        );
        assert_eq!(
            tree(&format!("{a}-{b}-{c}")),
            binary(Operator::Sub, binary(Operator::Sub, tree(a), tree(b)), tree(c))
        );
    }
}

#[test]
fn sides_of_another_shape_do_not_compose() {
    assert_ne!(tree("1+2+3"), binary(Operator::Add, tree("1"), tree("2+3")));
    assert_ne!(tree("1+2*3"), binary(Operator::Mul, tree("1+2"), tree("3")));
    assert_ne!(tree("1*2*3"), binary(Operator::Mul, tree("1"), tree("2*3")));
}

#[test]
fn whitespace_around_a_formula_changes_nothing() {
    for text in ["1", "1+2*3", "(1 - 2) / -3.5"] {
        assert_eq!(tree(&format!(" \t\n{text}")), tree(text));
        assert_eq!(tree(&format!("{text} \u{2003}\r")), tree(text));
    }
    assert_eq!(
        parse_expr("   1 2"),
        Err(ParseError::TrailingInput { remainder: String::from("2") })
    );
    assert_eq!(parse_expr("1 2"), Err(ParseError::TrailingInput { remainder: String::from("2") }));
}

#[test]
fn whitespace_at_every_token_boundary_changes_nothing() {
    let formulas: [&[&str]; 6] = [
        &["1"],
        &["-", "2.5"],
        &["1", "+", "2", "*", "3"],
        &["(", "1", "+", "2", ")", "*", "(", "-", "3", ")"],
        &["(", "(", "4", ")", ")", "/", "-", "0.5", "-", "6"],
        &["10", "-", "(", "2", "-", "(", "3", "-", "4", ")", ")"],
    ];
    let gaps = ["", " ", "  ", "\t", "\n", " \u{a0}\r\n", "\u{3000}"];
    for tokens in formulas {
        let plain = tree(&tokens.concat());
        for (turn, gap) in gaps.iter().enumerate() {
            // The same gap at every place.
            let mut text = String::from(*gap);
            for token in tokens {
                text.push_str(token);
                text.push_str(gap);
            }
            assert_eq!(tree(&text), plain, "{text:?}");
            // A different gap at every place.
            let mut text = String::new();
            for (place, token) in tokens.iter().enumerate() {
                text.push_str(gaps[(place + turn) % gaps.len()]);
                text.push_str(token);
            }
            text.push_str(gaps[(tokens.len() + turn) % gaps.len()]);
            assert_eq!(tree(&text), plain, "{text:?}");
        }
    }
}

#[test]
fn whitespace_inside_a_number_is_not_between_tokens() {
    assert!(parse_expr("1 2").is_err());
    assert!(parse_expr("1 .5").is_err());
    assert!(parse_expr("1. 5").is_err());
    assert!(parse_expr("1.5 5").is_err());
}

#[test]
fn every_literal_read_is_well_formed() {
    fn check(formula: &Expr) {
        match formula {
            Expr::Number(literal) => {
                assert!(!literal.integer.is_empty());
                assert!(literal.integer.len() == 1 || literal.integer[0] != 0);
                assert!(literal.integer.iter().all(|d| *d <= 9));
                assert!(literal.fraction.iter().all(|d| *d <= 9));
            }
            Expr::Binary(_, left, right) => {
                check(left);
                check(right);
            }
        }
    }
    for text in ["0", "10.01", "1+20*(300-4000.5)/-6", "99999999999999999999"] {
        check(&tree(text));
    }
}

#[test]
fn a_clone_is_equal() {
    let formula = tree("1+2*(3-4.5)");
    assert_eq!(formula.clone(), formula);
    let literal = Literal { negative: true, integer: vec![4, 2], fraction: vec![0] };
    assert_eq!(literal.clone(), literal);
}
