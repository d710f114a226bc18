//! The recursive-descent parser: one function for each rule of the
//! grammar, each reading the text from a position on, and the function
//! that reads a whole text as one formula.

use vstd::prelude::*;
use vstd::string::StrSliceExecFns;
use crate::error::ParseError;
use crate::grammar::{
    additive, expression, factor, more_factors, more_terms, multiplicative, outcome, term,
    Expected, Outcome,
};
use crate::laws::{lemma_formula_well_formed, lemma_remainder_is_suffix};
use crate::lexical::digit_char;
use crate::scanner::{agrees, lemma_skip_step, parse_number, skip_spaces, Failure};
use crate::syntax::{Expr, Operator};

verus! {

/// The operator that stands between two factors at `at`, if one does.
fn multiplicative_at(text: &[char], at: usize) -> (op: Option<Operator>)
    requires
        at <= text.len(),
    ensures
        op == if at < text.len() {
            multiplicative(text@[at as int])
        } else {
            None
        },
{
    if at < text.len() && text[at] == '*' {
        Some(Operator::Mul)
    } else if at < text.len() && text[at] == '/' {
        Some(Operator::Div)
    } else {
        None
    }
}

/// The operator that stands between two terms at `at`, if one does.
fn additive_at(text: &[char], at: usize) -> (op: Option<Operator>)
    requires
        at <= text.len(),
    ensures
        op == if at < text.len() {
            additive(text@[at as int])
        } else {
            None
        },
{
    if at < text.len() && text[at] == '+' {
        Some(Operator::Add)
    } else if at < text.len() && text[at] == '-' {
        Some(Operator::Sub)
    } else {
        None
    }
}

/// Reads a factor at `from`, as the rule `factor` has it.
pub(crate) fn parse_factor(text: &[char], from: usize) -> (r: Result<(Expr, usize), Failure>)
    requires
        from <= text.len(),
    ensures
        agrees(r, factor(text@.skip(from as int)), text@),
        r matches Ok((_, next)) ==> from < next,
    decreases text.len() - from, 0nat,
{
    proof {
        if from < text.len() {
            lemma_skip_step(text@, from as int);
        }
    }
    if from < text.len() && text[from] == '(' {
        match parse_expression(text, from + 1) {
            Ok((value, next)) => {
                proof {
                    if next < text.len() {
                        lemma_skip_step(text@, next as int);
                    }
                }
                if next < text.len() && text[next] == ')' {
                    let to = skip_spaces(text, next + 1);
                    Ok((value, to))
                } else {
                    Err(Failure { position: next, expected: Expected::ClosingParen })
                }
            },
            Err(failure) => Err(failure),
        }
    } else if from < text.len() && (text[from] == '-' || digit_char(text[from])) {
        match parse_number(text, from) {
            Ok((literal, next)) => {
                let to = skip_spaces(text, next);
                Ok((Expr::Number(literal), to))
            },
            Err(failure) => Err(failure),
        }
    } else {
        Err(Failure { position: from, expected: Expected::Operand })
    }
}

/// Reads a term at `from`, as the rule `term` has it.
pub(crate) fn parse_term(text: &[char], from: usize) -> (r: Result<(Expr, usize), Failure>)
    requires
        from <= text.len(),
    ensures
        agrees(r, term(text@.skip(from as int)), text@),
        r matches Ok((_, next)) ==> from < next,
    decreases text.len() - from, 1nat,
{
    let (first, after) = match parse_factor(text, from) {
        Ok(read) => read,
        Err(failure) => {
            return Err(failure);
        },
    };
    let mut left: Expr = first;
    let mut pos: usize = after;
    loop
        invariant
            from < pos <= text.len(),
            term(text@.skip(from as int)) is Matched,
            more_factors(left@, text@.skip(pos as int)) == (
                term(text@.skip(from as int))->Matched_value,
                term(text@.skip(from as int))->Matched_rest,
            ),
        decreases text.len() - pos,
    {
        proof {
            if pos < text.len() {
                lemma_skip_step(text@, pos as int);
            }
        }
        let op = match multiplicative_at(text, pos) {
            Some(op) => op,
            None => {
                return Ok((left, pos));
            },
        };
        let start = skip_spaces(text, pos + 1);
        match parse_factor(text, start) {
            Ok((right, next)) => {
                left = Expr::Binary(op, Box::new(left), Box::new(right));
                pos = next;
            },
            Err(_) => {
                return Ok((left, pos));
            },
        }
    }
}

/// Reads an expression at `from`, as the rule `expression` has it.
pub(crate) fn parse_expression(text: &[char], from: usize) -> (r: Result<(Expr, usize), Failure>)
    requires
        from <= text.len(),
    ensures
        agrees(r, expression(text@.skip(from as int)), text@),
        r matches Ok((_, next)) ==> from < next,
    decreases text.len() - from, 2nat,
{
    let begin = skip_spaces(text, from);
    let (first, after) = match parse_term(text, begin) {
        Ok(read) => read,
        Err(failure) => {
            return Err(failure);
        },
    };
    let mut left: Expr = first;
    let mut pos: usize = after;
    loop
        invariant
            from < pos <= text.len(),
            expression(text@.skip(from as int)) is Matched,
            more_terms(left@, text@.skip(pos as int)) == (
                expression(text@.skip(from as int))->Matched_value,
                expression(text@.skip(from as int))->Matched_rest,
            ),
        decreases text.len() - pos,
    {
        proof {
            if pos < text.len() {
                lemma_skip_step(text@, pos as int);
            }
        }
        let op = match additive_at(text, pos) {
            Some(op) => op,
            None => {
                return Ok((left, pos));
            },
        };
        let start = skip_spaces(text, pos + 1);
        match parse_term(text, start) {
            Ok((right, next)) => {
                left = Expr::Binary(op, Box::new(left), Box::new(right));
                pos = next;
            },
            Err(_) => {
                return Ok((left, pos));
            },
        }
    }
}

/// What the result of parsing says, as an outcome of the grammar.
pub open spec fn verdict(r: Result<Expr, ParseError>) -> Outcome {
    match r {
        Ok(formula) => Outcome::Value(formula@),
        Err(ParseError::TrailingInput { remainder }) => Outcome::Trailing { remainder: remainder@ },
        Err(ParseError::Syntax { position, expected, remainder }) => Outcome::Syntax {
            position: position as nat,
            expected,
            remainder: remainder@,
        },
    }
}

/// The characters of `text`, one by one.
pub fn chars_of(text: &str) -> (chars: Vec<char>)
    ensures
        chars@ == text@,
{
    let mut chars: Vec<char> = Vec::new();
    for c in it: text.chars()
        invariant
            chars@ == it.seq().take(it.index()),
            it.seq() == text@,
    {
        chars.push(c);
    }
    chars
}

/// Reads `expr_str` as one formula.
///
/// The result is the formula's tree when the whole text is a formula.
/// Where a formula stands at the start of the text and something
/// follows it, the result is `TrailingInput` with what follows, as it
/// stands.  Where no formula stands at the start of the text, the result
/// is `Syntax` with the place at which the first factor could not be
/// read.
pub fn parse_expr(expr_str: &str) -> (r: Result<Expr, ParseError>)
    ensures
        verdict(r) == outcome(expr_str@),
        r matches Ok(formula) ==> formula@.well_formed(),
        r matches Err(error) ==> error.unread().is_suffix_of(expr_str@),
{
    proof {
        lemma_formula_well_formed(expr_str@);
        lemma_remainder_is_suffix(expr_str@);
    }
    let chars = chars_of(expr_str);
    let length: usize = chars.len();
    assert(chars@.skip(0) =~= expr_str@);
    match parse_expression(chars.as_slice(), 0) {
        Ok((formula, next)) => {
            if next == length {
                Ok(formula)
            } else {
                let remainder = expr_str.substring_char(next, length).to_owned();
                Err(ParseError::TrailingInput { remainder })
            }
        },
        Err(failure) => {
            let remainder = expr_str.substring_char(failure.position, length).to_owned();
            Err(
                ParseError::Syntax {
                    position: failure.position,
                    expected: failure.expected,
                    remainder,
                },
            )
        },
    }
}

} // verus!
