//! The grammar of formulas.
//!
//! ```text
//! expression ::= ws term (('+' | '-') ws term)*
//! term       ::= factor (('*' | '/') ws factor)*
//! factor     ::= ('(' expression ')' | number) ws
//! number     ::= ['-' ws] integer ['.' digit+]
//! integer    ::= '0' | nonzero-digit digit*
//! ```
//!
//! Each rule is a function from the input to what the rule makes of it:
//! the value of what it read from the front of the input together with
//! the input that is left, or the place where it gave up.  A rule reads
//! on as long as it can, and leaves unread what it cannot finish: an
//! operator that no operand follows and a decimal point that no digit
//! follows stay in the input.  A rule fails only where nothing of it
//! can be read: where no factor begins, where no digit follows a sign,
//! or where a parenthesis is not closed.

use vstd::prelude::*;
use crate::lexical::{digit_run, digits, is_digit, lemma_space_run_bound, trim};
use crate::syntax::{Decimal, Operator, Tree};

verus! {

/// What a rule wanted to see at the place where it gave up.
#[derive(Clone, Copy, Debug, PartialEq, Eq, Structural)]
pub enum Expected {
    /// A number or an opening parenthesis.
    Operand,
    /// A decimal digit, behind a minus sign.
    Digit,
    /// A closing parenthesis.
    ClosingParen,
}

/// What a rule makes of an input.
pub enum Parse<T> {
    /// The rule accepted a prefix of the input; `rest` is what follows it.
    Matched { value: T, rest: Seq<char> },
    /// The rule gave up where `rest` begins.
    Failed { rest: Seq<char>, expected: Expected },
}

/// The operator that `c` denotes between two terms, if any.
pub open spec fn additive(c: char) -> Option<Operator> {
    if c == '+' {
        Some(Operator::Add)
    } else if c == '-' {
        Some(Operator::Sub)
    } else {
        None
    }
}

/// The operator that `c` denotes between two factors, if any.
pub open spec fn multiplicative(c: char) -> Option<Operator> {
    if c == '*' {
        Some(Operator::Mul)
    } else if c == '/' {
        Some(Operator::Div)
    } else {
        None
    }
}

/// The tree of the operator `op` applied to `left` and `right`.
pub open spec fn applied(op: Operator, left: Tree, right: Tree) -> Tree {
    Tree::Binary(op, Box::new(left), Box::new(right))
}

/// The rule `number`.  A minus sign may be followed by whitespace; the
/// digits and the decimal point stand together.  After a leading `0` the
/// integer part is over, and a decimal point that no digit follows is
/// not part of the number.
pub open spec fn number(s: Seq<char>) -> Parse<Decimal> {
    let negative = s.len() > 0 && s[0] == '-';
    let body = if negative { trim(s.skip(1)) } else { s };
    if digit_run(body) == 0 {
        Parse::Failed { rest: body, expected: Expected::Digit }
    } else {
        let width = if body[0] == '0' { 1 } else { digit_run(body) };
        let integer = digits(body.take(width as int));
        let tail = body.skip(width as int);
        let places = digit_run(tail.skip(1));
        if tail.len() > 0 && tail[0] == '.' && places > 0 {
            Parse::Matched {
                value: Decimal {
                    negative,
                    integer,
                    fraction: digits(tail.skip(1).take(places as int)),
                },
                rest: tail.skip(1).skip(places as int),
            }
        } else {
            Parse::Matched {
                value: Decimal { negative, integer, fraction: Seq::empty() },
                rest: tail,
            }
        }
    }
}

/// The rule `factor`: a parenthesised expression or a number, and the
/// whitespace after it.
pub open spec fn factor(s: Seq<char>) -> Parse<Tree>
    decreases s.len(), 0nat,
{
    if s.len() > 0 && s[0] == '(' {
        match expression(s.skip(1)) {
            Parse::Matched { value, rest } => {
                if rest.len() > 0 && rest[0] == ')' {
                    Parse::Matched { value, rest: trim(rest.skip(1)) }
                } else {
                    Parse::Failed { rest, expected: Expected::ClosingParen }
                }
            },
            Parse::Failed { rest, expected } => Parse::Failed { rest, expected },
        }
    } else if s.len() > 0 && (s[0] == '-' || is_digit(s[0])) {
        match number(s) {
            Parse::Matched { value, rest } => Parse::Matched {
                value: Tree::Number(value),
                rest: trim(rest),
            },
            Parse::Failed { rest, expected } => Parse::Failed { rest, expected },
        }
    } else {
        Parse::Failed { rest: s, expected: Expected::Operand }
    }
}

/// The factors that follow a term's first factor, each behind `*` or
/// `/`, applied from left to right to `left`, and the input after the
/// last of them.  An operator that no factor follows is left unread.
///
/// A factor never leaves more input than it was given (see
/// `lemma_factor_consumes`), so the test on the two lengths, here and in
/// the three functions below, always holds; it is there to make the
/// recursion end evidently.
pub open spec fn more_factors(left: Tree, s: Seq<char>) -> (Tree, Seq<char>)
    decreases s.len(), 1nat,
{
    if s.len() > 0 && multiplicative(s[0]) is Some {
        proof {
            lemma_space_run_bound(s.skip(1));
        }
        match factor(trim(s.skip(1))) {
            Parse::Matched { value, rest } if rest.len() < s.len() => more_factors(
                applied(multiplicative(s[0])->0, left, value),
                rest,
            ),
            _ => (left, s),
        }
    } else {
        (left, s)
    }
}

/// The rule `term`.
pub open spec fn term(s: Seq<char>) -> Parse<Tree>
    decreases s.len(), 2nat,
{
    match factor(s) {
        Parse::Matched { value, rest } if rest.len() <= s.len() => {
            let (value, rest) = more_factors(value, rest);
            Parse::Matched { value, rest }
        },
        other => other,
    }
}

/// The terms that follow an expression's first term, each behind `+` or
/// `-`, applied from left to right to `left`, and the input after the
/// last of them.  An operator that no term follows is left unread.
pub open spec fn more_terms(left: Tree, s: Seq<char>) -> (Tree, Seq<char>)
    decreases s.len(), 3nat,
{
    if s.len() > 0 && additive(s[0]) is Some {
        proof {
            lemma_space_run_bound(s.skip(1));
        }
        match term(trim(s.skip(1))) {
            Parse::Matched { value, rest } if rest.len() < s.len() => more_terms(
                applied(additive(s[0])->0, left, value),
                rest,
            ),
            _ => (left, s),
        }
    } else {
        (left, s)
    }
}

/// The rule `expression`.
pub open spec fn expression(s: Seq<char>) -> Parse<Tree>
    decreases s.len(), 4nat,
{
    proof {
        lemma_space_run_bound(s);
    }
    match term(trim(s)) {
        Parse::Matched { value, rest } if rest.len() <= s.len() => {
            let (value, rest) = more_terms(value, rest);
            Parse::Matched { value, rest }
        },
        other => other,
    }
}

/// What a whole input comes to.
pub enum Outcome {
    /// The input is a formula with this tree.
    Value(Tree),
    /// A formula stands at the start of the input, and `remainder` follows it.
    Trailing { remainder: Seq<char> },
    /// No formula stands at the start of the input: `position`
    /// characters into it, where `remainder` begins, `expected` was
    /// wanted and not found.
    Syntax { position: nat, expected: Expected, remainder: Seq<char> },
}

/// What the input `s` comes to when it is read as one formula.
pub open spec fn outcome(s: Seq<char>) -> Outcome {
    match expression(s) {
        Parse::Matched { value, rest } => {
            if rest.len() == 0 {
                Outcome::Value(value)
            } else {
                Outcome::Trailing { remainder: rest }
            }
        },
        Parse::Failed { rest, expected } => Outcome::Syntax {
            position: (s.len() - rest.len()) as nat,
            expected,
            remainder: rest,
        },
    }
}

} // verus!
