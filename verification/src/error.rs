//! Why a text is no formula, and how that is put into words.

use vstd::prelude::*;
use vstd::string::StringExecFns;
use crate::grammar::Expected;

verus! {

/// Why a text is no formula.
#[derive(Debug, PartialEq, Eq)]
pub enum ParseError {
    /// A formula stands at the start of the text, but `remainder` follows
    /// it.
    TrailingInput { remainder: String },
    /// No formula stands at the start of the text: `position` characters
    /// into it, where `remainder` begins, `expected` was wanted and not
    /// found.
    Syntax { position: usize, expected: Expected, remainder: String },
}

/// The character that writes the digit `d`.
pub open spec fn digit_symbol(d: nat) -> char
    recommends
        d <= 9,
{
    (d + 48) as u8 as char
}

/// The decimal numeral of `n`, without leading zeros.
pub open spec fn numeral(n: nat) -> Seq<char>
    decreases n,
{
    if n < 10 {
        seq![digit_symbol(n)]
    } else {
        numeral(n / 10).push(digit_symbol(n % 10))
    }
}

impl Expected {
    /// The words for what was expected.
    pub open spec fn described(self) -> Seq<char> {
        match self {
            Expected::Operand => "a number or '('"@,
            Expected::Digit => "a digit"@,
            Expected::ClosingParen => "')'"@,
        }
    }

    /// The words for what was expected.
    pub fn description(&self) -> (words: &'static str)
        ensures
            words@ == self.described(),
    {
        match self {
            Expected::Operand => "a number or '('",
            Expected::Digit => "a digit",
            Expected::ClosingParen => "')'",
        }
    }
}

/// The one-character text that writes the digit `d`.
fn digit_text(d: usize) -> (text: &'static str)
    requires
        d <= 9,
    ensures
        text@ == seq![digit_symbol(d as nat)],
{
    proof {
        reveal_strlit("0");
        reveal_strlit("1");
        reveal_strlit("2");
        reveal_strlit("3");
        reveal_strlit("4");
        reveal_strlit("5");
        reveal_strlit("6");
        reveal_strlit("7");
        reveal_strlit("8");
        reveal_strlit("9");
    }
    if d == 0 {
        "0"
    } else if d == 1 {
        "1"
    } else if d == 2 {
        "2"
    } else if d == 3 {
        "3"
    } else if d == 4 {
        "4"
    } else if d == 5 {
        "5"
    } else if d == 6 {
        "6"
    } else if d == 7 {
        "7"
    } else if d == 8 {
        "8"
    } else {
        "9"
    }
}

/// Writes `n` as a decimal numeral.
pub fn numeral_text(n: usize) -> (text: String)
    ensures
        text@ == numeral(n as nat),
    decreases n,
{
    if n < 10 {
        String::from_str(digit_text(n))
    } else {
        numeral_text(n / 10).concat(digit_text(n % 10))
    }
}

impl Clone for ParseError {
    fn clone(&self) -> (copy: Self)
        ensures
            copy == *self,
    {
        match self {
            ParseError::TrailingInput { remainder } => ParseError::TrailingInput {
                remainder: remainder.clone(),
            },
            ParseError::Syntax { position, expected, remainder } => ParseError::Syntax {
                position: *position,
                expected: *expected,
                remainder: remainder.clone(),
            },
        }
    }
}

impl ParseError {
    /// The part of the text that was not read.
    pub open spec fn unread(&self) -> Seq<char> {
        match self {
            ParseError::TrailingInput { remainder } => remainder@,
            ParseError::Syntax { remainder, .. } => remainder@,
        }
    }

    /// The text of this error's message.
    pub open spec fn message_text(&self) -> Seq<char> {
        match self {
            ParseError::TrailingInput { remainder } => "invalid formula: "@ + remainder@,
            ParseError::Syntax { position, expected, remainder } => "invalid formula at position "@
                + numeral(*position as nat) + ": expected "@ + expected.described(),
        }
    }

    /// The part of the text that was not read.
    pub fn remainder(&self) -> (rest: &String)
        ensures
            rest@ == self.unread(),
    {
        match self {
            ParseError::TrailingInput { remainder } => remainder,
            ParseError::Syntax { remainder, .. } => remainder,
        }
    }

    /// Puts this error into words: for input after a formula,
    /// `invalid formula: ` and then that input as it stands; for a text
    /// that no formula begins, the position and what was expected there.
    pub fn message(&self) -> (text: String)
        ensures
            text@ == self.message_text(),
    {
        match self {
            ParseError::TrailingInput { remainder } => String::from_str("invalid formula: ").concat(
                remainder.as_str(),
            ),
            ParseError::Syntax { position, expected, .. } => {
                let place = numeral_text(*position);
                String::from_str("invalid formula at position ").concat(place.as_str()).concat(
                    ": expected ",
                ).concat(expected.description())
            },
        }
    }
}

} // verus!
