//! Reading the lexical elements of a formula from a position in the text.

use vstd::prelude::*;
use crate::grammar::{number, Expected, Parse};
use crate::lexical::{
    digit_char, digit_of, digit_run, digits, lemma_digit_run_bound, space_char, space_run, trim,
};
use crate::syntax::Literal;

verus! {

/// Where a rule gave up, counted in characters from the start of the
/// text, and what it wanted there.
#[derive(Clone, Copy, Debug, PartialEq, Eq)]
pub struct Failure {
    pub position: usize,
    pub expected: Expected,
}

/// The result `r` of reading the text from some position says what the
/// grammar's `parse` says: the same value and the position where the
/// rest begins, or the same place of failure.
pub open spec fn agrees<E: View>(
    r: Result<(E, usize), Failure>,
    parse: Parse<E::V>,
    text: Seq<char>,
) -> bool {
    match parse {
        Parse::Matched { value, rest } => {
            &&& r matches Ok((e, next))
            &&& e@ == value
            &&& next <= text.len()
            &&& text.skip(next as int) =~= rest
        },
        Parse::Failed { rest, expected } => {
            &&& r matches Err(failure)
            &&& failure.position <= text.len()
            &&& text.skip(failure.position as int) =~= rest
            &&& failure.expected == expected
        },
    }
}

/// The text from position `i` on begins with the character at `i`, and
/// goes on with the text from `i + 1`.
pub proof fn lemma_skip_step(s: Seq<char>, i: int)
    requires
        0 <= i < s.len(),
    ensures
        s.skip(i).len() == s.len() - i,
        s.skip(i)[0] == s[i],
        s.skip(i).skip(1) =~= s.skip(i + 1),
{
}

/// The position of the first character at or after `from` that is no
/// whitespace, or the length of the text if there is none.
pub(crate) fn skip_spaces(text: &[char], from: usize) -> (to: usize)
    requires
        from <= text.len(),
    ensures
        from <= to <= text.len(),
        to == from + space_run(text@.skip(from as int)),
        text@.skip(to as int) =~= trim(text@.skip(from as int)),
{
    let mut i: usize = from;
    while i < text.len() && space_char(text[i])
        invariant
            from <= i <= text.len(),
            space_run(text@.skip(from as int)) == (i - from) + space_run(text@.skip(i as int)),
        decreases text.len() - i,
    {
        proof {
            lemma_skip_step(text@, i as int);
        }
        i = i + 1;
    }
    proof {
        if i < text.len() {
            lemma_skip_step(text@, i as int);
        }
    }
    i
}

/// Appends to `out` the values of the decimal digits that stand at
/// `from`, and returns the position after the last of them.
pub(crate) fn scan_digits(text: &[char], from: usize, out: &mut Vec<u8>) -> (to: usize)
    requires
        from <= text.len(),
    ensures
        from <= to <= text.len(),
        to == from + digit_run(text@.skip(from as int)),
        final(out)@ =~= old(out)@ + digits(text@.subrange(from as int, to as int)),
{
    let mut i: usize = from;
    while i < text.len() && digit_char(text[i])
        invariant
            from <= i <= text.len(),
            digit_run(text@.skip(from as int)) == (i - from) + digit_run(text@.skip(i as int)),
            out@ =~= old(out)@ + digits(text@.subrange(from as int, i as int)),
        decreases text.len() - i,
    {
        proof {
            lemma_skip_step(text@, i as int);
        }
        out.push(digit_of(text[i]));
        i = i + 1;
    }
    proof {
        if i < text.len() {
            lemma_skip_step(text@, i as int);
        }
    }
    i
}

/// Reads a number at `from`, as the rule `number` has it.
pub(crate) fn parse_number(text: &[char], from: usize) -> (r: Result<(Literal, usize), Failure>)
    requires
        from <= text.len(),
    ensures
        agrees(r, number(text@.skip(from as int)), text@),
        r matches Ok((_, next)) ==> from < next,
{
    let ghost s = text@.skip(from as int);
    let mut pos: usize = from;
    let mut negative = false;
    if pos < text.len() && text[pos] == '-' {
        negative = true;
        proof {
            lemma_skip_step(text@, pos as int);
        }
        pos = skip_spaces(text, pos + 1);
    }
    let ghost body = text@.skip(pos as int);
    assert(body =~= if negative {
        trim(s.skip(1))
    } else {
        s
    });
    if !(pos < text.len() && digit_char(text[pos])) {
        proof {
            if pos < text.len() {
                lemma_skip_step(text@, pos as int);
            }
        }
        return Err(Failure { position: pos, expected: Expected::Digit });
    }
    proof {
        lemma_skip_step(text@, pos as int);
        lemma_digit_run_bound(body);
    }
    let start: usize = pos;
    let mut integer: Vec<u8> = Vec::new();
    if text[pos] == '0' {
        integer.push(0);
        pos = pos + 1;
        assert(integer@ =~= digits(body.take(1)));
    } else {
        pos = scan_digits(text, pos, &mut integer);
        assert(body.take(digit_run(body) as int) =~= text@.subrange(start as int, pos as int));
    }
    let ghost width = pos - start;
    let ghost tail = body.skip(width);
    assert(tail =~= text@.skip(pos as int));
    let mut fraction: Vec<u8> = Vec::new();
    proof {
        if pos < text.len() {
            lemma_skip_step(text@, pos as int);
        }
    }
    if pos < text.len() && text[pos] == '.' {
        let first: usize = pos + 1;
        let last: usize = scan_digits(text, first, &mut fraction);
        if last > first {
            proof {
                let places = digit_run(tail.skip(1));
                assert(tail.skip(1).take(places as int) =~= text@.subrange(
                    first as int,
                    last as int,
                ));
            }
            pos = last;
        }
    }
    Ok((Literal { negative, integer, fraction }, pos))
}

} // verus!
