//! Laws of the grammar: what holds of every text.

use vstd::prelude::*;
use crate::consumption::{lemma_expression_consumes, lemma_number_consumes};
use crate::continuation::{lemma_expression_append, lemma_term_append, lemma_trim_append};
use crate::grammar::{
    additive, applied, expression, factor, more_factors, more_terms, multiplicative, number,
    outcome, term, Outcome, Parse,
};
use crate::lexical::{is_digit, is_space, lemma_space_run_bound, space_run, trim};
use crate::syntax::Decimal;

verus! {

/// Every character of `s` is whitespace.
pub open spec fn blank(s: Seq<char>) -> bool {
    forall|i: int| 0 <= i < s.len() ==> is_space(#[trigger] s[i])
}

/// `s` is one term and nothing else: whitespace, a term, and the end.
pub open spec fn single_term(s: Seq<char>) -> bool {
    term(trim(s)) matches Parse::Matched { rest, .. } && rest.len() == 0
}

/// `s` is one factor and nothing else: whitespace, a factor, and the end.
pub open spec fn single_factor(s: Seq<char>) -> bool {
    factor(trim(s)) matches Parse::Matched { rest, .. } && rest.len() == 0
}

/// A text that is all whitespace is one run of whitespace.
pub proof fn lemma_blank_run(s: Seq<char>)
    requires
        blank(s),
    ensures
        space_run(s) == s.len(),
        trim(s).len() == 0,
    decreases s.len(),
{
    if s.len() > 0 {
        lemma_blank_run(s.skip(1));
    }
}

/// The outcome depends on the characters of the text and on nothing
/// else: the same text has the same outcome, whenever it is read.
pub proof fn lemma_outcome_is_determined(s: Seq<char>, t: Seq<char>)
    requires
        s =~= t,
    ensures
        outcome(s) == outcome(t),
{
}

/// What is reported as not read is an end of the text: if a formula was
/// read, what follows it, which is not empty; if the grammar gave up,
/// the text from the position of the failure on.
pub proof fn lemma_remainder_is_suffix(s: Seq<char>)
    ensures
        match outcome(s) {
            Outcome::Value(_) => true,
            Outcome::Trailing { remainder } => {
                &&& 0 < remainder.len() < s.len()
                &&& remainder == s.skip(s.len() - remainder.len())
            },
            Outcome::Syntax { position, remainder, .. } => {
                &&& position <= s.len()
                &&& remainder == s.skip(position as int)
            },
        },
{
    lemma_expression_consumes(s);
}

/// Every literal of a formula is well formed: decimal digits only, at
/// least one before the point, no leading zero before another digit.
pub proof fn lemma_formula_well_formed(s: Seq<char>)
    ensures
        outcome(s) matches Outcome::Value(tree) ==> tree.well_formed(),
{
    lemma_expression_consumes(s);
}

/// After a leading `0` the integer part is over: a text that begins with
/// `0` and another digit is the formula `0` with the rest, from that
/// digit on, left unread.
pub proof fn lemma_leading_zero(s: Seq<char>)
    requires
        s.len() >= 2,
        s[0] == '0',
        is_digit(s[1]),
    ensures
        outcome(s) == (Outcome::Trailing { remainder: s.skip(1) }),
{
    assert(trim(s) =~= s);
    assert(trim(s.skip(1)) =~= s.skip(1));
}

/// A decimal point is read only directly behind the integer part of a
/// number and directly before a digit: one that is left behind a
/// number, with or without whitespace between them, is left unread with
/// all that follows it.
pub proof fn lemma_point_left_unread(s: Seq<char>)
    requires
        number(s) is Matched,
        trim(number(s)->Matched_rest).len() > 0,
        trim(number(s)->Matched_rest)[0] == '.',
    ensures
        outcome(s) == (Outcome::Trailing { remainder: trim(number(s)->Matched_rest) }),
{
    assert(trim(s) =~= s);
    lemma_space_run_bound(number(s)->Matched_rest);
    lemma_number_consumes(s);
}

/// A minus sign before a number, with or without whitespace between
/// them, negates it and changes nothing else.
pub proof fn lemma_minus_negates(blanks: Seq<char>, s: Seq<char>)
    requires
        blank(blanks),
        s.len() > 0,
        is_digit(s[0]),
    ensures
        number(seq!['-'] + blanks + s) == match number(s) {
            Parse::Matched { value, rest } => Parse::Matched {
                value: Decimal { negative: true, integer: value.integer, fraction: value.fraction },
                rest,
            },
            Parse::Failed { rest, expected } => Parse::Failed { rest, expected },
        },
        number(s) matches Parse::Matched { value, .. } ==> !value.negative,
{
    let signed = seq!['-'] + blanks + s;
    assert(signed.skip(1) =~= blanks + s);
    lemma_blank_run(blanks);
    lemma_trim_append(blanks, s);
    assert(trim(s) =~= s);
}

/// A single factor is a single term, and a single term is a formula.
pub proof fn lemma_single_factor_is_formula(s: Seq<char>)
    ensures
        single_factor(s) ==> single_term(s) && term(trim(s)) == factor(trim(s)),
        single_term(s) ==> outcome(s) == Outcome::Value(term(trim(s))->Matched_value),
{
}

/// Whitespace before a text changes nothing but the position at which a
/// failure is reported.
pub proof fn lemma_leading_whitespace(blanks: Seq<char>, s: Seq<char>)
    requires
        blank(blanks),
    ensures
        expression(blanks + s) == expression(s),
        outcome(blanks + s) == match outcome(s) {
            Outcome::Syntax { position, expected, remainder } => Outcome::Syntax {
                position: position + blanks.len(),
                expected,
                remainder,
            },
            other => other,
        },
{
    lemma_blank_run(blanks);
    lemma_trim_append(blanks, s);
    lemma_expression_consumes(s);
}

/// Whitespace behind a formula changes nothing.
pub proof fn lemma_trailing_whitespace(s: Seq<char>, blanks: Seq<char>)
    requires
        outcome(s) is Value,
        blank(blanks),
    ensures
        outcome(s + blanks) == outcome(s),
{
    lemma_blank_run(blanks);
    lemma_expression_append(s, blanks);
}

/// A formula in parentheses is a single factor with the formula's tree,
/// whatever operators the formula holds.
pub proof fn lemma_parentheses_make_a_factor(s: Seq<char>)
    requires
        outcome(s) is Value,
    ensures
        single_factor(seq!['('] + s + seq![')']),
        outcome(seq!['('] + s + seq![')']) == outcome(s),
{
    let closing = seq![')'];
    let group = seq!['('] + s + closing;
    assert(trim(group) =~= group);
    assert(group.skip(1) =~= s + closing);
    assert(trim(closing.skip(1)).len() == 0) by {
        lemma_space_run_bound(closing.skip(1));
    }
    lemma_expression_append(s, closing);
    lemma_single_factor_is_formula(group);
}

/// A formula, then `+` or `-`, then a term, is the formula that applies
/// the operator to the two: whatever the left side holds is evaluated
/// before the operator is applied to it.
///
/// The right side has to be a single term.  A sum on the right would be
/// taken apart, since operators of one rank apply from left to right.
pub proof fn lemma_additive_composition(a: Seq<char>, op: char, b: Seq<char>)
    requires
        additive(op) is Some,
        outcome(a) is Value,
        single_term(b),
    ensures
        outcome(a + seq![op] + b) == Outcome::Value(
            applied(additive(op)->0, outcome(a)->Value_0, outcome(b)->Value_0),
        ),
{
    let y = seq![op] + b;
    assert(a + seq![op] + b =~= a + y);
    assert(trim(y) =~= y);
    assert(y.skip(1) =~= b);
    lemma_space_run_bound(b);
    lemma_expression_append(a, y);
    lemma_single_factor_is_formula(b);
    let joined = applied(additive(op)->0, outcome(a)->Value_0, outcome(b)->Value_0);
    assert(more_terms(outcome(a)->Value_0, y) == more_terms(joined, term(trim(b))->Matched_rest));
}

/// A term, then `*` or `/`, then a factor, is the term that applies the
/// operator to the two.  The factor may be anything, a zero behind `/`
/// too: the grammar refuses no division.
///
/// The left side has to be a single term and the right side a single
/// factor.  A sum on the left would keep all but its last term out of
/// the product, and a product on the right would be taken apart.
pub proof fn lemma_multiplicative_composition(a: Seq<char>, op: char, b: Seq<char>)
    requires
        multiplicative(op) is Some,
        single_term(a),
        single_factor(b),
    ensures
        single_term(a + seq![op] + b),
        outcome(a + seq![op] + b) == Outcome::Value(
            applied(multiplicative(op)->0, outcome(a)->Value_0, outcome(b)->Value_0),
        ),
{
    let y = seq![op] + b;
    let whole = a + y;
    assert(a + seq![op] + b =~= whole);
    assert(trim(y) =~= y);
    assert(y.skip(1) =~= b);
    lemma_space_run_bound(a);
    lemma_space_run_bound(b);
    lemma_trim_append(a, y);
    lemma_term_append(trim(a), y);
    lemma_single_factor_is_formula(a);
    lemma_single_factor_is_formula(b);
    let joined = applied(multiplicative(op)->0, outcome(a)->Value_0, outcome(b)->Value_0);
    assert(more_factors(outcome(a)->Value_0, y) == more_factors(
        joined,
        factor(trim(b))->Matched_rest,
    ));
    lemma_single_factor_is_formula(whole);
}

/// An operator that no operand follows is left unread: a formula, then
/// an operator, then a text that no term begins behind `+` or `-`, and
/// no factor behind `*` or `/`, is the formula with the text from the
/// operator on left unread.
pub proof fn lemma_operator_left_unread(a: Seq<char>, op: char, b: Seq<char>)
    requires
        outcome(a) is Value,
        additive(op) is Some && term(trim(b)) is Failed || multiplicative(op) is Some && factor(
            trim(b),
        ) is Failed,
    ensures
        outcome(a + seq![op] + b) == (Outcome::Trailing { remainder: seq![op] + b }),
{
    let y = seq![op] + b;
    assert(a + seq![op] + b =~= a + y);
    assert(trim(y) =~= y);
    assert(y.skip(1) =~= b);
    lemma_expression_append(a, y);
}

/// `*` and `/` apply from left to right: in `a * b / c` the second
/// operator applies to what the first one gave.
pub proof fn lemma_products_left_to_right(
    a: Seq<char>,
    first: char,
    b: Seq<char>,
    second: char,
    c: Seq<char>,
)
    requires
        multiplicative(first) is Some,
        multiplicative(second) is Some,
        single_term(a),
        single_factor(b),
        single_factor(c),
    ensures
        outcome(a + seq![first] + b + seq![second] + c) == Outcome::Value(
            applied(
                multiplicative(second)->0,
                applied(multiplicative(first)->0, outcome(a)->Value_0, outcome(b)->Value_0),
                outcome(c)->Value_0,
            ),
        ),
{
    lemma_multiplicative_composition(a, first, b);
    lemma_single_factor_is_formula(a + seq![first] + b);
    lemma_multiplicative_composition(a + seq![first] + b, second, c);
}

/// `+` and `-` apply from left to right: in `a + b - c` the second
/// operator applies to what the first one gave.
pub proof fn lemma_sums_left_to_right(a: Seq<char>, first: char, b: Seq<char>, second: char, c: Seq<char>)
    requires
        additive(first) is Some,
        additive(second) is Some,
        outcome(a) is Value,
        single_term(b),
        single_term(c),
    ensures
        outcome(a + seq![first] + b + seq![second] + c) == Outcome::Value(
            applied(
                additive(second)->0,
                applied(additive(first)->0, outcome(a)->Value_0, outcome(b)->Value_0),
                outcome(c)->Value_0,
            ),
        ),
{
    lemma_single_factor_is_formula(b);
    lemma_additive_composition(a, first, b);
    lemma_additive_composition(a + seq![first] + b, second, c);
}

/// `*` and `/` bind tighter than `+` and `-`: in `a + b * c` the product
/// is taken first, though it stands last.
pub proof fn lemma_product_binds_tighter(
    a: Seq<char>,
    plus: char,
    b: Seq<char>,
    times: char,
    c: Seq<char>,
)
    requires
        additive(plus) is Some,
        multiplicative(times) is Some,
        outcome(a) is Value,
        single_term(b),
        single_factor(c),
    ensures
        outcome(a + seq![plus] + b + seq![times] + c) == Outcome::Value(
            applied(
                additive(plus)->0,
                outcome(a)->Value_0,
                applied(multiplicative(times)->0, outcome(b)->Value_0, outcome(c)->Value_0),
            ),
        ),
{
    let right = b + seq![times] + c;
    lemma_multiplicative_composition(b, times, c);
    lemma_additive_composition(a, plus, right);
    assert(a + seq![plus] + b + seq![times] + c =~= a + seq![plus] + right);
}

} // verus!
