//! What every rule of the grammar does to its input: it reads from the
//! front, so what it leaves is an end of what it was given, and the
//! literals it reads are well formed.

use vstd::prelude::*;
use crate::grammar::{
    additive, applied, expression, factor, more_factors, more_terms, multiplicative, number, term,
    Parse,
};
use crate::lexical::{digit_run, is_digit, lemma_space_run_bound, trim};
use crate::syntax::Tree;

verus! {

/// `rest` is what a rule left of `s`: an end of `s`, and if the rule
/// accepted something, a shorter one.
pub open spec fn left_of<T>(parse: Parse<T>, s: Seq<char>) -> bool {
    match parse {
        Parse::Matched { rest, .. } => rest.is_suffix_of(s) && rest.len() < s.len(),
        Parse::Failed { rest, .. } => rest.is_suffix_of(s),
    }
}

/// The tree that a rule accepted, if it accepted one, is well formed.
pub open spec fn yields_well_formed(parse: Parse<Tree>) -> bool {
    parse matches Parse::Matched { value, .. } ==> value.well_formed()
}

/// The characters of a run of digits are digits.
pub proof fn lemma_digit_run_digits(s: Seq<char>)
    ensures
        digit_run(s) <= s.len(),
        forall|i: int| 0 <= i < digit_run(s) ==> is_digit(#[trigger] s[i]),
    decreases s.len(),
{
    if s.len() > 0 && is_digit(s[0]) {
        lemma_digit_run_digits(s.skip(1));
        assert forall|i: int| 0 <= i < digit_run(s) implies is_digit(#[trigger] s[i]) by {
            if i > 0 {
                assert(s[i] == s.skip(1)[i - 1]);
            }
        }
    }
}

/// The rule `number` reads from the front of its input, and the literal
/// it accepts is well formed.
pub proof fn lemma_number_consumes(s: Seq<char>)
    ensures
        left_of(number(s), s),
        number(s) matches Parse::Matched { value, .. } ==> value.well_formed(),
{
    let negative = s.len() > 0 && s[0] == '-';
    let body = if negative {
        trim(s.skip(1))
    } else {
        s
    };
    if negative {
        lemma_space_run_bound(s.skip(1));
    }
    lemma_digit_run_digits(body);
    if digit_run(body) > 0 {
        let width = if body[0] == '0' {
            1
        } else {
            digit_run(body)
        };
        lemma_digit_run_digits(body.skip(width as int).skip(1));
    }
}

/// The rule `factor` reads from the front of its input, and what it
/// accepts is well formed.
pub proof fn lemma_factor_consumes(s: Seq<char>)
    ensures
        left_of(factor(s), s),
        yields_well_formed(factor(s)),
    decreases s.len(), 0nat,
{
    if s.len() > 0 && s[0] == '(' {
        lemma_expression_consumes(s.skip(1));
        if let Parse::Matched { rest, .. } = expression(s.skip(1)) {
            lemma_space_run_bound(rest.skip(1));
        }
    } else if s.len() > 0 && (s[0] == '-' || is_digit(s[0])) {
        lemma_number_consumes(s);
        if let Parse::Matched { rest, .. } = number(s) {
            lemma_space_run_bound(rest);
        }
    }
}

/// The factors behind a term's first are read from the front of the
/// input, and with them a well-formed tree stays well formed.
pub proof fn lemma_more_factors_consumes(left: Tree, s: Seq<char>)
    requires
        left.well_formed(),
    ensures
        more_factors(left, s).1.is_suffix_of(s),
        more_factors(left, s).0.well_formed(),
    decreases s.len(), 1nat,
{
    if s.len() > 0 && multiplicative(s[0]) is Some {
        let next = trim(s.skip(1));
        lemma_space_run_bound(s.skip(1));
        lemma_factor_consumes(next);
        if let Parse::Matched { value, rest } = factor(next) {
            lemma_more_factors_consumes(applied(multiplicative(s[0])->0, left, value), rest);
        }
    }
}

/// The rule `term` reads from the front of its input, and what it
/// accepts is well formed.
pub proof fn lemma_term_consumes(s: Seq<char>)
    ensures
        left_of(term(s), s),
        yields_well_formed(term(s)),
    decreases s.len(), 2nat,
{
    lemma_factor_consumes(s);
    if let Parse::Matched { value, rest } = factor(s) {
        lemma_more_factors_consumes(value, rest);
    }
}

/// The terms behind an expression's first are read from the front of
/// the input, and with them a well-formed tree stays well formed.
pub proof fn lemma_more_terms_consumes(left: Tree, s: Seq<char>)
    requires
        left.well_formed(),
    ensures
        more_terms(left, s).1.is_suffix_of(s),
        more_terms(left, s).0.well_formed(),
    decreases s.len(), 3nat,
{
    if s.len() > 0 && additive(s[0]) is Some {
        let next = trim(s.skip(1));
        lemma_space_run_bound(s.skip(1));
        lemma_term_consumes(next);
        if let Parse::Matched { value, rest } = term(next) {
            lemma_more_terms_consumes(applied(additive(s[0])->0, left, value), rest);
        }
    }
}

/// The rule `expression` reads from the front of its input, and what it
/// accepts is well formed.
pub proof fn lemma_expression_consumes(s: Seq<char>)
    ensures
        left_of(expression(s), s),
        yields_well_formed(expression(s)),
    decreases s.len(), 4nat,
{
    lemma_space_run_bound(s);
    lemma_term_consumes(trim(s));
    if let Parse::Matched { value, rest } = term(trim(s)) {
        lemma_more_terms_consumes(value, rest);
    }
}

} // verus!
