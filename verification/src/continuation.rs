//! What a rule makes of an input that goes on.  The rules look one
//! character ahead, so text put behind an input changes nothing of what
//! a rule read before the place it stopped, as long as it did not stop
//! for want of input.

use vstd::prelude::*;
use crate::consumption::{lemma_factor_consumes, lemma_term_consumes};
use crate::grammar::{
    additive, applied, expression, factor, more_factors, more_terms, multiplicative, number, term,
    Parse,
};
use crate::lexical::{
    digit_run, is_digit, is_space, lemma_digit_run_bound, lemma_space_run_bound, space_run, trim,
};
use crate::syntax::Tree;

verus! {

/// No number goes on into `y`: `y` is empty, or begins with a character
/// that is no digit and no decimal point.
pub open spec fn ends_number(y: Seq<char>) -> bool {
    y.len() > 0 ==> !is_digit(y[0]) && y[0] != '.'
}

/// No run of factors goes on into `y`: `y` does not begin with `*` or
/// `/` and a factor.
pub open spec fn ends_product(y: Seq<char>) -> bool {
    !(y.len() > 0 && multiplicative(y[0]) is Some && factor(trim(y.skip(1))) is Matched)
}

/// A factor that left `rest` stopped at a character of its input, and
/// not at a decimal point that it may yet take up.
pub open spec fn settled(rest: Seq<char>) -> bool {
    rest.len() > 0 && rest[0] != '.'
}

/// A term that left `rest` stopped at a character of its input that
/// neither a number nor a run of factors takes up.
pub open spec fn settled_term(rest: Seq<char>) -> bool {
    settled(rest) && multiplicative(rest[0]) is None
}

/// An expression that left `rest` stopped at a character of its input
/// that no number, no run of factors and no run of terms takes up.
pub open spec fn settled_expression(rest: Seq<char>) -> bool {
    settled_term(rest) && additive(rest[0]) is None
}

/// What is left of `x + y` by a rule that trims what it leaves, when it
/// left `rest` of `x`.
pub open spec fn following(rest: Seq<char>, y: Seq<char>) -> Seq<char> {
    if rest.len() > 0 {
        rest + y
    } else {
        trim(y)
    }
}

/// A tree and what is left of the input, as what a rule accepted.
pub open spec fn accepted(read: (Tree, Seq<char>)) -> Parse<Tree> {
    Parse::Matched { value: read.0, rest: read.1 }
}

/// The beginning of `x + y` is that of `x`.
pub proof fn lemma_append_step(x: Seq<char>, y: Seq<char>)
    requires
        x.len() > 0,
    ensures
        (x + y)[0] == x[0],
        (x + y).skip(1) =~= x.skip(1) + y,
{
}

/// A run of whitespace that ends inside `x` ends there in `x + y` too;
/// one that fills `x` goes on into `y`.
pub proof fn lemma_space_run_append(x: Seq<char>, y: Seq<char>)
    ensures
        space_run(x) <= x.len(),
        space_run(x) < x.len() ==> space_run(x + y) == space_run(x),
        space_run(x) == x.len() ==> space_run(x + y) == x.len() + space_run(y),
    decreases x.len(),
{
    if x.len() > 0 {
        lemma_append_step(x, y);
        if is_space(x[0]) {
            lemma_space_run_append(x.skip(1), y);
        }
    }
}

/// A run of digits that ends inside `x` ends there in `x + y` too; one
/// that fills `x` goes on into `y`.
pub proof fn lemma_digit_run_append(x: Seq<char>, y: Seq<char>)
    ensures
        digit_run(x) <= x.len(),
        digit_run(x) < x.len() ==> digit_run(x + y) == digit_run(x),
        digit_run(x) == x.len() ==> digit_run(x + y) == x.len() + digit_run(y),
    decreases x.len(),
{
    if x.len() > 0 {
        lemma_append_step(x, y);
        if is_digit(x[0]) {
            lemma_digit_run_append(x.skip(1), y);
        }
    }
}

/// Trimming `x + y` trims `x` where something of `x` is left, and goes on
/// to trim `y` where nothing is.
pub proof fn lemma_trim_append(x: Seq<char>, y: Seq<char>)
    ensures
        trim(x).len() > 0 ==> trim(x + y) =~= trim(x) + y,
        trim(x).len() == 0 ==> trim(x + y) =~= trim(y),
{
    lemma_space_run_append(x, y);
    lemma_space_run_bound(y);
}

/// A number that `x` begins with is the number that `x + y` begins with,
/// if it stopped at a character of `x`, or filled `x` and no number goes
/// on into `y`.
pub proof fn lemma_number_append(x: Seq<char>, y: Seq<char>)
    requires
        number(x) is Matched,
        settled(number(x)->Matched_rest) || (number(x)->Matched_rest.len() == 0 && ends_number(y)),
    ensures
        number(x + y) == (Parse::Matched {
            value: number(x)->Matched_value,
            rest: number(x)->Matched_rest + y,
        }),
{
    let whole = x + y;
    let negative = x.len() > 0 && x[0] == '-';
    let body = if negative {
        trim(x.skip(1))
    } else {
        x
    };
    lemma_append_step(x, y);
    lemma_digit_run_bound(body);
    let body2 = if negative {
        trim(whole.skip(1))
    } else {
        whole
    };
    assert(body2 =~= body + y) by {
        if negative {
            lemma_trim_append(x.skip(1), y);
        }
    }
    lemma_append_step(body, y);
    lemma_digit_run_append(body, y);
    let width = if body[0] == '0' {
        1
    } else {
        digit_run(body)
    };
    let tail = body.skip(width as int);
    let places = digit_run(tail.skip(1));
    assert(body2.take(width as int) =~= body.take(width as int));
    let tail2 = body2.skip(width as int);
    assert(tail2 =~= tail + y);
    if tail.len() > 0 {
        lemma_append_step(tail, y);
        lemma_digit_run_bound(tail.skip(1));
        lemma_digit_run_append(tail.skip(1), y);
        if tail[0] == '.' {
            assert(tail2.skip(1).take(places as int) =~= tail.skip(1).take(places as int));
            assert(tail2.skip(1).skip(places as int) =~= tail.skip(1).skip(places as int) + y);
        }
    }
}

/// A factor that `x` begins with is the factor that `x + y` begins with,
/// if it stopped at a character of `x`, or filled `x` and no number goes
/// on into `y`.
pub proof fn lemma_factor_append(x: Seq<char>, y: Seq<char>)
    requires
        factor(x) is Matched,
        settled(factor(x)->Matched_rest) || (factor(x)->Matched_rest.len() == 0 && ends_number(y)),
    ensures
        factor(x + y) == (Parse::Matched {
            value: factor(x)->Matched_value,
            rest: following(factor(x)->Matched_rest, y),
        }),
    decreases x.len(), 0nat,
{
    lemma_append_step(x, y);
    if x[0] == '(' {
        let closing = expression(x.skip(1))->Matched_rest;
        lemma_expression_append(x.skip(1), y);
        lemma_append_step(closing, y);
        lemma_trim_append(closing.skip(1), y);
    } else {
        let left = number(x)->Matched_rest;
        lemma_space_run_bound(left);
        assert(left.len() > 0 ==> left[0] != '.');
        lemma_number_append(x, y);
        lemma_trim_append(left, y);
    }
}

/// The factors behind a term's first that `x` holds are those that
/// `x + y` holds, if the last of them stopped at a character of `x` that
/// no run of factors takes up.  If they fill `x`, the run goes on in
/// `x + y` with what `y` holds.
pub proof fn lemma_more_factors_append(left: Tree, x: Seq<char>, y: Seq<char>)
    ensures
        settled_term(more_factors(left, x).1) ==> more_factors(left, following(x, y)) == (
            more_factors(left, x).0,
            more_factors(left, x).1 + y,
        ),
        more_factors(left, x).1.len() == 0 && ends_number(y) ==> more_factors(
            left,
            following(x, y),
        ) == more_factors(more_factors(left, x).0, trim(y)),
    decreases x.len(), 1nat,
{
    if x.len() > 0 && multiplicative(x[0]) is Some {
        let next = trim(x.skip(1));
        lemma_append_step(x, y);
        lemma_space_run_bound(x.skip(1));
        lemma_trim_append(x.skip(1), y);
        lemma_factor_consumes(next);
        if let Parse::Matched { value, rest } = factor(next) {
            let joined = applied(multiplicative(x[0])->0, left, value);
            let last = more_factors(joined, rest).1;
            if settled_term(last) || (last.len() == 0 && ends_number(y)) {
                lemma_factor_append(next, y);
                lemma_space_run_bound(y);
                lemma_more_factors_append(joined, rest, y);
            }
        }
    } else if x.len() > 0 {
        lemma_append_step(x, y);
    }
}

/// A term that `x` begins with is the term that `x + y` begins with, if
/// it stopped at a character of `x` that no run of factors takes up.  If
/// it fills `x`, it goes on in `x + y` with what `y` holds, if no number
/// goes on into `y`.
pub proof fn lemma_term_append(x: Seq<char>, y: Seq<char>)
    requires
        term(x) is Matched,
    ensures
        settled_term(term(x)->Matched_rest) ==> term(x + y) == (Parse::Matched {
            value: term(x)->Matched_value,
            rest: term(x)->Matched_rest + y,
        }),
        term(x)->Matched_rest.len() == 0 && ends_number(y) ==> term(x + y) == accepted(
            more_factors(term(x)->Matched_value, trim(y)),
        ),
    decreases x.len(), 2nat,
{
    lemma_factor_consumes(x);
    let value = factor(x)->Matched_value;
    let rest = factor(x)->Matched_rest;
    let last = term(x)->Matched_rest;
    if settled_term(last) || (last.len() == 0 && ends_number(y)) {
        lemma_factor_append(x, y);
        lemma_space_run_bound(y);
        lemma_more_factors_append(value, rest, y);
    }
}

/// The terms behind an expression's first that `x` holds are those that
/// `x + y` holds, if the last of them stopped at a character of `x` that
/// no run of terms takes up.  If they fill `x`, the run goes on in
/// `x + y` with what `y` holds.
pub proof fn lemma_more_terms_append(left: Tree, x: Seq<char>, y: Seq<char>)
    ensures
        settled_expression(more_terms(left, x).1) ==> more_terms(left, following(x, y)) == (
            more_terms(left, x).0,
            more_terms(left, x).1 + y,
        ),
        more_terms(left, x).1.len() == 0 && ends_number(y) && ends_product(trim(y)) ==> more_terms(
            left,
            following(x, y),
        ) == more_terms(more_terms(left, x).0, trim(y)),
    decreases x.len(), 3nat,
{
    if x.len() > 0 && additive(x[0]) is Some {
        let next = trim(x.skip(1));
        lemma_append_step(x, y);
        lemma_space_run_bound(x.skip(1));
        lemma_trim_append(x.skip(1), y);
        lemma_term_consumes(next);
        if let Parse::Matched { value, rest } = term(next) {
            let joined = applied(additive(x[0])->0, left, value);
            let last = more_terms(joined, rest).1;
            if settled_expression(last) || (last.len() == 0 && ends_number(y) && ends_product(
                trim(y),
            )) {
                lemma_term_append(next, y);
                lemma_space_run_bound(y);
                lemma_more_terms_append(joined, rest, y);
            }
        }
    } else if x.len() > 0 {
        lemma_append_step(x, y);
    }
}

/// An expression that `x` begins with is the expression that `x + y`
/// begins with, if it stopped at a character of `x` that no run of terms
/// takes up.  If it fills `x`, it goes on in `x + y` with what `y`
/// holds, if neither a number nor a run of factors goes on into `y`.
pub proof fn lemma_expression_append(x: Seq<char>, y: Seq<char>)
    requires
        expression(x) is Matched,
    ensures
        settled_expression(expression(x)->Matched_rest) ==> expression(x + y) == (Parse::Matched {
            value: expression(x)->Matched_value,
            rest: expression(x)->Matched_rest + y,
        }),
        expression(x)->Matched_rest.len() == 0 && ends_number(y) && ends_product(trim(y))
            ==> expression(x + y) == accepted(more_terms(expression(x)->Matched_value, trim(y))),
    decreases x.len(), 4nat,
{
    let start = trim(x);
    lemma_space_run_bound(x);
    lemma_trim_append(x, y);
    lemma_term_consumes(start);
    let value = term(start)->Matched_value;
    let rest = term(start)->Matched_rest;
    let last = expression(x)->Matched_rest;
    if settled_expression(last) || (last.len() == 0 && ends_number(y) && ends_product(trim(y))) {
        lemma_term_append(start, y);
        lemma_space_run_bound(y);
        lemma_more_terms_append(value, rest, y);
    }
}

} // verus!
