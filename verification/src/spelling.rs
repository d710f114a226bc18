//! How a formula is spelled: its tokens, and the whitespace that may
//! stand between them.  Every spelling of a tree is read as that tree,
//! so whitespace between tokens never matters.

use vstd::prelude::*;
use crate::consumption::{lemma_digit_run_digits, lemma_factor_consumes, lemma_term_consumes};
use crate::continuation::{lemma_digit_run_append, lemma_factor_append, lemma_trim_append};
use crate::grammar::{
    additive, applied, expression, factor, more_factors, more_terms, multiplicative, number,
    outcome, term, Outcome, Parse,
};
use crate::laws::{
    blank, lemma_additive_composition, lemma_blank_run, lemma_leading_whitespace,
    lemma_multiplicative_composition, lemma_parentheses_make_a_factor,
    lemma_single_factor_is_formula, single_factor, single_term,
};
use crate::lexical::{digit_run, digits, is_digit, is_space, space_run, trim};
use crate::syntax::{Decimal, Operator, Tree};

verus! {

/// A formula as it is spelled, without whitespace before it.  Whitespace
/// may stand behind a sign, behind an operator, behind either
/// parenthesis and behind a number.
pub enum Phrase {
    /// A number: the sign with the whitespace behind it, the digits
    /// before and after the point, and the whitespace behind the number.
    /// Without digits after the point there is no point.
    Number { negative: bool, gap: Seq<char>, integer: Seq<char>, fraction: Seq<char>, after: Seq<char> },
    /// A formula in parentheses, with the whitespace behind each of them.
    Group { gap: Seq<char>, inner: Box<Phrase>, after: Seq<char> },
    /// Two formulas with an operator between them and the whitespace
    /// behind the operator.
    Binary { left: Box<Phrase>, op: char, gap: Seq<char>, right: Box<Phrase> },
}

/// Every character of `s` is a decimal digit.
pub open spec fn numeric(s: Seq<char>) -> bool {
    forall|i: int| 0 <= i < s.len() ==> is_digit(#[trigger] s[i])
}

/// The operator that `c` writes.
pub open spec fn operator_of(c: char) -> Operator {
    if additive(c) is Some {
        additive(c)->0
    } else {
        multiplicative(c)->0
    }
}

impl Phrase {
    /// The phrase is a factor: a number or a group.
    pub open spec fn is_factor(self) -> bool {
        self is Number || self is Group
    }

    /// The phrase is a term: a factor, or a term, `*` or `/`, and a
    /// factor.
    pub open spec fn is_term(self) -> bool {
        self.is_factor() || (self matches Phrase::Binary { op, .. } && multiplicative(op) is Some)
    }

    /// The phrase follows the grammar: what stands between tokens is
    /// whitespace, numbers are written as the grammar has them, and
    /// each operator has operands of its rank.
    pub open spec fn valid(self) -> bool
        decreases self,
    {
        match self {
            Phrase::Number { negative, gap, integer, fraction, after } => {
                &&& blank(gap)
                &&& blank(after)
                &&& numeric(integer)
                &&& numeric(fraction)
                &&& integer.len() >= 1
                &&& integer.len() > 1 ==> integer[0] != '0'
            },
            Phrase::Group { gap, inner, after } => blank(gap) && blank(after) && inner.valid(),
            Phrase::Binary { left, op, gap, right } => {
                &&& blank(gap)
                &&& left.valid()
                &&& right.valid()
                &&& additive(op) is Some && right.is_term() || multiplicative(op) is Some
                    && left.is_term() && right.is_factor()
            },
        }
    }

    /// The characters of the phrase.
    pub open spec fn text(self) -> Seq<char>
        decreases self,
    {
        match self {
            Phrase::Number { negative, gap, integer, fraction, after } => {
                let sign = if negative { seq!['-'] + gap } else { Seq::empty() };
                let point = if fraction.len() > 0 { seq!['.'] + fraction } else { Seq::empty() };
                sign + integer + point + after
            },
            Phrase::Group { gap, inner, after } => seq!['('] + gap + inner.text() + seq![')'] + after,
            Phrase::Binary { left, op, gap, right } => left.text() + seq![op] + gap + right.text(),
        }
    }

    /// The tree that the phrase spells.
    pub open spec fn tree(self) -> Tree
        decreases self,
    {
        match self {
            Phrase::Number { negative, gap, integer, fraction, after } => Tree::Number(
                Decimal { negative, integer: digits(integer), fraction: digits(fraction) },
            ),
            Phrase::Group { gap, inner, after } => inner.tree(),
            Phrase::Binary { left, op, gap, right } => applied(
                operator_of(op),
                left.tree(),
                right.tree(),
            ),
        }
    }

    /// The two phrases have the same tokens in the same places; the
    /// whitespace between them may differ.
    pub open spec fn same_tokens(self, other: Phrase) -> bool
        decreases self,
    {
        match (self, other) {
            (
                Phrase::Number { negative, integer, fraction, .. },
                Phrase::Number { negative: negative2, integer: integer2, fraction: fraction2, .. },
            ) => negative == negative2 && integer == integer2 && fraction == fraction2,
            (Phrase::Group { inner, .. }, Phrase::Group { inner: inner2, .. }) => inner.same_tokens(
                *inner2,
            ),
            (
                Phrase::Binary { left, op, right, .. },
                Phrase::Binary { left: left2, op: op2, right: right2, .. },
            ) => op == op2 && left.same_tokens(*left2) && right.same_tokens(*right2),
            _ => false,
        }
    }
}

/// A text that is all digits is one run of digits.
pub proof fn lemma_numeric_run(s: Seq<char>)
    requires
        numeric(s),
    ensures
        digit_run(s) == s.len(),
    decreases s.len(),
{
    if s.len() > 0 {
        assert(numeric(s.skip(1)));
        lemma_numeric_run(s.skip(1));
    }
}

/// A number as it is spelled is read as a single factor, with the digits
/// it is spelled with.
pub proof fn lemma_number_read(
    negative: bool,
    gap: Seq<char>,
    integer: Seq<char>,
    fraction: Seq<char>,
    after: Seq<char>,
)
    requires
        (Phrase::Number { negative, gap, integer, fraction, after }).valid(),
    ensures
        factor((Phrase::Number { negative, gap, integer, fraction, after }).text()) == (
        Parse::Matched {
            value: (Phrase::Number { negative, gap, integer, fraction, after }).tree(),
            rest: Seq::<char>::empty(),
        }),
{
    let phrase = Phrase::Number { negative, gap, integer, fraction, after };
    let s = phrase.text();
    let point = if fraction.len() > 0 {
        seq!['.'] + fraction
    } else {
        Seq::empty()
    };
    let tail = point + after;
    let body = integer + tail;
    assert(is_digit(integer[0]));
    lemma_blank_run(gap);
    lemma_blank_run(after);
    if negative {
        assert(s.skip(1) =~= gap + body);
        lemma_trim_append(gap, body);
        assert(trim(body) =~= body);
    } else {
        assert(s =~= body);
    }
    lemma_numeric_run(integer);
    lemma_digit_run_append(integer, tail);
    assert(digit_run(tail) == 0);
    assert(body.take(integer.len() as int) =~= integer);
    assert(body.skip(integer.len() as int) =~= tail);
    if fraction.len() > 0 {
        assert(tail.skip(1) =~= fraction + after);
        lemma_numeric_run(fraction);
        lemma_digit_run_append(fraction, after);
        assert(tail.skip(1).take(fraction.len() as int) =~= fraction);
        assert(tail.skip(1).skip(fraction.len() as int) =~= after);
    } else {
        assert(digits(fraction) =~= Seq::<u8>::empty());
    }
    assert(number(s) == (Parse::Matched {
        value: Decimal { negative, integer: digits(integer), fraction: digits(fraction) },
        rest: after,
    }));
    assert(trim(after) =~= Seq::<char>::empty());
}

/// A phrase begins with a token, not with whitespace.
pub proof fn lemma_phrase_begins(phrase: Phrase)
    requires
        phrase.valid(),
    ensures
        phrase.text().len() > 0,
        !is_space(phrase.text()[0]),
        trim(phrase.text()) =~= phrase.text(),
    decreases phrase,
{
    match phrase {
        Phrase::Number { negative, gap, integer, fraction, after } => {
            let first = phrase.text()[0];
        },
        Phrase::Group { gap, inner, after } => {
        },
        Phrase::Binary { left, op, gap, right } => {
            lemma_phrase_begins(*left);
            assert(phrase.text()[0] == left.text()[0]);
        },
    }
}

/// Every spelling of a tree is read as that tree: a factor as a single
/// factor, a term as a single term, and every phrase as a formula.
pub proof fn lemma_phrase_read(phrase: Phrase)
    requires
        phrase.valid(),
    ensures
        phrase.is_factor() ==> single_factor(phrase.text()),
        phrase.is_term() ==> single_term(phrase.text()),
        outcome(phrase.text()) == Outcome::Value(phrase.tree()),
    decreases phrase,
{
    let s = phrase.text();
    lemma_phrase_begins(phrase);
    match phrase {
        Phrase::Number { negative, gap, integer, fraction, after } => {
            lemma_number_read(negative, gap, integer, fraction, after);
            lemma_single_factor_is_formula(s);
        },
        Phrase::Group { gap, inner, after } => {
            let within = gap + inner.text();
            let group = seq!['('] + within + seq![')'];
            lemma_phrase_read(*inner);
            lemma_leading_whitespace(gap, inner.text());
            lemma_parentheses_make_a_factor(within);
            lemma_single_factor_is_formula(group);
            assert(trim(group) =~= group);
            lemma_blank_run(after);
            lemma_factor_append(group, after);
            assert(s =~= group + after);
            lemma_single_factor_is_formula(s);
        },
        Phrase::Binary { left, op, gap, right } => {
            let a = left.text();
            let b = gap + right.text();
            lemma_phrase_read(*left);
            lemma_phrase_read(*right);
            lemma_phrase_begins(*right);
            lemma_blank_run(gap);
            lemma_trim_append(gap, right.text());
            lemma_leading_whitespace(gap, right.text());
            assert(s =~= a + seq![op] + b);
            if additive(op) is Some {
                lemma_additive_composition(a, op, b);
            } else {
                lemma_multiplicative_composition(a, op, b);
            }
        },
    }
}

/// Phrases with the same tokens spell the same tree.
pub proof fn lemma_same_tokens_same_tree(phrase: Phrase, other: Phrase)
    requires
        phrase.same_tokens(other),
    ensures
        phrase.tree() == other.tree(),
    decreases phrase,
{
    match (phrase, other) {
        (Phrase::Group { inner, .. }, Phrase::Group { inner: inner2, .. }) => {
            lemma_same_tokens_same_tree(*inner, *inner2);
        },
        (Phrase::Binary { left, right, .. }, Phrase::Binary { left: left2, right: right2, .. }) => {
            lemma_same_tokens_same_tree(*left, *left2);
            lemma_same_tokens_same_tree(*right, *right2);
        },
        _ => {},
    }
}

/// A formula spelled with any whitespace before it and between its
/// tokens is read as the tree it spells.
pub proof fn lemma_spelling_is_read(lead: Seq<char>, phrase: Phrase)
    requires
        blank(lead),
        phrase.valid(),
    ensures
        outcome(lead + phrase.text()) == Outcome::Value(phrase.tree()),
{
    lemma_phrase_read(phrase);
    lemma_leading_whitespace(lead, phrase.text());
}

/// Whitespace between tokens never matters: two spellings with the same
/// tokens, whatever whitespace stands before them, behind them and at
/// every place between two tokens, are read as the same formula.
pub proof fn lemma_whitespace_between_tokens(
    lead: Seq<char>,
    phrase: Phrase,
    other_lead: Seq<char>,
    other: Phrase,
)
    requires
        blank(lead),
        blank(other_lead),
        phrase.valid(),
        other.valid(),
        phrase.same_tokens(other),
    ensures
        outcome(lead + phrase.text()) == outcome(other_lead + other.text()),
        outcome(lead + phrase.text()) is Value,
{
    lemma_same_tokens_same_tree(phrase, other);
    lemma_spelling_is_read(lead, phrase);
    lemma_spelling_is_read(other_lead, other);
}

/// The characters of a run of whitespace are whitespace.
pub proof fn lemma_space_run_blank(s: Seq<char>)
    ensures
        space_run(s) <= s.len(),
        blank(s.take(space_run(s) as int)),
        s.take(space_run(s) as int) + trim(s) =~= s,
    decreases s.len(),
{
    if s.len() > 0 && is_space(s[0]) {
        lemma_space_run_blank(s.skip(1));
        let run = s.take(space_run(s) as int);
        assert forall|i: int| 0 <= i < run.len() implies is_space(#[trigger] run[i]) by {
            if i > 0 {
                assert(run[i] == s.skip(1).take(space_run(s.skip(1)) as int)[i - 1]);
            }
        }
    }
}

/// What the rule `number` read of `s` is a number as it is spelled,
/// whatever whitespace `after` is put behind it.
pub proof fn lemma_number_spelled(s: Seq<char>, after: Seq<char>) -> (phrase: Phrase)
    requires
        number(s) is Matched,
        blank(after),
    ensures
        phrase is Number,
        phrase.valid(),
        phrase.tree() == Tree::Number(number(s)->Matched_value),
        number(s)->Matched_rest.len() <= s.len(),
        phrase.text() =~= s.take(s.len() - number(s)->Matched_rest.len()) + after,
        s.take(s.len() - number(s)->Matched_rest.len()) + number(s)->Matched_rest =~= s,
{
    let negative = s.len() > 0 && s[0] == '-';
    let body = if negative {
        trim(s.skip(1))
    } else {
        s
    };
    let gap = if negative {
        s.skip(1).take(space_run(s.skip(1)) as int)
    } else {
        Seq::empty()
    };
    if negative {
        lemma_space_run_blank(s.skip(1));
    }
    lemma_digit_run_digits(body);
    let width = if body[0] == '0' {
        1
    } else {
        digit_run(body)
    };
    let integer = body.take(width as int);
    let tail = body.skip(width as int);
    let places = digit_run(tail.skip(1));
    lemma_digit_run_digits(tail.skip(1));
    let pointed = tail.len() > 0 && tail[0] == '.' && places > 0;
    let fraction = if pointed {
        tail.skip(1).take(places as int)
    } else {
        Seq::empty()
    };
    let phrase = Phrase::Number { negative, gap, integer, fraction, after };
    assert(numeric(integer));
    assert(digits(fraction) =~= number(s)->Matched_value.fraction);
    let rest = number(s)->Matched_rest;
    let sign = if negative {
        seq!['-'] + gap
    } else {
        Seq::empty()
    };
    let point = if pointed {
        seq!['.'] + fraction
    } else {
        Seq::empty()
    };
    assert(s =~= sign + integer + point + rest);
    assert(s.take(s.len() - rest.len()) =~= sign + integer + point);
    phrase
}

/// What the rule `factor` made of `s`, as a phrase: the factor that it
/// read and, behind it, what it left.
pub proof fn lemma_factor_spelled(s: Seq<char>) -> (phrase: Phrase)
    requires
        factor(s) is Matched,
    ensures
        phrase.valid(),
        phrase.is_factor(),
        phrase.tree() == factor(s)->Matched_value,
        phrase.text() + factor(s)->Matched_rest =~= s,
    decreases s.len(), 0nat,
{
    if s[0] == '(' {
        let inside = s.skip(1);
        let (gap, inner) = lemma_expression_spelled(inside);
        let closing = expression(inside)->Matched_rest;
        lemma_space_run_blank(closing.skip(1));
        let after = closing.skip(1).take(space_run(closing.skip(1)) as int);
        let phrase = Phrase::Group { gap, inner: Box::new(inner), after };
        assert(phrase.text() + factor(s)->Matched_rest =~= seq!['('] + (gap + inner.text()
            + closing));
        phrase
    } else {
        let unread = number(s)->Matched_rest;
        lemma_space_run_blank(unread);
        let after = unread.take(space_run(unread) as int);
        let phrase = lemma_number_spelled(s, after);
        let read = s.take(s.len() - unread.len());
        assert(phrase.text() + trim(unread) =~= read + (after + trim(unread)));
        phrase
    }
}

/// What the factors behind a term's first add to the phrase of what
/// stands before them.
pub proof fn lemma_more_factors_spelled(left: Phrase, s: Seq<char>) -> (phrase: Phrase)
    requires
        left.valid(),
        left.is_term(),
    ensures
        phrase.valid(),
        phrase.is_term(),
        phrase.tree() == more_factors(left.tree(), s).0,
        phrase.text() + more_factors(left.tree(), s).1 =~= left.text() + s,
    decreases s.len(), 1nat,
{
    if s.len() > 0 && multiplicative(s[0]) is Some {
        let next = trim(s.skip(1));
        lemma_space_run_blank(s.skip(1));
        lemma_factor_consumes(next);
        if let Parse::Matched { value, rest } = factor(next) {
            let right = lemma_factor_spelled(next);
            let gap = s.skip(1).take(space_run(s.skip(1)) as int);
            let joined = Phrase::Binary {
                left: Box::new(left),
                op: s[0],
                gap,
                right: Box::new(right),
            };
            let phrase = lemma_more_factors_spelled(joined, rest);
            assert(s =~= seq![s[0]] + (gap + next));
            assert(joined.text() + rest =~= left.text() + s);
            assert(phrase.text() + more_factors(left.tree(), s).1 =~= joined.text() + rest);
            phrase
        } else {
            left
        }
    } else {
        left
    }
}

/// What the rule `term` made of `s`, as a phrase.
pub proof fn lemma_term_spelled(s: Seq<char>) -> (phrase: Phrase)
    requires
        term(s) is Matched,
    ensures
        phrase.valid(),
        phrase.is_term(),
        phrase.tree() == term(s)->Matched_value,
        phrase.text() + term(s)->Matched_rest =~= s,
    decreases s.len(), 2nat,
{
    lemma_factor_consumes(s);
    let first = lemma_factor_spelled(s);
    lemma_more_factors_spelled(first, factor(s)->Matched_rest)
}

/// What the terms behind an expression's first add to the phrase of
/// what stands before them.
pub proof fn lemma_more_terms_spelled(left: Phrase, s: Seq<char>) -> (phrase: Phrase)
    requires
        left.valid(),
    ensures
        phrase.valid(),
        phrase.tree() == more_terms(left.tree(), s).0,
        phrase.text() + more_terms(left.tree(), s).1 =~= left.text() + s,
    decreases s.len(), 3nat,
{
    if s.len() > 0 && additive(s[0]) is Some {
        let next = trim(s.skip(1));
        lemma_space_run_blank(s.skip(1));
        lemma_term_consumes(next);
        if let Parse::Matched { value, rest } = term(next) {
            let right = lemma_term_spelled(next);
            let gap = s.skip(1).take(space_run(s.skip(1)) as int);
            let joined = Phrase::Binary {
                left: Box::new(left),
                op: s[0],
                gap,
                right: Box::new(right),
            };
            let phrase = lemma_more_terms_spelled(joined, rest);
            assert(s =~= seq![s[0]] + (gap + next));
            assert(joined.text() + rest =~= left.text() + s);
            assert(phrase.text() + more_terms(left.tree(), s).1 =~= joined.text() + rest);
            phrase
        } else {
            left
        }
    } else {
        left
    }
}

/// What the rule `expression` made of `s`, as the whitespace it begins
/// with and a phrase.
pub proof fn lemma_expression_spelled(s: Seq<char>) -> (spelled: (Seq<char>, Phrase))
    requires
        expression(s) is Matched,
    ensures
        blank(spelled.0),
        spelled.1.valid(),
        spelled.1.tree() == expression(s)->Matched_value,
        spelled.0 + spelled.1.text() + expression(s)->Matched_rest =~= s,
    decreases s.len(), 4nat,
{
    lemma_space_run_blank(s);
    lemma_term_consumes(trim(s));
    let lead = s.take(space_run(s) as int);
    let first = lemma_term_spelled(trim(s));
    let phrase = lemma_more_terms_spelled(first, term(trim(s))->Matched_rest);
    assert(lead + phrase.text() + expression(s)->Matched_rest =~= lead + (phrase.text()
        + expression(s)->Matched_rest));
    (lead, phrase)
}

/// Every text that is read as a formula is a spelling of the formula's
/// tree: whitespace, and then a phrase that follows the grammar.
pub proof fn lemma_formula_is_spelled(s: Seq<char>) -> (spelled: (Seq<char>, Phrase))
    requires
        outcome(s) is Value,
    ensures
        blank(spelled.0),
        spelled.1.valid(),
        spelled.1.tree() == outcome(s)->Value_0,
        spelled.0 + spelled.1.text() =~= s,
{
    lemma_expression_spelled(s)
}

/// The text before what is left unread is itself a formula, and the one
/// that was read: where `remainder` follows a formula, the text without
/// it is read as that formula.
pub proof fn lemma_text_before_remainder(s: Seq<char>)
    requires
        outcome(s) is Trailing,
    ensures
        outcome(s.take(s.len() - outcome(s)->Trailing_remainder.len())) == Outcome::Value(
            expression(s)->Matched_value,
        ),
{
    let (lead, phrase) = lemma_expression_spelled(s);
    let rest = expression(s)->Matched_rest;
    lemma_spelling_is_read(lead, phrase);
    assert(s.take(s.len() - rest.len()) =~= lead + phrase.text());
}

} // verus!
