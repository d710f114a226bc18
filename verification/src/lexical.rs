//! Character classes of the formula grammar and the runs they form.

use vstd::prelude::*;

verus! {

/// The characters that may separate tokens: those with the Unicode
/// property `White_Space`.
pub open spec fn is_space(c: char) -> bool {
    let u = c as u32;
    ||| 0x09 <= u <= 0x0D
    ||| u == 0x20
    ||| u == 0x85
    ||| u == 0xA0
    ||| u == 0x1680
    ||| 0x2000 <= u <= 0x200A
    ||| u == 0x2028
    ||| u == 0x2029
    ||| u == 0x202F
    ||| u == 0x205F
    ||| u == 0x3000
}

/// The ten decimal digits `'0'` to `'9'`.
pub open spec fn is_digit(c: char) -> bool {
    '0' <= c <= '9'
}

/// The number that a decimal digit stands for.
pub open spec fn digit_value(c: char) -> u8
    recommends
        is_digit(c),
{
    (c as u32 - '0' as u32) as u8
}

/// How many whitespace characters `s` begins with.
pub open spec fn space_run(s: Seq<char>) -> nat
    decreases s.len(),
{
    if s.len() > 0 && is_space(s[0]) {
        1 + space_run(s.skip(1))
    } else {
        0
    }
}

/// How many decimal digits `s` begins with.
pub open spec fn digit_run(s: Seq<char>) -> nat
    decreases s.len(),
{
    if s.len() > 0 && is_digit(s[0]) {
        1 + digit_run(s.skip(1))
    } else {
        0
    }
}

/// `s` without the whitespace it begins with.
pub open spec fn trim(s: Seq<char>) -> Seq<char> {
    s.skip(space_run(s) as int)
}

/// The numbers that a sequence of decimal digits stands for, one by one.
pub open spec fn digits(s: Seq<char>) -> Seq<u8> {
    s.map_values(|c: char| digit_value(c))
}

/// A run of whitespace is part of the sequence it begins.
pub proof fn lemma_space_run_bound(s: Seq<char>)
    ensures
        space_run(s) <= s.len(),
        trim(s).len() == s.len() - space_run(s),
    decreases s.len(),
{
    if s.len() > 0 && is_space(s[0]) {
        lemma_space_run_bound(s.skip(1));
    }
}

/// A run of digits is part of the sequence it begins.
pub proof fn lemma_digit_run_bound(s: Seq<char>)
    ensures
        digit_run(s) <= s.len(),
    decreases s.len(),
{
    if s.len() > 0 && is_digit(s[0]) {
        lemma_digit_run_bound(s.skip(1));
    }
}

/// Tells whether `c` separates tokens.
pub fn space_char(c: char) -> (b: bool)
    ensures
        b == is_space(c),
{
    let u: u32 = c as u32;
    (0x09 <= u && u <= 0x0D) || u == 0x20 || u == 0x85 || u == 0xA0 || u == 0x1680 || (0x2000 <= u
        && u <= 0x200A) || u == 0x2028 || u == 0x2029 || u == 0x202F || u == 0x205F || u == 0x3000
}

/// Tells whether `c` is a decimal digit.
pub fn digit_char(c: char) -> (b: bool)
    ensures
        b == is_digit(c),
{
    '0' <= c && c <= '9'
}

/// The value of the decimal digit `c`.
pub(crate) fn digit_of(c: char) -> (d: u8)
    requires
        is_digit(c),
    ensures
        d == digit_value(c),
        d <= 9,
{
    (c as u32 - '0' as u32) as u8
}

} // verus!
