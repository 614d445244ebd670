//! Character classifiers used by the lexer.
//!
//! All classification is over Unicode scalar values; the whitespace set is
//! the stable Unicode `White_Space` collection, hard-coded as a fixed table
//! of code points.

use vstd::prelude::*;

verus! {

/// The fixed table of whitespace code points: ASCII control/space range plus
/// the higher whitespace code points.
pub open spec fn spec_lookup(c: char) -> bool {
    let u = c as u32;
    ||| (0x09 <= u && u <= 0x0d)
    ||| u == 0x20
    ||| u == 0x85
    ||| u == 0xa0
    ||| u == 0x1680
    ||| (0x2000 <= u && u <= 0x200a)
    ||| u == 0x2028
    ||| u == 0x2029
    ||| u == 0x202f
    ||| u == 0x205f
    ||| u == 0x3000
}

/// Table membership test for the whitespace code points.
pub fn lookup(c: char) -> (r: bool)
    ensures
        r == spec_lookup(c),
{
    let u = c as u32;
    if u < 0x100 {
        (0x09 <= u && u <= 0x0d) || u == 0x20 || u == 0x85 || u == 0xa0
    } else if u < 0x2000 {
        u == 0x1680
    } else if u <= 0x20ff {
        (0x2000 <= u && u <= 0x200a) || u == 0x2028 || u == 0x2029 || u == 0x202f || u == 0x205f
    } else {
        u == 0x3000
    }
}

/// Whitespace characters: the space and ASCII control range directly, the
/// rest through the fixed table.
pub open spec fn spec_is_whitespace(c: char) -> bool {
    let u = c as u32;
    if u == 0x20 || (0x09 <= u && u <= 0x0d) {
        true
    } else {
        u > 0x7f && spec_lookup(c)
    }
}

pub fn is_whitespace(c: char) -> (r: bool)
    ensures
        r == spec_is_whitespace(c),
{
    let u = c as u32;
    if u == 0x20 || (0x09 <= u && u <= 0x0d) {
        true
    } else {
        u > 0x7f && lookup(c)
    }
}

/// Characters that may continue an identifier: ASCII letters and digits.
pub open spec fn spec_is_identifier_continue(c: char) -> bool {
    let u = c as u32;
    ||| (0x30 <= u && u <= 0x39)
    ||| (0x41 <= u && u <= 0x5a)
    ||| (0x61 <= u && u <= 0x7a)
}

pub fn is_identifier_continue(c: char) -> (r: bool)
    ensures
        r == spec_is_identifier_continue(c),
{
    let u = c as u32;
    (0x30 <= u && u <= 0x39) || (0x41 <= u && u <= 0x5a) || (0x61 <= u && u <= 0x7a)
}

/// ASCII letters, which may start an identifier or keyword.
pub open spec fn spec_is_ascii_alphabetic(c: char) -> bool {
    let u = c as u32;
    (0x41 <= u && u <= 0x5a) || (0x61 <= u && u <= 0x7a)
}

pub fn is_ascii_alphabetic(c: char) -> (r: bool)
    ensures
        r == spec_is_ascii_alphabetic(c),
{
    let u = c as u32;
    (0x41 <= u && u <= 0x5a) || (0x61 <= u && u <= 0x7a)
}

/// ASCII decimal digits.
pub open spec fn spec_is_digit(c: char) -> bool {
    let u = c as u32;
    0x30 <= u && u <= 0x39
}

pub fn is_digit(c: char) -> (r: bool)
    ensures
        r == spec_is_digit(c),
{
    let u = c as u32;
    0x30 <= u && u <= 0x39
}

/// Characters the lexer knows how to start a token from (or skip): used to
/// find the end of an unrecognized run when reporting a lexical error.
pub open spec fn spec_is_expected(c: char) -> bool {
    ||| spec_is_identifier_continue(c)
    ||| spec_is_whitespace(c)
    ||| c == '='
    ||| c == '+'
    ||| c == '-'
    ||| c == '('
    ||| c == ')'
    ||| c == ';'
    ||| c == ','
}

pub fn is_expected(c: char) -> (r: bool)
    ensures
        r == spec_is_expected(c),
{
    is_identifier_continue(c) || is_whitespace(c) || c == '=' || c == '+' || c == '-' || c == '('
        || c == ')' || c == ';' || c == ','
}

} // verus!
