//! Small text utilities shared by the lexer and the code generator:
//! decimal rendering of integers, decimal digit-run evaluation, character
//! repetition, and conversions between character vectors and `String`.

use vstd::prelude::*;

use crate::char_utils;
use vstd::string::StrSliceExecFns;
use vstd::string::StringExecFns;

verus! {

/// The character for a single decimal digit.
pub open spec fn spec_digit_char(d: int) -> char {
    if d == 0 {
        '0'
    } else if d == 1 {
        '1'
    } else if d == 2 {
        '2'
    } else if d == 3 {
        '3'
    } else if d == 4 {
        '4'
    } else if d == 5 {
        '5'
    } else if d == 6 {
        '6'
    } else if d == 7 {
        '7'
    } else if d == 8 {
        '8'
    } else {
        '9'
    }
}

fn digit_char(d: u32) -> (c: char)
    requires
        d < 10,
    ensures
        c == spec_digit_char(d as int),
{
    if d == 0 {
        '0'
    } else if d == 1 {
        '1'
    } else if d == 2 {
        '2'
    } else if d == 3 {
        '3'
    } else if d == 4 {
        '4'
    } else if d == 5 {
        '5'
    } else if d == 6 {
        '6'
    } else if d == 7 {
        '7'
    } else if d == 8 {
        '8'
    } else {
        '9'
    }
}

/// Decimal rendering of a non-negative integer, most significant digit
/// first, with no leading zeros (a single `'0'` for zero).
pub open spec fn spec_dec_digits(n: int) -> Seq<char>
    decreases n,
{
    if n < 10 {
        seq![spec_digit_char(n)]
    } else {
        spec_dec_digits(n / 10).push(spec_digit_char(n % 10))
    }
}

/// Decimal rendering of a signed integer: a leading `'-'` for negatives.
pub open spec fn spec_dec_int(n: int) -> Seq<char> {
    if n < 0 {
        seq!['-'] + spec_dec_digits(-n)
    } else {
        spec_dec_digits(n)
    }
}

/// The numeric value of one decimal digit character.
pub open spec fn spec_digit_val(c: char) -> int {
    c as u32 - 0x30
}

/// The numeric value of a run of decimal digit characters.
pub open spec fn spec_digits_val(s: Seq<char>) -> int
    decreases s.len(),
{
    if s.len() == 0 {
        0
    } else {
        10 * spec_digits_val(s.drop_last()) + spec_digit_val(s.last())
    }
}

/// A digit run has a non-negative value.
pub proof fn lemma_digits_val_nonneg(s: Seq<char>)
    requires
        forall|i: int| 0 <= i < s.len() ==> char_utils::spec_is_digit(#[trigger] s[i]),
    ensures
        spec_digits_val(s) >= 0,
    decreases s.len(),
{
    if s.len() > 0 {
        lemma_digits_val_nonneg(s.drop_last());
    }
}

/// Extending a digit run can only grow its value.
pub proof fn lemma_digits_val_prefix_le(s: Seq<char>, k: int)
    requires
        0 <= k <= s.len(),
        forall|i: int| 0 <= i < s.len() ==> char_utils::spec_is_digit(#[trigger] s[i]),
    ensures
        spec_digits_val(s.subrange(0, k)) <= spec_digits_val(s),
    decreases s.len() - k,
{
    if k < s.len() {
        let t = s.subrange(0, k + 1);
        assert(t.drop_last() =~= s.subrange(0, k));
        lemma_digits_val_nonneg(s.subrange(0, k));
        lemma_digits_val_prefix_le(s, k + 1);
    } else {
        assert(s.subrange(0, k) =~= s);
    }
}

/// A sequence holding `n` copies of one character.
pub open spec fn spec_char_repeat(c: char, n: int) -> Seq<char> {
    Seq::new(n as nat, |i: int| c)
}

/// Relies on `String: FromIterator<char>` through `Iterator::collect`: the
/// resulting string holds exactly the characters of the vector, in order.
#[verifier::external_body]
pub fn chars_to_string(v: &Vec<char>) -> (r: String)
    ensures
        r@ == v@,
{
    v.iter().collect()
}

/// The characters of a string slice, in order, as a vector.
pub fn str_to_chars(s: &str) -> (v: Vec<char>)
    ensures
        v@ == s@,
{
    let n = s.unicode_len();
    let mut v: Vec<char> = Vec::new();
    let mut i: usize = 0;
    while i < n
        invariant
            n == s@.len(),
            i <= n,
            v@ =~= s@.subrange(0, i as int),
        decreases n - i,
    {
        v.push(s.get_char(i));
        i = i + 1;
    }
    assert(v@ =~= s@);
    v
}

/// Renders a `u64` in decimal.
pub fn u64_to_string(n: u64) -> (r: String)
    ensures
        r@ == spec_dec_digits(n as int),
{
    let mut digits: Vec<char> = Vec::new();
    let mut m: u64 = n;
    while m >= 10
        invariant
            spec_dec_digits(n as int) =~= spec_dec_digits(m as int) + digits@,
        decreases m,
    {
        digits.insert(0, digit_char((m % 10) as u32));
        m = m / 10;
    }
    digits.insert(0, digit_char(m as u32));
    assert(digits@ =~= spec_dec_digits(n as int));
    chars_to_string(&digits)
}

/// Renders an `i32` in decimal, with a leading minus sign when negative.
pub fn i32_to_string(n: i32) -> (r: String)
    ensures
        r@ == spec_dec_int(n as int),
{
    if n >= 0 {
        u64_to_string(n as u64)
    } else {
        let m: u64 = (-(n as i64)) as u64;
        let mut r = String::new();
        r.append("-");
        let ds = u64_to_string(m);
        r.append(ds.as_str());
        proof {
            reveal_strlit("-");
            assert(r@ =~= spec_dec_int(n as int));
        }
        r
    }
}

/// Renders a `u32` in decimal.
pub fn u32_to_string(n: u32) -> (r: String)
    ensures
        r@ == spec_dec_digits(n as int),
{
    u64_to_string(n as u64)
}

/// Renders a `usize` in decimal.
pub fn usize_to_string(n: usize) -> (r: String)
    ensures
        r@ == spec_dec_digits(n as int),
{
    u64_to_string(n as u64)
}

/// A string of `n` copies of one character.
pub fn char_repeat(c: char, n: usize) -> (r: String)
    ensures
        r@ == spec_char_repeat(c, n as int),
{
    let mut v: Vec<char> = Vec::new();
    let mut i: usize = 0;
    while i < n
        invariant
            i <= n,
            v@ =~= spec_char_repeat(c, i as int),
        decreases n - i,
    {
        v.push(c);
        i = i + 1;
    }
    chars_to_string(&v)
}

/// Evaluates the decimal digit run `chars[start..end]` as a 32-bit signed
/// integer; `None` exactly when the value exceeds `i32::MAX`.
pub fn parse_digits(chars: &Vec<char>, start: usize, end: usize) -> (r: Option<i32>)
    requires
        start < end <= chars@.len(),
        forall|i: int|
            start <= i < end ==> char_utils::spec_is_digit(#[trigger] chars@[i]),
    ensures
        ({
            let v = spec_digits_val(chars@.subrange(start as int, end as int));
            match r {
                Some(x) => x as int == v,
                None => v > i32::MAX as int,
            }
        }),
{
    let ghost run = chars@.subrange(start as int, end as int);
    let mut acc: u64 = 0;
    let mut i: usize = start;
    while i < end
        invariant
            start <= i <= end <= chars@.len(),
            run == chars@.subrange(start as int, end as int),
            forall|j: int|
                start <= j < end ==> char_utils::spec_is_digit(#[trigger] chars@[j]),
            acc as int == spec_digits_val(run.subrange(0, i - start)),
            acc <= i32::MAX as u64,
        decreases end - i,
    {
        let c = chars[i];
        let d: u64 = (c as u32 - 0x30) as u64;
        proof {
            assert(run[i - start] == chars@[i as int]);
        }
        let next: u64 = acc * 10 + d;
        proof {
            let pre = run.subrange(0, i - start);
            let ext = run.subrange(0, i - start + 1);
            assert(ext.drop_last() =~= pre);
            assert(ext.last() == run[i - start]);
        }
        if next > i32::MAX as u64 {
            proof {
                lemma_digits_val_prefix_le(run, i - start + 1);
            }
            return None;
        }
        acc = next;
        i = i + 1;
    }
    proof {
        assert(run.subrange(0, end - start) =~= run);
    }
    Some(acc as i32)
}

} // verus!
