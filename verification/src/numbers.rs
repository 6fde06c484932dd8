//! Signed decimal integers as text: reading them and writing them.

use vstd::prelude::*;
use crate::text::{push_char, to_chars};

verus! {

/// Why a piece of text is not a 32-bit signed decimal integer.
#[derive(Clone, Copy, Debug, PartialEq, Eq, Structural)]
pub enum NumberError {
    /// There is no text at all.
    Empty,
    /// A character that is not a decimal digit, or a sign with nothing after it.
    InvalidDigit,
    /// The digits stand for a number above `i32::MAX`.
    PosOverflow,
    /// The digits stand for a number below `i32::MIN`.
    NegOverflow,
}

/// Whether `c` is one of `0` to `9`.
pub open spec fn is_digit(c: char) -> bool {
    '0' <= c && c <= '9'
}

/// The number that the digit `c` stands for.
pub open spec fn digit_value(c: char) -> int {
    c as int - '0' as int
}

/// The digit that stands for `d`, for `d` from 0 to 9.
pub open spec fn digit_char(d: int) -> char {
    ('0' as int + d) as char
}

/// The number that a run of digits stands for, read in base ten.
pub open spec fn digits_value(s: Seq<char>) -> int
    decreases s.len(),
{
    if s.len() == 0 {
        0
    } else {
        10 * digits_value(s.drop_last()) + digit_value(s.last())
    }
}

/// How many digits stand at the front of `s`.
pub open spec fn digit_run(s: Seq<char>) -> nat
    decreases s.len(),
{
    if s.len() > 0 && is_digit(s[0]) {
        1 + digit_run(s.drop_first())
    } else {
        0
    }
}

/// Whether a number of the given sign and magnitude is an `i32`.
pub open spec fn fits_i32(negative: bool, magnitude: int) -> bool {
    if negative {
        -magnitude >= i32::MIN
    } else {
        magnitude <= i32::MAX
    }
}

/// What the digits after an optional sign stand for. Reading goes from left
/// to right and stops at the first trouble, so a number that has already left
/// the range of `i32` is an overflow whatever follows, and a character that is
/// no digit is reported only if the digits before it are in range.
pub open spec fn read_digits(digits: Seq<char>, negative: bool) -> Result<int, NumberError> {
    let run = digit_run(digits) as int;
    let magnitude = digits_value(digits.take(run));
    if !fits_i32(negative, magnitude) {
        if negative {
            Err(NumberError::NegOverflow)
        } else {
            Err(NumberError::PosOverflow)
        }
    } else if run < digits.len() {
        Err(NumberError::InvalidDigit)
    } else if negative {
        Ok(-magnitude)
    } else {
        Ok(magnitude)
    }
}

/// The 32-bit signed integer that `s` stands for: an optional `+` or `-`, then
/// one or more decimal digits and nothing else, with a value in the range of
/// `i32`. Leading zeros are allowed; spaces and separators are not.
pub open spec fn parse_i32(s: Seq<char>) -> Result<int, NumberError> {
    if s.len() == 0 {
        Err(NumberError::Empty)
    } else if s.len() == 1 && (s[0] == '+' || s[0] == '-') {
        Err(NumberError::InvalidDigit)
    } else if s[0] == '-' {
        read_digits(s.drop_first(), true)
    } else if s[0] == '+' {
        read_digits(s.drop_first(), false)
    } else {
        read_digits(s, false)
    }
}

/// The decimal digits of `n`, without leading zeros.
pub open spec fn digits_of(n: nat) -> Seq<char>
    decreases n,
{
    if n < 10 {
        seq![digit_char(n as int)]
    } else {
        digits_of(n / 10).push(digit_char((n % 10) as int))
    }
}

/// `n` written in base ten, with a `-` in front when it is negative.
pub open spec fn decimal(n: int) -> Seq<char> {
    if n < 0 {
        seq!['-'] + digits_of((-n) as nat)
    } else {
        digits_of(n as nat)
    }
}

/// A run of `k` digits at the front, ended by the end of `s` or by another
/// character, is the whole leading run of digits.
pub proof fn lemma_digit_run_is(s: Seq<char>, k: int)
    requires
        0 <= k <= s.len(),
        forall|i: int| 0 <= i < k ==> is_digit(#[trigger] s[i]),
        k == s.len() || !is_digit(s[k]),
    ensures
        digit_run(s) == k,
    decreases k,
{
    if k > 0 {
        let rest = s.drop_first();
        assert forall|i: int| 0 <= i < k - 1 implies is_digit(#[trigger] rest[i]) by {}
        lemma_digit_run_is(rest, k - 1);
    }
}

/// Reading more digits never gives a smaller number.
pub proof fn lemma_digits_value_grows(s: Seq<char>, k: int, m: int)
    requires
        0 <= k <= m <= s.len(),
        forall|i: int| 0 <= i < m ==> is_digit(#[trigger] s[i]),
    ensures
        0 <= digits_value(s.take(k)) <= digits_value(s.take(m)),
    decreases m - k,
{
    lemma_digits_value_nonnegative(s.take(k));
    if k < m {
        lemma_digits_value_grows(s, k + 1, m);
        assert(s.take(k + 1).drop_last() == s.take(k));
    }
}

/// A run of digits stands for a number that is not negative.
pub proof fn lemma_digits_value_nonnegative(s: Seq<char>)
    requires
        forall|i: int| 0 <= i < s.len() ==> is_digit(#[trigger] s[i]),
    ensures
        0 <= digits_value(s),
    decreases s.len(),
{
    if s.len() > 0 {
        let init = s.drop_last();
        assert forall|i: int| 0 <= i < init.len() implies is_digit(#[trigger] init[i]) by {}
        lemma_digits_value_nonnegative(init);
    }
}

/// The digits that a number is written with are digits, at least one, and
/// they stand for the number.
pub proof fn lemma_digits_of_stand_for(n: nat)
    ensures
        digits_of(n).len() >= 1,
        forall|i: int| 0 <= i < digits_of(n).len() ==> is_digit(#[trigger] digits_of(n)[i]),
        digits_value(digits_of(n)) == n,
    decreases n,
{
    if n < 10 {
        let s = digits_of(n);
        assert(digits_value(s) == 10 * digits_value(s.drop_last()) + digit_value(s.last()));
    } else {
        lemma_digits_of_stand_for(n / 10);
        let init = digits_of(n / 10);
        let last = digit_char((n % 10) as int);
        let s = init.push(last);
        assert(s.drop_last() == init);
        assert forall|i: int| 0 <= i < s.len() implies is_digit(#[trigger] s[i]) by {}
    }
}

/// What is written is read back: every `i32`, written in base ten, is read
/// as the same number.
pub proof fn lemma_decimal_reads_back(n: int)
    requires
        i32::MIN <= n <= i32::MAX,
    ensures
        parse_i32(decimal(n)) == Ok::<int, NumberError>(n),
{
    let magnitude: nat = if n < 0 {
        (-n) as nat
    } else {
        n as nat
    };
    let digits = digits_of(magnitude);
    lemma_digits_of_stand_for(magnitude);
    lemma_digit_run_is(digits, digits.len() as int);
    assert(digits.take(digits.len() as int) == digits);
    if n < 0 {
        let s = decimal(n);
        assert(s.drop_first() == digits);
    }
}

/// Reads the digits `chars[first..]` of a number whose sign is already known.
fn read_digits_from(chars: &Vec<char>, first: usize, negative: bool) -> (r: Result<
    i32,
    NumberError,
>)
    requires
        first <= chars.len(),
    ensures
        match r {
            Ok(v) => read_digits(chars@.skip(first as int), negative) == Ok::<int, NumberError>(
                v as int,
            ),
            Err(e) => read_digits(chars@.skip(first as int), negative) == Err::<int, NumberError>(
                e,
            ),
        },
{
    let ghost digits = chars@.skip(first as int);
    let limit: i64 = if negative {
        2147483648
    } else {
        2147483647
    };
    let mut magnitude: i64 = 0;
    let mut pos: usize = first;
    while pos < chars.len()
        invariant
            first <= pos <= chars.len(),
            digits == chars@.skip(first as int),
            limit == if negative { 2147483648i64 } else { 2147483647i64 },
            forall|i: int| 0 <= i < pos - first ==> is_digit(#[trigger] digits[i]),
            magnitude == digits_value(digits.take(pos - first)),
            0 <= magnitude <= limit,
        decreases chars.len() - pos,
    {
        let c = chars[pos];
        if !(c >= '0' && c <= '9') {
            proof {
                lemma_digit_run_is(digits, pos - first);
            }
            return Err(NumberError::InvalidDigit);
        }
        let digit: i64 = (c as u32 - '0' as u32) as i64;
        let next: i64 = magnitude * 10 + digit;
        proof {
            assert(digits.take(pos - first + 1).drop_last() == digits.take(pos - first));
        }
        if next > limit {
            proof {
                let run = digit_run(digits) as int;
                lemma_digit_run_bounds(digits);
                assert(run >= pos - first + 1);
                lemma_digits_value_grows(digits, pos - first + 1, run);
            }
            return Err(
                if negative {
                    NumberError::NegOverflow
                } else {
                    NumberError::PosOverflow
                },
            );
        }
        magnitude = next;
        pos += 1;
    }
    proof {
        lemma_digit_run_is(digits, digits.len() as int);
    }
    if negative {
        Ok((-magnitude) as i32)
    } else {
        Ok(magnitude as i32)
    }
}

/// What `digit_run` returns: a length within `s`, with digits before it and
/// no digit at it.
pub proof fn lemma_digit_run_bounds(s: Seq<char>)
    ensures
        digit_run(s) <= s.len(),
        forall|i: int| 0 <= i < digit_run(s) ==> is_digit(#[trigger] s[i]),
        digit_run(s) < s.len() ==> !is_digit(s[digit_run(s) as int]),
    decreases s.len(),
{
    if s.len() > 0 && is_digit(s[0]) {
        let rest = s.drop_first();
        lemma_digit_run_bounds(rest);
        assert forall|i: int| 0 <= i < digit_run(s) implies is_digit(#[trigger] s[i]) by {
            if i > 0 {
                assert(s[i] == rest[i - 1]);
            }
        }
    }
}

/// Reads a 32-bit signed decimal integer: an optional sign and then digits
/// only. Every other text is refused, with the reason.
pub fn parse_decimal(s: &str) -> (r: Result<i32, NumberError>)
    ensures
        match r {
            Ok(v) => parse_i32(s@) == Ok::<int, NumberError>(v as int),
            Err(e) => parse_i32(s@) == Err::<int, NumberError>(e),
        },
{
    let chars = to_chars(s);
    if chars.len() == 0 {
        return Err(NumberError::Empty);
    }
    let head = chars[0];
    if chars.len() == 1 && (head == '+' || head == '-') {
        return Err(NumberError::InvalidDigit);
    }
    proof {
        assert(chars@.skip(0) == chars@);
    }
    if head == '-' {
        read_digits_from(&chars, 1, true)
    } else if head == '+' {
        read_digits_from(&chars, 1, false)
    } else {
        read_digits_from(&chars, 0, false)
    }
}

/// Appends the decimal digits of `n` to `out`.
fn push_digits(out: &mut String, n: u64)
    ensures
        final(out)@ == old(out)@ + digits_of(n as nat),
    decreases n,
{
    if n >= 10 {
        push_digits(out, n / 10);
    }
    let digit: u8 = (n % 10) as u8;
    let c: char = (48u8 + digit) as char;
    push_char(out, c);
    proof {
        if n >= 10 {
            assert((old(out)@ + digits_of((n / 10) as nat)).push(c) == old(out)@ + digits_of(
                (n / 10) as nat,
            ).push(c));
        }
    }
}

/// Writes a number that is not negative in base ten.
pub fn to_digits(n: u64) -> (s: String)
    ensures
        s@ == digits_of(n as nat),
{
    let mut s = String::new();
    push_digits(&mut s, n);
    s
}

/// Writes `n` in base ten.
pub fn to_decimal(n: i64) -> (s: String)
    ensures
        s@ == decimal(n as int),
{
    let mut s = String::new();
    if n < 0 {
        push_char(&mut s, '-');
        let magnitude: u64 = (-(n as i128)) as u64;
        push_digits(&mut s, magnitude);
    } else {
        push_digits(&mut s, n as u64);
    }
    s
}

} // verus!
