//! Decimal numbers as text: the form in which ids and statuses are shown,
//! and the form in which users type them.

use vstd::prelude::*;
use vstd::string::*;

use crate::text::{chars_of, push_char};

verus! {

/// The character of the digit `d`.
pub open spec fn digit_char(d: int) -> char {
    if d == 0 {
        '0'
    } else if d == 1 {
        '1'
    } else if d == 2 {
        '2'
    } else if d == 3 {
        '3'
    } else if d == 4 {
        '4'
    } else if d == 5 {
        '5'
    } else if d == 6 {
        '6'
    } else if d == 7 {
        '7'
    } else if d == 8 {
        '8'
    } else {
        '9'
    }
}

/// Whether `c` is one of the digits `0` to `9`.
pub open spec fn is_digit(c: char) -> bool {
    0x30 <= c as u32 <= 0x39
}

/// The number that the digit `c` stands for.
pub open spec fn digit_value(c: char) -> int {
    c as u32 - 0x30
}

/// The decimal digits of `n`, without leading zeros.
pub open spec fn decimal(n: nat) -> Seq<char>
    decreases n,
{
    if n < 10 {
        seq![digit_char(n as int)]
    } else {
        decimal(n / 10).push(digit_char((n % 10) as int))
    }
}

/// The decimal form of `n`, with a minus sign where it is negative.
pub open spec fn signed_decimal(n: int) -> Seq<char> {
    if n < 0 {
        seq!['-'] + decimal((-n) as nat)
    } else {
        decimal(n as nat)
    }
}

/// Whether every character of `s` is a digit.
pub open spec fn all_digits(s: Seq<char>) -> bool {
    forall|i: int| 0 <= i < s.len() ==> is_digit(#[trigger] s[i])
}

/// The number that the digits of `s` spell; 0 for no digits.
pub open spec fn digits_value(s: Seq<char>) -> nat
    decreases s.len(),
{
    if s.len() == 0 {
        0
    } else {
        (digits_value(s.drop_last()) * 10 + digit_value(s.last())) as nat
    }
}

/// `s` without a plus sign at its start.
pub open spec fn unsigned_digits(s: Seq<char>) -> Seq<char> {
    if s.len() > 0 && s[0] == '+' {
        s.skip(1)
    } else {
        s
    }
}

/// The number that `s` spells, where it is one that is at most `max`: an
/// optional plus sign, then one digit or more, and nothing else.
pub open spec fn parse_unsigned(s: Seq<char>, max: nat) -> Option<nat> {
    let d = unsigned_digits(s);
    if d.len() == 0 || !all_digits(d) || digits_value(d) > max {
        None
    } else {
        Some(digits_value(d))
    }
}

/// The number that `s` spells, where it is one between `min` and `max`: an
/// optional sign, then one digit or more, and nothing else.
pub open spec fn parse_signed(s: Seq<char>, min: int, max: int) -> Option<int> {
    let negative = s.len() > 0 && s[0] == '-';
    let d = if negative {
        s.skip(1)
    } else {
        unsigned_digits(s)
    };
    let value = if negative {
        -(digits_value(d) as int)
    } else {
        digits_value(d) as int
    };
    if d.len() == 0 || !all_digits(d) || value < min || value > max {
        None
    } else {
        Some(value)
    }
}

/// Reading more digits never makes the number smaller.
pub proof fn lemma_digits_grow(s: Seq<char>, n: int)
    requires
        0 <= n <= s.len(),
        all_digits(s),
    ensures
        digits_value(s.take(n)) <= digits_value(s),
    decreases s.len() - n,
{
    if n < s.len() {
        lemma_digits_grow(s, n + 1);
        assert(s.take(n + 1).drop_last() =~= s.take(n));
        assert(is_digit(s[n]));
        assert(s.take(n + 1).last() == s[n]);
    } else {
        assert(s.take(n) =~= s);
    }
}

/// The character of a digit below 10.
fn digit_of(d: u8) -> (c: char)
    requires
        d < 10,
    ensures
        c == digit_char(d as int),
{
    if d == 0 {
        '0'
    } else if d == 1 {
        '1'
    } else if d == 2 {
        '2'
    } else if d == 3 {
        '3'
    } else if d == 4 {
        '4'
    } else if d == 5 {
        '5'
    } else if d == 6 {
        '6'
    } else if d == 7 {
        '7'
    } else if d == 8 {
        '8'
    } else {
        '9'
    }
}

/// Appends the decimal digits of `n` to `out`.
pub fn push_decimal(out: &mut String, n: u64)
    ensures
        final(out)@ == old(out)@ + decimal(n as nat),
    decreases n,
{
    if n >= 10 {
        push_decimal(out, n / 10);
    }
    let ghost before = out@;
    push_char(out, digit_of((n % 10) as u8));
    proof {
        if n >= 10 {
            assert(out@ =~= old(out)@ + decimal((n / 10) as nat).push(
                digit_char((n % 10) as int),
            ));
        } else {
            assert(out@ =~= old(out)@ + seq![digit_char(n as int)]);
        }
    }
}

/// The decimal form of `n`.
pub fn format_unsigned(n: u64) -> (text: String)
    ensures
        text@ == decimal(n as nat),
{
    let mut text = String::new();
    push_decimal(&mut text, n);
    assert(Seq::<char>::empty() + decimal(n as nat) =~= decimal(n as nat));
    text
}

/// The decimal form of `n`, with a minus sign where it is negative.
pub fn format_signed(n: i32) -> (text: String)
    ensures
        text@ == signed_decimal(n as int),
{
    let mut text = String::new();
    if n < 0 {
        push_char(&mut text, '-');
        let magnitude: u64 = (-(n as i64)) as u64;
        push_decimal(&mut text, magnitude);
    } else {
        push_decimal(&mut text, n as u64);
        assert(Seq::<char>::empty() + decimal(n as nat) =~= decimal(n as nat));
    }
    text
}

/// Reads the digits of `chars` from `from` on as a number that is at most
/// `max`. `None` where there is no digit, where a character is no digit, and
/// where the number is too large.
fn read_digits(chars: &Vec<char>, from: usize, max: u64) -> (r: Option<u64>)
    requires
        from <= chars.len(),
    ensures
        ({
            let d = chars@.skip(from as int);
            r == if d.len() == 0 || !all_digits(d) || digits_value(d) > max {
                None
            } else {
                Some(digits_value(d) as u64)
            }
        }),
{
    let ghost d = chars@.skip(from as int);
    if from == chars.len() {
        return None;
    }
    let mut value: u64 = 0;
    let mut i: usize = from;
    assert(d.take(0) =~= Seq::<char>::empty());
    while i < chars.len()
        invariant
            from <= i <= chars.len(),
            d == chars@.skip(from as int),
            all_digits(d.take(i - from)),
            value == digits_value(d.take(i - from)),
            value <= max,
        decreases chars.len() - i,
    {
        let c = chars[i];
        let code: u32 = c as u32;
        assert(d[i - from] == c);
        if code < 48 || code > 57 {
            assert(!is_digit(d[i - from]));
            return None;
        }
        let digit: u64 = (code - 48) as u64;
        proof {
            assert(d.take(i - from + 1).drop_last() =~= d.take(i - from));
            assert(d.take(i - from + 1).last() == c);
            assert(all_digits(d.take(i - from + 1))) by {
                assert forall|k: int| 0 <= k < i - from + 1 implies is_digit(
                    #[trigger] d.take(i - from + 1)[k],
                ) by {
                    if k < i - from {
                        assert(d.take(i - from)[k] == d.take(i - from + 1)[k]);
                    }
                }
            }
        }
        if digit > max || value > (max - digit) / 10 {
            proof {
                let longer = digits_value(d.take(i - from + 1));
                assert(longer == value * 10 + digit);
                assert(longer > max) by (nonlinear_arith)
                    requires
                        longer == value * 10 + digit,
                        digit > max || value > (max - digit) / 10,
                        digit <= 9,
                        max >= 0,
                        value >= 0,
                ;
                if all_digits(d) {
                    lemma_digits_grow(d, i - from + 1);
                }
            }
            return None;
        }
        assert(value * 10 + digit <= max) by (nonlinear_arith)
            requires
                value <= (max - digit) / 10,
                digit <= max,
        ;
        value = value * 10 + digit;
        i += 1;
    }
    assert(d.take(i - from) =~= d);
    Some(value)
}

/// Reads `text` as a number that is at most `max`.
pub fn parse_u64(text: &str, max: u64) -> (r: Option<u64>)
    ensures
        r == match parse_unsigned(text@, max as nat) {
            Some(n) => Some(n as u64),
            None => None,
        },
{
    let chars = chars_of(text);
    let from: usize = if chars.len() > 0 && chars[0] == '+' {
        1
    } else {
        0
    };
    assert(chars@.skip(0) =~= chars@);
    read_digits(&chars, from, max)
}

/// Reads `text` as a job id or another count.
pub fn parse_usize(text: &str) -> (r: Option<usize>)
    ensures
        r == match parse_unsigned(text@, usize::MAX as nat) {
            Some(n) => Some(n as usize),
            None => None,
        },
{
    match parse_u64(text, usize::MAX as u64) {
        Some(n) => Some(n as usize),
        None => None,
    }
}

/// Reads `text` as an exit status.
pub fn parse_i32(text: &str) -> (r: Option<i32>)
    ensures
        r == match parse_signed(text@, i32::MIN as int, i32::MAX as int) {
            Some(n) => Some(n as i32),
            None => None,
        },
{
    let chars = chars_of(text);
    if chars.len() > 0 && chars[0] == '-' {
        match read_digits(&chars, 1, 2147483648) {
            Some(n) => Some((-(n as i64)) as i32),
            None => None,
        }
    } else {
        let from: usize = if chars.len() > 0 && chars[0] == '+' {
            1
        } else {
            0
        };
        assert(chars@.skip(0) =~= chars@);
        match read_digits(&chars, from, 2147483647) {
            Some(n) => Some(n as i32),
            None => None,
        }
    }
}

} // verus!
