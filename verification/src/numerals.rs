//! Numbers as text.

use vstd::prelude::*;

verus! {

/// The digit for a value below 16: `0` to `9`, then `a` to `f`.
pub open spec fn digit_char(d: int) -> char {
    if d < 10 {
        (0x30 + d) as char
    } else {
        (0x61 + d - 10) as char
    }
}

/// A number is more than what it is divided into by two or more.
pub proof fn lemma_quotient_smaller(n: nat, base: nat)
    requires
        2 <= base <= n,
    ensures
        n / base < n,
        n % base < base,
{
    assert(n / base < n && n % base < base) by (nonlinear_arith)
        requires
            2 <= base <= n,
    ;
}

/// The digits of a natural number to a base from 2 to 16, without leading zeros.
pub open spec fn digits(n: nat, base: nat) -> Seq<char>
    decreases n,
{
    if n < base || base < 2 {
        seq![digit_char(n as int)]
    } else {
        proof {
            lemma_quotient_smaller(n, base);
        }
        digits(n / base, base).push(digit_char((n % base) as int))
    }
}

/// A whole number in decimal, with `-` before it where it is negative.
pub open spec fn decimal(v: int) -> Seq<char> {
    if v < 0 {
        seq!['-'] + digits((-v) as nat, 10)
    } else {
        digits(v as nat, 10)
    }
}

/// A natural number in hexadecimal, with small letters.
pub open spec fn hexadecimal(n: nat) -> Seq<char> {
    digits(n, 16)
}

/// The digit for a value below 16.
fn digit(d: u64) -> (c: char)
    requires
        d < 16,
    ensures
        c == digit_char(d as int),
{
    if d < 10 {
        (0x30u8 + d as u8) as char
    } else {
        (0x61u8 + (d - 10) as u8) as char
    }
}

/// Appends the digits of `n` to the base `base` to `out`.
pub fn push_digits(out: &mut Vec<char>, n: u64, base: u64)
    requires
        2 <= base <= 16,
    ensures
        final(out)@ == old(out)@ + digits(n as nat, base as nat),
    decreases n,
{
    if n < base {
        out.push(digit(n));
        assert(out@ =~= old(out)@ + digits(n as nat, base as nat));
    } else {
        proof {
            lemma_quotient_smaller(n as nat, base as nat);
        }
        push_digits(out, n / base, base);
        out.push(digit(n % base));
        assert(out@ =~= old(out)@ + digits(n as nat, base as nat));
    }
}

/// Appends a whole number in decimal to `out`.
pub fn push_decimal(out: &mut Vec<char>, v: i64)
    ensures
        final(out)@ == old(out)@ + decimal(v as int),
{
    if v < 0 {
        out.push('-');
        let magnitude: u64 = (-(v as i128)) as u64;
        push_digits(out, magnitude, 10);
        assert(out@ =~= old(out)@ + decimal(v as int));
    } else {
        push_digits(out, v as u64, 10);
    }
}

/// Appends a natural number in hexadecimal to `out`.
pub fn push_hexadecimal(out: &mut Vec<char>, n: u32)
    ensures
        final(out)@ == old(out)@ + hexadecimal(n as nat),
{
    push_digits(out, n as u64, 16);
}

/// Appends the scalar values of a text to `out`.
pub fn push_str(out: &mut Vec<char>, text: &str)
    ensures
        final(out)@ == old(out)@ + text@,
{
    let chars = crate::text::chars_of(text);
    push_chars(out, chars.as_slice());
}

/// Appends scalar values to `out`.
pub fn push_chars(out: &mut Vec<char>, chars: &[char])
    ensures
        final(out)@ == old(out)@ + chars@,
{
    let ghost before = out@;
    let mut i: usize = 0;
    assert(out@ =~= before + chars@.take(0));
    while i < chars.len()
        invariant
            i <= chars@.len(),
            out@ == before + chars@.take(i as int),
        decreases chars@.len() - i,
    {
        out.push(chars[i]);
        assert(out@ =~= before + chars@.take(i + 1));
        i += 1;
    }
    assert(chars@.take(i as int) =~= chars@);
}

} // verus!

verus! {

/// The value of a decimal digit.
pub open spec fn decimal_digit(c: char) -> Option<int> {
    if '0' <= c <= '9' {
        Some(c as int - '0' as int)
    } else {
        None
    }
}

/// Whether every scalar value of `s` is a decimal digit.
pub open spec fn all_decimal(s: Seq<char>) -> bool {
    forall|i: int| 0 <= i < s.len() ==> decimal_digit(#[trigger] s[i]) is Some
}

/// The number that decimal digits stand for.
pub open spec fn decimal_value(digits: Seq<char>) -> int
    decreases digits.len(),
{
    if digits.len() == 0 {
        0
    } else {
        decimal_value(digits.drop_last()) * 10 + match decimal_digit(digits.last()) {
            Some(d) => d,
            None => 0,
        }
    }
}

/// Whether a text starts with a sign that a number of the given kind may have:
/// `+`, or for a signed number also `-`.
pub open spec fn has_sign(s: Seq<char>, signed: bool) -> bool {
    s.len() > 0 && (s[0] == '+' || (signed && s[0] == '-'))
}

/// The whole number between `low` and `high` that a text stands for in
/// decimal: one digit or more, behind a sign or not, and nothing else.
pub open spec fn parse_decimal(s: Seq<char>, signed: bool, low: int, high: int) -> Option<int> {
    let digits = if has_sign(s, signed) {
        s.skip(1)
    } else {
        s
    };
    let value = if has_sign(s, signed) && s[0] == '-' {
        -decimal_value(digits)
    } else {
        decimal_value(digits)
    };
    if digits.len() > 0 && all_decimal(digits) && low <= value <= high {
        Some(value)
    } else {
        None
    }
}

/// A number only grows with the digits behind it.
proof fn lemma_decimal_value_grows(digits: Seq<char>, n: int)
    requires
        0 <= n <= digits.len(),
    ensures
        0 <= decimal_value(digits.take(n)) <= decimal_value(digits),
    decreases digits.len() - n,
{
    lemma_decimal_nonnegative(digits.take(n));
    if n < digits.len() {
        lemma_decimal_value_grows(digits, n + 1);
        assert(digits.take(n + 1).drop_last() =~= digits.take(n));
    } else {
        assert(digits.take(n) =~= digits);
    }
}

proof fn lemma_decimal_nonnegative(digits: Seq<char>)
    ensures
        0 <= decimal_value(digits),
    decreases digits.len(),
{
    if digits.len() > 0 {
        lemma_decimal_nonnegative(digits.drop_last());
    }
}

/// The whole number between `low` and `high` that a text stands for in decimal.
pub fn parse_number(s: &[char], signed: bool, low: i64, high: i64) -> (r: Option<i64>)
    requires
        -0x1_0000_0000 <= low <= 0 <= high <= 0x1_0000_0000,
    ensures
        r matches Some(v) ==> parse_decimal(s@, signed, low as int, high as int) == Some(v as int),
        r is None ==> parse_decimal(s@, signed, low as int, high as int) is None,
{
    let sign: bool = s.len() > 0 && (s[0] == '+' || (signed && s[0] == '-'));
    let negative: bool = sign && s[0] == '-';
    let digits = vstd::slice::slice_subrange(s, if sign { 1 } else { 0 }, s.len());
    assert(digits@ =~= if has_sign(s@, signed) {
        s@.skip(1)
    } else {
        s@
    });
    if digits.len() == 0 {
        return None;
    }
    let mut value: i64 = 0;
    let mut i: usize = 0;
    assert(digits@.take(0) =~= Seq::<char>::empty());
    while i < digits.len()
        invariant
            i <= digits@.len(),
            -0x1_0000_0000 <= low <= 0 <= high <= 0x1_0000_0000,
            digits@ == (if has_sign(s@, signed) {
                s@.skip(1)
            } else {
                s@
            }),
            all_decimal(digits@.take(i as int)),
            value == decimal_value(digits@.take(i as int)),
            0 <= value <= 0x1_0000_0000,
        decreases digits@.len() - i,
    {
        let ghost seen = digits@.take(i as int);
        let ghost next = digits@.take(i + 1);
        proof {
            assert(next.drop_last() =~= seen);
            assert(next.last() == digits@[i as int]);
            crate::text::lemma_char_range(digits@[i as int]);
        }
        let c: u32 = digits[i] as u32;
        if c < 0x30 || c > 0x39 {
            assert(decimal_digit(digits@[i as int]) is None);
            return None;
        }
        proof {
            assert forall|j: int| 0 <= j < next.len() implies decimal_digit(#[trigger] next[j])
                is Some by {
                if j < i {
                    assert(next[j] == seen[j]);
                }
            }
        }
        value = value * 10 + (c - 0x30) as i64;
        assert(value == decimal_value(next));
        if value > 0x1_0000_0000 {
            proof {
                lemma_decimal_value_grows(digits@, i + 1);
            }
            return None;
        }
        i += 1;
    }
    assert(digits@.take(i as int) =~= digits@);
    let number: i64 = if negative {
        -value
    } else {
        value
    };
    if low <= number && number <= high {
        Some(number)
    } else {
        None
    }
}

} // verus!
