//! The identity of a glyph as the name of its image file gives it: the
//! scalar values in hexadecimal, with `_` between them.

use crate::code_point::CodePoint;
use crate::text::{chars_of, lemma_char_range};
use crate::tokens::{token_ranges, tokens_of};
use vstd::prelude::*;
use vstd::slice::slice_subrange;

verus! {

/// What stands between the scalar values of a file stem.
pub const STEM_SEPARATOR: char = '_';

/// The value of a hexadecimal digit.
pub open spec fn hex_digit(c: char) -> Option<int> {
    if '0' <= c <= '9' {
        Some(c as int - '0' as int)
    } else if 'a' <= c <= 'f' {
        Some(c as int - 'a' as int + 10)
    } else if 'A' <= c <= 'F' {
        Some(c as int - 'A' as int + 10)
    } else {
        None
    }
}

/// Whether every scalar value of `s` is a hexadecimal digit.
pub open spec fn all_hex(s: Seq<char>) -> bool {
    forall|i: int| 0 <= i < s.len() ==> hex_digit(#[trigger] s[i]) is Some
}

/// The number that hexadecimal digits stand for.
pub open spec fn hex_number(digits: Seq<char>) -> int
    decreases digits.len(),
{
    if digits.len() == 0 {
        0
    } else {
        hex_number(digits.drop_last()) * 16 + match hex_digit(digits.last()) {
            Some(d) => d,
            None => 0,
        }
    }
}

/// The digits of a number that is written with or without a `+` before it.
pub open spec fn unsigned_digits(s: Seq<char>) -> Seq<char> {
    if s.len() > 0 && s[0] == '+' {
        s.skip(1)
    } else {
        s
    }
}

/// The number of 32 bits that `s` stands for in hexadecimal: `s` is one
/// digit or more, with or without a `+` before them, and nothing else.
pub open spec fn parse_hex(s: Seq<char>) -> Option<u32> {
    let digits = unsigned_digits(s);
    if digits.len() > 0 && all_hex(digits) && hex_number(digits) <= u32::MAX {
        Some(hex_number(digits) as u32)
    } else {
        None
    }
}

/// Whether a number is a scalar value: at most 0x10FFFF, and no surrogate.
pub open spec fn is_scalar_value(v: u32) -> bool {
    v <= 0xD7FF || 0xE000 <= v <= 0x10FFFF
}

/// The scalar value that a part of a file stem stands for.
pub open spec fn stem_scalar(part: Seq<char>) -> Option<char> {
    match parse_hex(part) {
        Some(v) => if is_scalar_value(v) {
            Some(v as char)
        } else {
            None
        },
        None => None,
    }
}

/// The scalar values that the parts of a file stem stand for; parts that
/// stand for none are passed over.
pub open spec fn stem_scalars(parts: Seq<Seq<char>>) -> Seq<char>
    decreases parts.len(),
{
    if parts.len() == 0 {
        Seq::empty()
    } else {
        let before = stem_scalars(parts.drop_last());
        match stem_scalar(parts.last()) {
            Some(c) => before.push(c),
            None => before,
        }
    }
}

/// `char::from_u32`: the scalar value with the given number, where the
/// number is one; a number above 0x10FFFF or of a surrogate is none.
#[verifier::external_body]
fn scalar_from_u32(v: u32) -> (r: Option<char>)
    ensures
        r is Some <==> is_scalar_value(v),
        r matches Some(c) ==> c as u32 == v && c == v as char,
{
    char::from_u32(v)
}

/// The value of a hexadecimal digit.
fn digit_value(c: char) -> (r: Option<u32>)
    ensures
        match r {
            Some(d) => hex_digit(c) == Some(d as int) && d < 16,
            None => hex_digit(c) is None,
        },
{
    proof {
        lemma_char_range(c);
    }
    let v: u32 = c as u32;
    if 0x30 <= v && v <= 0x39 {
        Some(v - 0x30)
    } else if 0x61 <= v && v <= 0x66 {
        Some(v - 0x61 + 10)
    } else if 0x41 <= v && v <= 0x46 {
        Some(v - 0x41 + 10)
    } else {
        None
    }
}

/// A number only grows with the digits behind it.
proof fn lemma_hex_number_grows(digits: Seq<char>, n: int)
    requires
        0 <= n <= digits.len(),
        all_hex(digits),
    ensures
        0 <= hex_number(digits.take(n)) <= hex_number(digits),
    decreases digits.len() - n,
{
    if n < digits.len() {
        lemma_hex_number_grows(digits, n + 1);
        assert(digits.take(n + 1).drop_last() =~= digits.take(n));
        assert(digits.take(n + 1).last() == digits[n]);
        lemma_hex_nonnegative(digits.take(n));
    } else {
        assert(digits.take(n) =~= digits);
        lemma_hex_nonnegative(digits);
    }
}

proof fn lemma_hex_nonnegative(digits: Seq<char>)
    ensures
        0 <= hex_number(digits),
    decreases digits.len(),
{
    if digits.len() > 0 {
        lemma_hex_nonnegative(digits.drop_last());
    }
}

/// The number of 32 bits that `s` stands for in hexadecimal.
pub fn parse_hex_u32(s: &[char]) -> (r: Option<u32>)
    ensures
        r == parse_hex(s@),
{
    let start: usize = if s.len() > 0 && s[0] == '+' {
        1
    } else {
        0
    };
    let digits = slice_subrange(s, start, s.len());
    assert(digits@ =~= unsigned_digits(s@));
    if digits.len() == 0 {
        return None;
    }
    let mut value: u64 = 0;
    let mut i: usize = 0;
    assert(digits@.take(0) =~= Seq::<char>::empty());
    while i < digits.len()
        invariant
            i <= digits@.len(),
            digits@ == unsigned_digits(s@),
            all_hex(digits@.take(i as int)),
            value == hex_number(digits@.take(i as int)),
            value <= u32::MAX,
        decreases digits@.len() - i,
    {
        let ghost seen = digits@.take(i as int);
        let ghost next = digits@.take(i + 1);
        proof {
            assert(next.drop_last() =~= seen);
            assert(next.last() == digits@[i as int]);
        }
        match digit_value(digits[i]) {
            Some(d) => {
                proof {
                    assert forall|j: int| 0 <= j < next.len() implies hex_digit(#[trigger] next[j])
                        is Some by {
                        if j < i {
                            assert(next[j] == seen[j]);
                        }
                    }
                }
                value = value * 16 + d as u64;
                assert(value == hex_number(next));
                if value > u32::MAX as u64 {
                    proof {
                        if all_hex(digits@) {
                            lemma_hex_number_grows(digits@, i + 1);
                        }
                    }
                    return None;
                }
            },
            None => {
                assert(hex_digit(digits@[i as int]) is None);
                return None;
            },
        }
        i += 1;
    }
    assert(digits@.take(i as int) =~= digits@);
    Some(value as u32)
}

impl CodePoint {
    /// The identity that the stem of an image file stands for: none where
    /// no part of it stands for a scalar value, a single for one such part,
    /// and a ligature for more.
    pub fn from_file_stem(stem: &str) -> (r: Option<CodePoint>)
        ensures
            ({
                let scalars = stem_scalars(tokens_of(stem@, STEM_SEPARATOR));
                &&& r is Some <==> scalars.len() > 0
                &&& r matches Some(cp) ==> cp.wf() && cp.scalars() == scalars
            }),
    {
        let text = chars_of(stem);
        let ranges = token_ranges(text.as_slice(), &STEM_SEPARATOR);
        let ghost parts = tokens_of(stem@, STEM_SEPARATOR);
        let mut scalars: Vec<char> = Vec::new();
        let mut k: usize = 0;
        assert(parts.take(0) =~= Seq::<Seq<char>>::empty());
        while k < ranges.len()
            invariant
                k <= ranges@.len(),
                text@ == stem@,
                parts == tokens_of(stem@, STEM_SEPARATOR),
                ranges@.len() == parts.len(),
                forall|j: int|
                    0 <= j < ranges@.len() ==> {
                        let r = #[trigger] ranges@[j];
                        r.0 < r.1 <= text@.len() && text@.subrange(r.0 as int, r.1 as int)
                            == parts[j]
                    },
                scalars@ == stem_scalars(parts.take(k as int)),
            decreases ranges@.len() - k,
        {
            let range = ranges[k];
            let part = slice_subrange(text.as_slice(), range.0, range.1);
            proof {
                assert(parts.take(k + 1).drop_last() =~= parts.take(k as int));
                assert(parts.take(k + 1).last() == part@);
            }
            match parse_hex_u32(part) {
                Some(v) => match scalar_from_u32(v) {
                    Some(c) => {
                        scalars.push(c);
                    },
                    None => {},
                },
                None => {},
            }
            k += 1;
        }
        assert(parts.take(k as int) =~= parts);
        CodePoint::from_scalars(scalars.as_slice())
    }
}

} // verus!
