//! The tables of a font as the text of source code.

use crate::font_data::FontData;
use crate::numerals::{decimal, hexadecimal, push_decimal, push_hexadecimal};
use crate::source::Subset;
use crate::text::{chars_of, string_of};
use vstd::prelude::*;

verus! {

/// A scalar value as it is written in a string literal: `\0` for the value
/// zero, else `\u{..}` with the value in hexadecimal.
pub open spec fn escaped_scalar(c: char) -> Seq<char> {
    if c == '\0' {
        seq!['\\', '0']
    } else {
        seq!['\\', 'u', '{'] + hexadecimal(c as nat) + seq!['}']
    }
}

/// A text as it is written in a string literal, scalar value by scalar value.
pub open spec fn escaped_text(text: Seq<char>) -> Seq<char>
    decreases text.len(),
{
    if text.len() == 0 {
        Seq::empty()
    } else {
        escaped_text(text.drop_last()) + escaped_scalar(text.last())
    }
}

/// A row of three numbers as a tuple: `(a, b, c)`.
pub open spec fn row_text(row: (int, int, int)) -> Seq<char> {
    seq!['('] + decimal(row.0) + seq![',', ' '] + decimal(row.1) + seq![',', ' '] + decimal(row.2)
        + seq![')']
}

/// Rows of three numbers as tuples, with `, ` between them.
pub open spec fn rows_text(rows: Seq<(int, int, int)>) -> Seq<char>
    decreases rows.len(),
{
    if rows.len() == 0 {
        Seq::empty()
    } else if rows.len() == 1 {
        row_text(rows[0])
    } else {
        rows_text(rows.drop_last()) + seq![',', ' '] + row_text(rows.last())
    }
}

/// A text as it is written in a string literal.
pub fn escaped(text: &str) -> (r: String)
    ensures
        r@ == escaped_text(text@),
{
    let chars = chars_of(text);
    let mut out: Vec<char> = Vec::new();
    let mut i: usize = 0;
    assert(chars@.take(0) =~= Seq::<char>::empty());
    while i < chars.len()
        invariant
            i <= chars@.len(),
            out@ == escaped_text(chars@.take(i as int)),
        decreases chars@.len() - i,
    {
        let c = chars[i];
        let ghost before = out@;
        proof {
            assert(chars@.take(i + 1).drop_last() =~= chars@.take(i as int));
            assert(chars@.take(i + 1).last() == c);
            crate::text::lemma_char_range(c);
        }
        out.push('\\');
        if c == '\0' {
            out.push('0');
            assert(out@ =~= before + escaped_scalar(c));
        } else {
            out.push('u');
            out.push('{');
            push_hexadecimal(&mut out, c as u32);
            out.push('}');
            assert(out@ =~= before + escaped_scalar(c));
        }
        i += 1;
    }
    assert(chars@.take(i as int) =~= chars@);
    string_of(out.as_slice())
}

/// Appends a row of three numbers as a tuple to `out`, behind `, ` where it
/// is not the first.
fn push_row(out: &mut Vec<char>, first: bool, a: i64, b: i64, c: i64)
    ensures
        final(out)@ == old(out)@ + (if first {
            Seq::<char>::empty()
        } else {
            seq![',', ' ']
        }) + row_text((a as int, b as int, c as int)),
{
    let ghost before = out@;
    if !first {
        out.push(',');
        out.push(' ');
    }
    let ghost start = out@;
    out.push('(');
    push_decimal(out, a);
    out.push(',');
    out.push(' ');
    push_decimal(out, b);
    out.push(',');
    out.push(' ');
    push_decimal(out, c);
    out.push(')');
    assert(out@ =~= start + row_text((a as int, b as int, c as int)));
    assert(start =~= before + (if first {
        Seq::<char>::empty()
    } else {
        seq![',', ' ']
    }));
}

/// The rows of the side-bearing table as numbers.
pub open spec fn bearing_numbers(rows: Seq<(u32, i8, i8)>) -> Seq<(int, int, int)> {
    rows.map_values(|r: (u32, i8, i8)| (r.0 as int, r.1 as int, r.2 as int))
}

/// The rows of the class-pair table as numbers.
pub open spec fn pair_numbers(rows: Seq<(u8, u8, i8)>) -> Seq<(int, int, int)> {
    rows.map_values(|r: (u8, u8, i8)| (r.0 as int, r.1 as int, r.2 as int))
}

/// The rows of the override table as numbers.
pub open spec fn override_numbers(rows: Seq<(u32, u32, i8)>) -> Seq<(int, int, int)> {
    rows.map_values(|r: (u32, u32, i8)| (r.0 as int, r.1 as int, r.2 as int))
}

/// Rows of three numbers as tuples, with `, ` between them.
pub fn format_rows(rows: &[(i64, i64, i64)]) -> (r: String)
    ensures
        r@ == rows_text(rows@.map_values(|r: (i64, i64, i64)| (r.0 as int, r.1 as int, r.2 as int))),
{
    let ghost numbers = rows@.map_values(|r: (i64, i64, i64)| (r.0 as int, r.1 as int, r.2 as int));
    let mut out: Vec<char> = Vec::new();
    let mut i: usize = 0;
    assert(numbers.take(0) =~= Seq::<(int, int, int)>::empty());
    while i < rows.len()
        invariant
            i <= rows@.len(),
            numbers == rows@.map_values(|r: (i64, i64, i64)| (r.0 as int, r.1 as int, r.2 as int)),
            out@ == rows_text(numbers.take(i as int)),
        decreases rows@.len() - i,
    {
        let row = rows[i];
        proof {
            assert(numbers.take(i + 1).drop_last() =~= numbers.take(i as int));
            assert(numbers.take(i + 1).last() == (row.0 as int, row.1 as int, row.2 as int));
            if i == 0 {
                assert(numbers.take(1)[0] == numbers.take(1).last());
            }
        }
        push_row(&mut out, i == 0, row.0, row.1, row.2);
        assert(out@ =~= rows_text(numbers.take(i + 1)));
        i += 1;
    }
    assert(numbers.take(i as int) =~= numbers);
    string_of(out.as_slice())
}

impl Subset {
    /// The name of the subset: `ascii` or `all`.
    pub fn name(&self) -> (r: &'static str)
        ensures
            r@ == match self {
                Subset::Ascii => "ascii"@,
                Subset::All => "all"@,
            },
    {
        match self {
            Subset::Ascii => "ascii",
            Subset::All => "all",
        }
    }

    /// The name of the subset in capitals: `ASCII` or `ALL`.
    pub fn constant_name(&self) -> (r: &'static str)
        ensures
            r@ == match self {
                Subset::Ascii => "ASCII"@,
                Subset::All => "ALL"@,
            },
    {
        match self {
            Subset::Ascii => "ASCII",
            Subset::All => "ALL",
        }
    }
}

impl FontData {
    /// The side bearings as the text of tuples, `(glyph_index, left, right)`.
    pub fn side_bearings(&self) -> (r: String)
        ensures
            r@ == rows_text(bearing_numbers(self.glyph_bearings@)),
    {
        let mut rows: Vec<(i64, i64, i64)> = Vec::new();
        let mut i: usize = 0;
        while i < self.glyph_bearings.len()
            invariant
                i <= self.glyph_bearings@.len(),
                rows@.len() == i,
                forall|k: int|
                    0 <= k < i ==> #[trigger] rows@[k] == (
                        self.glyph_bearings@[k].0 as i64,
                        self.glyph_bearings@[k].1 as i64,
                        self.glyph_bearings@[k].2 as i64,
                    ),
            decreases self.glyph_bearings@.len() - i,
        {
            let row = self.glyph_bearings[i];
            rows.push((row.0 as i64, row.1 as i64, row.2 as i64));
            i += 1;
        }
        assert(rows@.map_values(|r: (i64, i64, i64)| (r.0 as int, r.1 as int, r.2 as int))
            =~= bearing_numbers(self.glyph_bearings@));
        format_rows(rows.as_slice())
    }

    /// The class pairs as the text of tuples, `(left_class, right_class, adjustment)`.
    pub fn kerning_pairs(&self) -> (r: String)
        ensures
            r@ == rows_text(pair_numbers(self.kerning_pairs@)),
    {
        let mut rows: Vec<(i64, i64, i64)> = Vec::new();
        let mut i: usize = 0;
        while i < self.kerning_pairs.len()
            invariant
                i <= self.kerning_pairs@.len(),
                rows@.len() == i,
                forall|k: int|
                    0 <= k < i ==> #[trigger] rows@[k] == (
                        self.kerning_pairs@[k].0 as i64,
                        self.kerning_pairs@[k].1 as i64,
                        self.kerning_pairs@[k].2 as i64,
                    ),
            decreases self.kerning_pairs@.len() - i,
        {
            let row = self.kerning_pairs[i];
            rows.push((row.0 as i64, row.1 as i64, row.2 as i64));
            i += 1;
        }
        assert(rows@.map_values(|r: (i64, i64, i64)| (r.0 as int, r.1 as int, r.2 as int))
            =~= pair_numbers(self.kerning_pairs@));
        format_rows(rows.as_slice())
    }

    /// The overrides as the text of tuples, `(left_glyph, right_glyph, adjustment)`.
    pub fn kerning_overrides(&self) -> (r: String)
        ensures
            r@ == rows_text(override_numbers(self.kerning_overrides@)),
    {
        let mut rows: Vec<(i64, i64, i64)> = Vec::new();
        let mut i: usize = 0;
        while i < self.kerning_overrides.len()
            invariant
                i <= self.kerning_overrides@.len(),
                rows@.len() == i,
                forall|k: int|
                    0 <= k < i ==> #[trigger] rows@[k] == (
                        self.kerning_overrides@[k].0 as i64,
                        self.kerning_overrides@[k].1 as i64,
                        self.kerning_overrides@[k].2 as i64,
                    ),
            decreases self.kerning_overrides@.len() - i,
        {
            let row = self.kerning_overrides[i];
            rows.push((row.0 as i64, row.1 as i64, row.2 as i64));
            i += 1;
        }
        assert(rows@.map_values(|r: (i64, i64, i64)| (r.0 as int, r.1 as int, r.2 as int))
            =~= override_numbers(self.kerning_overrides@));
        format_rows(rows.as_slice())
    }

    /// The default bearings as the text of a tuple, `(left, right)`.
    pub fn default_bearings_text(&self) -> (r: String)
        ensures
            r@ == seq!['('] + decimal(self.default_bearings.0 as int) + seq![',', ' '] + decimal(
                self.default_bearings.1 as int,
            ) + seq![')'],
    {
        let mut out: Vec<char> = Vec::new();
        out.push('(');
        push_decimal(&mut out, self.default_bearings.0 as i64);
        out.push(',');
        out.push(' ');
        push_decimal(&mut out, self.default_bearings.1 as i64);
        out.push(')');
        assert(out@ =~= seq!['('] + decimal(self.default_bearings.0 as int) + seq![',', ' ']
            + decimal(self.default_bearings.1 as int) + seq![')']);
        string_of(out.as_slice())
    }
}

} // verus!
