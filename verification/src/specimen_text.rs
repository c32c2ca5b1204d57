//! The table of specimens in the documentation of a font: the lines between
//! two marks are replaced by a row for each font.

use crate::numerals::push_str;
use crate::text::{str_is, string_of};
use vstd::prelude::*;

verus! {

/// What `str::trim` leaves of a text: the text without the white space at
/// its start and at its end.
pub uninterp spec fn trimmed(line: Seq<char>) -> Seq<char>;

/// `str::trim`: the text without the white space at its start and at its end.
#[verifier::external_body]
fn trim(line: &str) -> (r: &str)
    ensures
        r@ == trimmed(line@),
{
    line.trim()
}

/// The mark before the table of specimens.
pub open spec fn start_mark() -> Seq<char> {
    "//START-SPECIMEN"@
}

/// The mark behind the table of specimens.
pub open spec fn end_mark() -> Seq<char> {
    "//END-SPECIMEN"@
}

/// The two lines that head the table of specimens.
pub open spec fn table_head() -> Seq<Seq<char>> {
    seq!["//! | Charset | Specimen, upscaled to 2x |"@, "//! |---------|----------|"@]
}

/// What one line contributes to the updated lines, given what is left of
/// it without the white space around it: the line itself where lines are
/// being taken; behind the start mark the head of the table and the rows,
/// after which no lines are taken; and the end mark itself, after which
/// lines are taken again.
pub open spec fn updated_line(line: Seq<char>, bare: Seq<char>, rows: Seq<Seq<char>>, take: bool) -> Seq<
    Seq<char>,
> {
    (if take {
        seq![line]
    } else {
        Seq::empty()
    }) + (if bare == start_mark() {
        table_head() + rows
    } else {
        Seq::empty()
    }) + (if bare == end_mark() {
        seq![line]
    } else {
        Seq::empty()
    })
}

/// Whether lines are taken behind a line, given what is left of it without
/// the white space around it.
pub open spec fn takes_after(bare: Seq<char>, take: bool) -> bool {
    if bare == end_mark() {
        true
    } else if bare == start_mark() {
        false
    } else {
        take
    }
}

/// The lines with the table of specimens replaced; `bare` holds for each
/// line what is left of it without the white space around it.
pub open spec fn updated_lines(
    lines: Seq<Seq<char>>,
    bare: Seq<Seq<char>>,
    rows: Seq<Seq<char>>,
    take: bool,
) -> Seq<Seq<char>>
    recommends
        lines.len() == bare.len(),
    decreases lines.len(),
{
    if lines.len() == 0 || bare.len() == 0 {
        Seq::empty()
    } else {
        updated_line(lines[0], bare[0], rows, take) + updated_lines(
            lines.drop_first(),
            bare.drop_first(),
            rows,
            takes_after(bare[0], take),
        )
    }
}

/// The texts of lines.
pub open spec fn texts(lines: Seq<String>) -> Seq<Seq<char>> {
    lines.map_values(|s: String| s@)
}

/// The texts of borrowed lines.
pub open spec fn slices(lines: Seq<&str>) -> Seq<Seq<char>> {
    lines.map_values(|s: &str| s@)
}

/// Each line without the white space around it.
pub open spec fn trimmed_lines(lines: Seq<Seq<char>>) -> Seq<Seq<char>> {
    lines.map_values(|line: Seq<char>| trimmed(line))
}

/// The row of the table of specimens for a font: its name, and its preview
/// as an image.
pub fn specimen_row(name: &str, png_data: &str) -> (row: String)
    ensures
        row@ == "//! | `"@ + name@ + "` | !["@ + name@ + "]("@ + png_data@ + ") |"@,
{
    let mut out: Vec<char> = Vec::new();
    push_str(&mut out, "//! | `");
    push_str(&mut out, name);
    push_str(&mut out, "` | ![");
    push_str(&mut out, name);
    push_str(&mut out, "](");
    push_str(&mut out, png_data);
    push_str(&mut out, ") |");
    string_of(out.as_slice())
}

/// The lines of a documentation with the table of specimens replaced by
/// the given rows, and an empty line behind the last; `bare` holds for each
/// line what is left of it without the white space around it.
pub fn replace_specimen(lines: &[String], bare: &[&str], rows: &[String]) -> (output: Vec<String>)
    requires
        lines@.len() == bare@.len(),
    ensures
        texts(output@) == updated_lines(texts(lines@), slices(bare@), texts(rows@), true).push(
            Seq::empty(),
        ),
{
    let ghost all = texts(lines@);
    let ghost marks = slices(bare@);
    let ghost new_rows = texts(rows@);
    let start = crate::text::chars_of("//START-SPECIMEN");
    let end = crate::text::chars_of("//END-SPECIMEN");
    let mut output: Vec<String> = Vec::new();
    let mut take: bool = true;
    let mut i: usize = 0;
    proof {
        assert(all.skip(0) =~= all);
        assert(marks.skip(0) =~= marks);
        assert(texts(output@) =~= Seq::<Seq<char>>::empty());
        assert(texts(output@) + updated_lines(all, marks, new_rows, true) =~= updated_lines(
            all,
            marks,
            new_rows,
            true,
        ));
    }
    while i < lines.len()
        invariant
            i <= lines@.len(),
            lines@.len() == bare@.len(),
            all == texts(lines@),
            marks == slices(bare@),
            new_rows == texts(rows@),
            start@ == start_mark(),
            end@ == end_mark(),
            texts(output@) + updated_lines(all.skip(i as int), marks.skip(i as int), new_rows, take)
                == updated_lines(all, marks, new_rows, true),
        decreases lines@.len() - i,
    {
        let line = &lines[i];
        let mark = bare[i];
        let ghost was = take;
        let ghost before = texts(output@);
        let ghost rest = all.skip(i as int);
        let ghost rest_marks = marks.skip(i as int);
        proof {
            assert(rest[0] == line@);
            assert(rest_marks[0] == mark@);
            assert(rest.drop_first() =~= all.skip(i + 1));
            assert(rest_marks.drop_first() =~= marks.skip(i + 1));
        }
        if take {
            output.push(line.clone());
            assert(texts(output@) =~= before.push(line@));
        }
        let ghost taken = texts(output@);
        if str_is(mark, start.as_slice()) {
            take = false;
            output.push(string_of(crate::text::chars_of("//! | Charset | Specimen, upscaled to 2x |").as_slice()));
            output.push(string_of(crate::text::chars_of("//! |---------|----------|").as_slice()));
            let ghost headed = texts(output@);
            assert(headed =~= taken + table_head());
            let mut k: usize = 0;
            while k < rows.len()
                invariant
                    k <= rows@.len(),
                    new_rows == texts(rows@),
                    texts(output@) == headed + new_rows.take(k as int),
                decreases rows@.len() - k,
            {
                let ghost grown = texts(output@);
                output.push(rows[k].clone());
                assert(texts(output@) =~= grown.push(rows@[k as int]@));
                assert(new_rows.take(k + 1) =~= new_rows.take(k as int).push(new_rows[k as int]));
                k += 1;
            }
            assert(new_rows.take(k as int) =~= new_rows);
        }
        let ghost inserted = texts(output@);
        if str_is(mark, end.as_slice()) {
            output.push(line.clone());
            assert(texts(output@) =~= inserted.push(line@));
            take = true;
        }
        proof {
            assert(texts(output@) =~= before + updated_line(line@, mark@, new_rows, was));
            assert(take == takes_after(mark@, was));
            assert(before + updated_lines(rest, rest_marks, new_rows, was) =~= texts(output@)
                + updated_lines(all.skip(i + 1), marks.skip(i + 1), new_rows, take));
        }
        i += 1;
    }
    let ghost body = texts(output@);
    output.push(String::new());
    proof {
        assert(all.skip(i as int).len() == 0);
        assert(texts(output@) =~= body.push(Seq::empty()));
    }
    output
}

/// The lines of a documentation with the table of specimens replaced by
/// the given rows, and an empty line behind the last. A line is a mark
/// where the mark is what is left of it without the white space around it.
pub fn update_specimen(lines: &[String], rows: &[String]) -> (output: Vec<String>)
    ensures
        texts(output@) == updated_lines(
            texts(lines@),
            trimmed_lines(texts(lines@)),
            texts(rows@),
            true,
        ).push(Seq::empty()),
{
    let mut bare: Vec<&str> = Vec::new();
    let mut i: usize = 0;
    while i < lines.len()
        invariant
            i <= lines@.len(),
            bare@.len() == i,
            forall|j: int| 0 <= j < i ==> (#[trigger] bare@[j])@ == trimmed(lines@[j]@),
        decreases lines@.len() - i,
    {
        bare.push(trim(lines[i].as_str()));
        i += 1;
    }
    assert(slices(bare@) =~= trimmed_lines(texts(lines@)));
    replace_specimen(lines, bare.as_slice(), rows)
}

} // verus!
