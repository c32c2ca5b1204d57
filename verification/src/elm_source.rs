//! Reading the metrics of a font from the Elm module that describes them.

use crate::elm_file_data::ElmFileData;
use crate::numerals::{parse_decimal, parse_number};
use crate::text::{chars_of, str_is};
use tree_sitter::{Parser, Query, QueryCursor};
use vstd::prelude::*;

verus! {

/// A part of the source that a query has captured: where it starts and
/// ends, in bytes, and its text.
#[derive(Debug)]
pub struct Capture {
    pub start: usize,
    pub end: usize,
    pub text: String,
}

/// A capture as plain values: start, end and text.
pub type CaptureView = (usize, usize, Seq<char>);

/// The captures of a match as plain values.
pub open spec fn captures_view(captures: Vec<Capture>) -> Seq<CaptureView> {
    captures@.map_values(|c: Capture| (c.start, c.end, c.text@))
}

/// The matches of a query as plain values.
pub open spec fn matches_view(matches: Seq<Vec<Capture>>) -> Seq<Seq<CaptureView>> {
    matches.map_values(|m: Vec<Capture>| captures_view(m))
}

/// The matches that tree-sitter finds for a query in an Elm source, below
/// the smallest node that spans the bytes from `start` to `end`: for each
/// match its captures, in the order of the query; none where the source
/// cannot be parsed, the query is none, or a capture is no text.
pub uninterp spec fn elm_matches(source: Seq<u8>, pattern: Seq<char>, start: usize, end: usize) -> Option<
    Seq<Seq<CaptureView>>,
>;

/// What the `unescape` crate makes of a text with backslash escapes; none
/// where an escape is not a valid one.
pub uninterp spec fn unescaped(text: Seq<char>) -> Option<Seq<char>>;

/// Whether a text is one of the queries of this module. They are the only
/// ones that are run: `tree_sitter::Query::new` does not return for every
/// text that is no query.
pub open spec fn known_query(pattern: Seq<char>) -> bool {
    pattern == NUMBER_CONSTANT@ || pattern == DEFAULT_BEARINGS@ || pattern == BEARINGS@ || pattern
        == KERNING_CLASS@ || pattern == KERNING_PAIRS@ || pattern == KERNING_OVERRIDES@ || pattern
        == STRING_LIST@
}

/// Parses the source as Elm with `tree_sitter::Parser::parse` and the
/// grammar of `tree_sitter_elm::language`, and runs the query, built by
/// `tree_sitter::Query::new`, with `tree_sitter::QueryCursor::matches` on
/// the node that `Node::descendant_for_byte_range` gives: the matches
/// depend on the source, the query and the range alone. Only the queries
/// of this module are admitted, each of which the grammar accepts.
#[verifier::external_body]
fn query(source: &[u8], pattern: &str, start: usize, end: usize) -> (r: Option<Vec<Vec<Capture>>>)
    requires
        known_query(pattern@),
    ensures
        match r {
            Some(found) => elm_matches(source@, pattern@, start, end) == Some(matches_view(found@)),
            None => elm_matches(source@, pattern@, start, end) is None,
        },
{
    let language = tree_sitter_elm::language();
    let mut parser = Parser::new();
    parser.set_language(language).ok()?;
    let tree = parser.parse(source, None)?;
    let node = tree.root_node().descendant_for_byte_range(start, end)?;
    let query = Query::new(language, pattern).ok()?;
    let mut cursor = QueryCursor::new();
    let found = cursor.matches(&query, node, source).map(|m| m.captures.iter().map(|c| {
        let text = c.node.utf8_text(source).ok()?.to_string();
        Some(Capture { start: c.node.start_byte(), end: c.node.end_byte(), text })
    }).collect()).collect();
    found
}

/// `unescape::unescape`: the text with its backslash escapes replaced,
/// which depends on the text alone.
#[verifier::external_body]
fn unescape_text(text: &str) -> (r: Option<String>)
    ensures
        match r {
            Some(plain) => unescaped(text@) == Some(plain@),
            None => unescaped(text@) is None,
        },
{
    unescape::unescape(text)
}

/// The query for the constants `emHeight` and `spaceWidth`.
pub const NUMBER_CONSTANT: &'static str = "
(value_declaration
    functionDeclarationLeft: (function_declaration_left) @lower_case_identifier
    body: (number_constant_expr) @number_literal
    (#match? @lower_case_identifier \"^(emHeight|spaceWidth)$\")
)";

/// The query for the tuple `defaultBearings`.
pub const DEFAULT_BEARINGS: &'static str = "
(value_declaration
    functionDeclarationLeft: (function_declaration_left) @lower_case_identifier
    body: (tuple_expr
        expr: (number_constant_expr (number_literal) @left_bearing)
        expr: (number_constant_expr (number_literal) @right_bearing)
    )
    (#eq? @lower_case_identifier \"defaultBearings\")
)";

/// The query for the entries of `bearingsDict`.
pub const BEARINGS: &'static str = "
(value_declaration
    functionDeclarationLeft: (function_declaration_left) @lower_case_identifier
    body: (function_call_expr
        arg: (list_expr
            exprList: (tuple_expr
                expr: (string_constant_expr) @name
                expr: (tuple_expr
                    expr: (number_constant_expr) @left_bearing
                    expr: (number_constant_expr) @right_bearing
                )
            )
        )
    )
    (#eq? @lower_case_identifier \"bearingsDict\")
)";

/// The query for the entries of `leftKerningClass` and `rightKerningClass`.
pub const KERNING_CLASS: &'static str = "
(value_declaration
    functionDeclarationLeft: (function_declaration_left) @lower_case_identifier
    body: (function_call_expr
        arg: (list_expr
            exprList: (tuple_expr
                expr: (number_constant_expr) @class
                expr: (list_expr) @chars
            )
        )
    )
    (#match? @lower_case_identifier \"^(leftKerningClass|rightKerningClass)$\")
)";

/// The query for the entries of `kerningDict`.
pub const KERNING_PAIRS: &'static str = "
(value_declaration
    functionDeclarationLeft: (function_declaration_left) @lower_case_identifier
    body: (function_call_expr
        arg: (list_expr
            exprList: (tuple_expr
                expr: (tuple_expr
                    expr: (number_constant_expr) @left_class
                    expr: (number_constant_expr) @right_class
                )
                expr: (number_constant_expr) @kerning
            )
        )
    )
    (#eq? @lower_case_identifier \"kerningDict\")
)";

/// The query for the entries of `kerningOverrides`.
pub const KERNING_OVERRIDES: &'static str = "
(value_declaration
    functionDeclarationLeft: (function_declaration_left) @lower_case_identifier
    body: (function_call_expr
        arg: (list_expr
            exprList: (tuple_expr
                expr: (tuple_expr
                    expr: (string_constant_expr) @left_char
                    expr: (string_constant_expr) @right_char
                )
                expr: (number_constant_expr) @kerning
            )
        )
    )
    (#eq? @lower_case_identifier \"kerningOverrides\")
)";

/// The query for the strings of a list.
pub const STRING_LIST: &'static str = "
(list_expr
    exprList: (string_constant_expr) @string
)";

/// The text of capture `k` of a match, with its escapes replaced.
pub open spec fn capture_text(m: Seq<CaptureView>, k: int) -> Option<Seq<char>> {
    if 0 <= k < m.len() {
        unescaped(m[k].2)
    } else {
        None
    }
}

/// What stands between the quotes of a string constant: between one quote
/// at each end, or three.
pub open spec fn unquoted(text: Seq<char>) -> Option<Seq<char>> {
    if text.len() >= 6 && text.take(3) == "\"\"\""@ && text.skip(text.len() - 3) == "\"\"\""@ {
        Some(text.subrange(3, text.len() - 3))
    } else if text.len() >= 2 && text[0] == '"' && text[text.len() - 1] == '"' {
        Some(text.subrange(1, text.len() - 1))
    } else {
        None
    }
}

/// The string that capture `k` of a match, a string constant, stands for.
pub open spec fn capture_string(m: Seq<CaptureView>, k: int) -> Option<Seq<char>> {
    if 0 <= k < m.len() {
        match unquoted(m[k].2) {
            Some(inner) => unescaped(inner),
            None => None,
        }
    } else {
        None
    }
}

/// The number between `low` and `high` that capture `k` of a match stands for.
pub open spec fn capture_number(m: Seq<CaptureView>, k: int, signed: bool, low: int, high: int) -> Option<
    int,
> {
    match capture_text(m, k) {
        Some(text) => parse_decimal(text, signed, low, high),
        None => None,
    }
}

/// The text of a capture of a match, with its escapes replaced.
pub fn text_of(m: &Vec<Capture>, k: usize) -> (r: Option<String>)
    ensures
        match r {
            Some(text) => capture_text(captures_view(*m), k as int) == Some(text@),
            None => capture_text(captures_view(*m), k as int) is None,
        },
{
    if k < m.len() {
        unescape_text(m[k].text.as_str())
    } else {
        None
    }
}

/// What stands between the quotes of a string constant.
pub fn unquote(text: &[char]) -> (r: Option<&[char]>)
    ensures
        match r {
            Some(inner) => unquoted(text@) == Some(inner@),
            None => unquoted(text@) is None,
        },
{
    proof {
        reveal_strlit("\"\"\"");
    }
    let n: usize = text.len();
    if n >= 6 && text[0] == '"' && text[1] == '"' && text[2] == '"' && text[n - 1] == '"' && text[n
        - 2] == '"' && text[n - 3] == '"' {
        assert(text@.take(3) =~= "\"\"\""@);
        assert(text@.skip(n - 3) =~= "\"\"\""@);
        Some(vstd::slice::slice_subrange(text, 3, n - 3))
    } else if n >= 2 && text[0] == '"' && text[n - 1] == '"' {
        proof {
            if n >= 6 && text@.take(3) == "\"\"\""@ && text@.skip(n - 3) == "\"\"\""@ {
                assert(text@.take(3)[1] == text@[1] && text@.take(3)[2] == text@[2]);
                assert(text@.skip(n - 3)[0] == text@[n - 3] && text@.skip(n - 3)[1] == text@[n
                    - 2]);
            }
        }
        Some(vstd::slice::slice_subrange(text, 1, n - 1))
    } else {
        proof {
            if n >= 6 && text@.take(3) == "\"\"\""@ && text@.skip(n - 3) == "\"\"\""@ {
                assert(text@.take(3)[0] == text@[0]);
                assert(text@.skip(n - 3)[2] == text@[n - 1]);
            }
        }
        None
    }
}

/// The string that a capture of a match, a string constant, stands for.
pub fn string_of_capture(m: &Vec<Capture>, k: usize) -> (r: Option<String>)
    ensures
        match r {
            Some(text) => capture_string(captures_view(*m), k as int) == Some(text@),
            None => capture_string(captures_view(*m), k as int) is None,
        },
{
    if k < m.len() {
        let text = chars_of(m[k].text.as_str());
        match unquote(text.as_slice()) {
            Some(inner) => unescape_text(crate::text::string_of(inner).as_str()),
            None => None,
        }
    } else {
        None
    }
}

/// Whether a string is empty.
fn is_empty(text: &String) -> (r: bool)
    ensures
        r == (text@.len() == 0),
{
    text.as_str().unicode_len() == 0
}

/// The number that a capture of a match stands for.
pub fn number_of(m: &Vec<Capture>, k: usize, signed: bool, low: i64, high: i64) -> (r: Option<i64>)
    requires
        -0x1_0000_0000 <= low <= 0 <= high <= 0x1_0000_0000,
    ensures
        match r {
            Some(v) => capture_number(captures_view(*m), k as int, signed, low as int, high as int)
                == Some(v as int),
            None => capture_number(captures_view(*m), k as int, signed, low as int, high as int)
                is None,
        },
{
    match text_of(m, k) {
        Some(text) => {
            let chars = chars_of(text.as_str());
            parse_number(chars.as_slice(), signed, low, high)
        },
        None => None,
    }
}

} // verus!

verus! {

/// The texts of strings.
pub open spec fn strings_view(strings: Seq<String>) -> Seq<Seq<char>> {
    strings.map_values(|s: String| s@)
}

/// Bearings by glyph as plain values.
pub open spec fn bearings_view(entries: Seq<(String, (i8, i8))>) -> Seq<(Seq<char>, (i8, i8))> {
    entries.map_values(|e: (String, (i8, i8))| (e.0@, e.1))
}

/// Kerning classes with their members as plain values.
pub open spec fn classes_view(entries: Seq<(u8, Vec<String>)>) -> Seq<(u8, Seq<Seq<char>>)> {
    entries.map_values(|e: (u8, Vec<String>)| (e.0, strings_view(e.1@)))
}

/// Overrides by glyph pair as plain values.
pub open spec fn overrides_view(entries: Seq<(String, String, i8)>) -> Seq<
    (Seq<char>, Seq<char>, i8),
> {
    entries.map_values(|e: (String, String, i8)| (e.0@, e.1@, e.2))
}

/// Line height and space width as the matches for the number constants give
/// them: each match sets the one that it names; a later match goes before
/// an earlier.
pub open spec fn heights(matches: Seq<Seq<CaptureView>>) -> Option<(u32, u32)>
    decreases matches.len(),
{
    if matches.len() == 0 {
        Some((0u32, 0u32))
    } else {
        let m = matches.last();
        match (heights(matches.drop_last()), capture_number(m, 1, false, 0, u32::MAX as int)) {
            (Some(before), Some(v)) => if m[0].2 == "emHeight"@ {
                Some((v as u32, before.1))
            } else if m[0].2 == "spaceWidth"@ {
                Some((before.0, v as u32))
            } else {
                Some(before)
            },
            _ => None,
        }
    }
}

/// The default bearings as the first match for them gives them.
pub open spec fn defaults(matches: Seq<Seq<CaptureView>>) -> Option<(i8, i8)> {
    if matches.len() == 0 {
        None
    } else {
        match (
            capture_number(matches[0], 1, true, i8::MIN as int, i8::MAX as int),
            capture_number(matches[0], 2, true, i8::MIN as int, i8::MAX as int),
        ) {
            (Some(left), Some(right)) => Some((left as i8, right as i8)),
            _ => None,
        }
    }
}

/// The bearings of a glyph as a match gives them.
pub open spec fn bearing_entry(m: Seq<CaptureView>) -> Option<(Seq<char>, (i8, i8))> {
    match (
        capture_string(m, 1),
        capture_number(m, 2, true, i8::MIN as int, i8::MAX as int),
        capture_number(m, 3, true, i8::MIN as int, i8::MAX as int),
    ) {
        (Some(name), Some(left), Some(right)) => Some((name, (left as i8, right as i8))),
        _ => None,
    }
}

/// The bearings by glyph as the matches give them: one entry for each match
/// that names a glyph; a match with an empty name is passed over.
pub open spec fn bearing_entries(matches: Seq<Seq<CaptureView>>) -> Option<
    Seq<(Seq<char>, (i8, i8))>,
>
    decreases matches.len(),
{
    if matches.len() == 0 {
        Some(Seq::empty())
    } else {
        match (bearing_entries(matches.drop_last()), bearing_entry(matches.last())) {
            (Some(before), Some(entry)) => if entry.0.len() == 0 {
                Some(before)
            } else {
                Some(before.push(entry))
            },
            _ => None,
        }
    }
}

/// The class pair with its adjustment as a match gives it.
pub open spec fn pair_entry(m: Seq<CaptureView>) -> Option<(u8, u8, i8)> {
    match (
        capture_number(m, 1, false, 0, u8::MAX as int),
        capture_number(m, 2, false, 0, u8::MAX as int),
        capture_number(m, 3, true, i8::MIN as int, i8::MAX as int),
    ) {
        (Some(left), Some(right), Some(kerning)) => Some((left as u8, right as u8, kerning as i8)),
        _ => None,
    }
}

/// The class pairs as the matches give them, one entry for each match.
pub open spec fn pair_entries(matches: Seq<Seq<CaptureView>>) -> Option<Seq<(u8, u8, i8)>>
    decreases matches.len(),
{
    if matches.len() == 0 {
        Some(Seq::empty())
    } else {
        match (pair_entries(matches.drop_last()), pair_entry(matches.last())) {
            (Some(before), Some(entry)) => Some(before.push(entry)),
            _ => None,
        }
    }
}

/// The override with its adjustment as a match gives it.
pub open spec fn override_entry(m: Seq<CaptureView>) -> Option<(Seq<char>, Seq<char>, i8)> {
    match (
        capture_string(m, 1),
        capture_string(m, 2),
        capture_number(m, 3, true, i8::MIN as int, i8::MAX as int),
    ) {
        (Some(left), Some(right), Some(kerning)) => Some((left, right, kerning as i8)),
        _ => None,
    }
}

/// The overrides as the matches give them: one entry for each match that
/// names two glyphs; a match with an empty name is passed over.
pub open spec fn override_entries(matches: Seq<Seq<CaptureView>>) -> Option<
    Seq<(Seq<char>, Seq<char>, i8)>,
>
    decreases matches.len(),
{
    if matches.len() == 0 {
        Some(Seq::empty())
    } else {
        match (override_entries(matches.drop_last()), override_entry(matches.last())) {
            (Some(before), Some(entry)) => if entry.0.len() == 0 || entry.1.len() == 0 {
                Some(before)
            } else {
                Some(before.push(entry))
            },
            _ => None,
        }
    }
}

/// The strings of a list as the matches give them, one for each match; an
/// empty string is passed over.
pub open spec fn string_entries(matches: Seq<Seq<CaptureView>>) -> Option<Seq<Seq<char>>>
    decreases matches.len(),
{
    if matches.len() == 0 {
        Some(Seq::empty())
    } else {
        match (string_entries(matches.drop_last()), capture_string(matches.last(), 0)) {
            (Some(before), Some(text)) => if text.len() == 0 {
                Some(before)
            } else {
                Some(before.push(text))
            },
            _ => None,
        }
    }
}

/// The kerning class with its members as a match gives it: the number of
/// the class, and the strings of the list behind it.
pub open spec fn class_entry(source: Seq<u8>, m: Seq<CaptureView>) -> Option<(u8, Seq<Seq<char>>)> {
    match capture_number(m, 1, false, 0, u8::MAX as int) {
        Some(class) => if m.len() > 2 {
            match elm_matches(source, STRING_LIST@, m[2].0, m[2].1) {
                Some(found) => match string_entries(found) {
                    Some(members) => Some((class as u8, members)),
                    None => None,
                },
                None => None,
            }
        } else {
            None
        },
        None => None,
    }
}

/// The kerning classes of left-hand and of right-hand glyphs as the matches
/// give them: each match adds a class to the side that it names.
pub open spec fn class_entries(source: Seq<u8>, matches: Seq<Seq<CaptureView>>) -> Option<
    (Seq<(u8, Seq<Seq<char>>)>, Seq<(u8, Seq<Seq<char>>)>),
>
    decreases matches.len(),
{
    if matches.len() == 0 {
        Some((Seq::empty(), Seq::empty()))
    } else {
        let m = matches.last();
        match (class_entries(source, matches.drop_last()), class_entry(source, m)) {
            (Some(before), Some(entry)) => if m[0].2 == "leftKerningClass"@ {
                Some((before.0.push(entry), before.1))
            } else if m[0].2 == "rightKerningClass"@ {
                Some((before.0, before.1.push(entry)))
            } else {
                Some(before)
            },
            _ => None,
        }
    }
}

/// The matches of a query in the whole of a source, with what a step makes
/// of them.
pub open spec fn found_in(source: Seq<u8>, pattern: Seq<char>) -> Option<Seq<Seq<CaptureView>>> {
    elm_matches(source, pattern, 0, source.len() as usize)
}

/// What an Elm source describes: line height and space width, the default
/// bearings, the bearings by glyph, the kerning classes of left-hand and of
/// right-hand glyphs, the class pairs and the overrides; none where a part
/// of it cannot be read.
pub open spec fn described(source: Seq<u8>) -> Option<
    (
        (u32, u32),
        (i8, i8),
        Seq<(Seq<char>, (i8, i8))>,
        (Seq<(u8, Seq<Seq<char>>)>, Seq<(u8, Seq<Seq<char>>)>),
        Seq<(u8, u8, i8)>,
        Seq<(Seq<char>, Seq<char>, i8)>,
    ),
> {
    match (
        found_in(source, NUMBER_CONSTANT@),
        found_in(source, DEFAULT_BEARINGS@),
        found_in(source, BEARINGS@),
        found_in(source, KERNING_CLASS@),
        found_in(source, KERNING_PAIRS@),
        found_in(source, KERNING_OVERRIDES@),
    ) {
        (Some(numbers), Some(bearing), Some(bearings), Some(classes), Some(pairs), Some(overrides)) => {
            match (
                heights(numbers),
                defaults(bearing),
                bearing_entries(bearings),
                class_entries(source, classes),
                pair_entries(pairs),
                override_entries(overrides),
            ) {
                (Some(h), Some(d), Some(b), Some(c), Some(p), Some(o)) => Some((h, d, b, c, p, o)),
                _ => None,
            }
        },
        _ => None,
    }
}

/// What the data of a description holds, as plain values.
pub open spec fn data_view(data: ElmFileData) -> (
    (u32, u32),
    (i8, i8),
    Seq<(Seq<char>, (i8, i8))>,
    (Seq<(u8, Seq<Seq<char>>)>, Seq<(u8, Seq<Seq<char>>)>),
    Seq<(u8, u8, i8)>,
    Seq<(Seq<char>, Seq<char>, i8)>,
) {
    (
        (data.line_height, data.space_width),
        data.default_bearings,
        bearings_view(data.bearings@),
        (classes_view(data.left_kerning_class@), classes_view(data.right_kerning_class@)),
        data.kerning_pairs@,
        overrides_view(data.kerning_overrides@),
    )
}

} // verus!

verus! {

/// Line height and space width as the matches for the number constants give them.
pub fn read_heights(found: &Vec<Vec<Capture>>) -> (r: Option<(u32, u32)>)
    ensures
        r == heights(matches_view(found@)),
{
    let ghost all = matches_view(found@);
    let em_height = chars_of("emHeight");
    let space_width = chars_of("spaceWidth");
    let mut state: (u32, u32) = (0, 0);
    let mut i: usize = 0;
    assert(all.take(0) =~= Seq::<Seq<CaptureView>>::empty());
    while i < found.len()
        invariant
            i <= found@.len(),
            all == matches_view(found@),
            em_height@ == "emHeight"@,
            space_width@ == "spaceWidth"@,
            heights(all.take(i as int)) == Some(state),
        decreases found@.len() - i,
    {
        let m = &found[i];
        proof {
            assert(all.take(i + 1).drop_last() =~= all.take(i as int));
            assert(all.take(i + 1).last() == captures_view(*m));
        }
        match number_of(m, 1, false, 0, u32::MAX as i64) {
            Some(v) => {
                assert(captures_view(*m)[0].2 == m@[0].text@);
                if str_is(m[0].text.as_str(), em_height.as_slice()) {
                    state = (v as u32, state.1);
                } else if str_is(m[0].text.as_str(), space_width.as_slice()) {
                    state = (state.0, v as u32);
                }
            },
            None => {
                proof {
                    lemma_heights_fail(all, i + 1);
                }
                return None;
            },
        }
        i += 1;
    }
    assert(all.take(i as int) =~= all);
    Some(state)
}

/// Where the matches up to some place give no heights, all of them give none.
proof fn lemma_heights_fail(matches: Seq<Seq<CaptureView>>, n: int)
    requires
        0 <= n <= matches.len(),
        heights(matches.take(n)) is None,
    ensures
        heights(matches) is None,
    decreases matches.len() - n,
{
    if n < matches.len() {
        assert(matches.take(n + 1).drop_last() =~= matches.take(n));
        lemma_heights_fail(matches, n + 1);
    } else {
        assert(matches.take(n) =~= matches);
    }
}

/// The default bearings as the first match for them gives them.
pub fn read_defaults(found: &Vec<Vec<Capture>>) -> (r: Option<(i8, i8)>)
    ensures
        r == defaults(matches_view(found@)),
{
    if found.len() == 0 {
        return None;
    }
    let m = &found[0];
    assert(matches_view(found@)[0] == captures_view(*m));
    match (number_of(m, 1, true, i8::MIN as i64, i8::MAX as i64), number_of(
        m,
        2,
        true,
        i8::MIN as i64,
        i8::MAX as i64,
    )) {
        (Some(left), Some(right)) => Some((left as i8, right as i8)),
        _ => None,
    }
}

/// Where the matches up to some place give no bearings, all of them give none.
proof fn lemma_bearings_fail(matches: Seq<Seq<CaptureView>>, n: int)
    requires
        0 <= n <= matches.len(),
        bearing_entries(matches.take(n)) is None,
    ensures
        bearing_entries(matches) is None,
    decreases matches.len() - n,
{
    if n < matches.len() {
        assert(matches.take(n + 1).drop_last() =~= matches.take(n));
        lemma_bearings_fail(matches, n + 1);
    } else {
        assert(matches.take(n) =~= matches);
    }
}

/// The bearings by glyph as the matches give them.
pub fn read_bearings(found: &Vec<Vec<Capture>>) -> (r: Option<Vec<(String, (i8, i8))>>)
    ensures
        match r {
            Some(entries) => bearing_entries(matches_view(found@)) == Some(bearings_view(entries@)),
            None => bearing_entries(matches_view(found@)) is None,
        },
{
    let ghost all = matches_view(found@);
    let mut entries: Vec<(String, (i8, i8))> = Vec::new();
    let mut i: usize = 0;
    assert(all.take(0) =~= Seq::<Seq<CaptureView>>::empty());
    assert(bearings_view(entries@) =~= Seq::<(Seq<char>, (i8, i8))>::empty());
    while i < found.len()
        invariant
            i <= found@.len(),
            all == matches_view(found@),
            bearing_entries(all.take(i as int)) == Some(bearings_view(entries@)),
        decreases found@.len() - i,
    {
        let m = &found[i];
        let ghost before = bearings_view(entries@);
        proof {
            assert(all.take(i + 1).drop_last() =~= all.take(i as int));
            assert(all.take(i + 1).last() == captures_view(*m));
        }
        match (string_of_capture(m, 1), number_of(m, 2, true, i8::MIN as i64, i8::MAX as i64), number_of(
            m,
            3,
            true,
            i8::MIN as i64,
            i8::MAX as i64,
        )) {
            (Some(name), Some(left), Some(right)) => {
                if !is_empty(&name) {
                    entries.push((name, (left as i8, right as i8)));
                    assert(bearings_view(entries@) =~= before.push(
                        (name@, (left as i8, right as i8)),
                    ));
                }
            },
            _ => {
                proof {
                    lemma_bearings_fail(all, i + 1);
                }
                return None;
            },
        }
        i += 1;
    }
    assert(all.take(i as int) =~= all);
    Some(entries)
}

/// Where the matches up to some place give no class pairs, all of them give none.
proof fn lemma_pairs_fail(matches: Seq<Seq<CaptureView>>, n: int)
    requires
        0 <= n <= matches.len(),
        pair_entries(matches.take(n)) is None,
    ensures
        pair_entries(matches) is None,
    decreases matches.len() - n,
{
    if n < matches.len() {
        assert(matches.take(n + 1).drop_last() =~= matches.take(n));
        lemma_pairs_fail(matches, n + 1);
    } else {
        assert(matches.take(n) =~= matches);
    }
}

/// The class pairs as the matches give them.
pub fn read_pairs(found: &Vec<Vec<Capture>>) -> (r: Option<Vec<(u8, u8, i8)>>)
    ensures
        match r {
            Some(entries) => pair_entries(matches_view(found@)) == Some(entries@),
            None => pair_entries(matches_view(found@)) is None,
        },
{
    let ghost all = matches_view(found@);
    let mut entries: Vec<(u8, u8, i8)> = Vec::new();
    let mut i: usize = 0;
    assert(all.take(0) =~= Seq::<Seq<CaptureView>>::empty());
    while i < found.len()
        invariant
            i <= found@.len(),
            all == matches_view(found@),
            pair_entries(all.take(i as int)) == Some(entries@),
        decreases found@.len() - i,
    {
        let m = &found[i];
        proof {
            assert(all.take(i + 1).drop_last() =~= all.take(i as int));
            assert(all.take(i + 1).last() == captures_view(*m));
        }
        match (number_of(m, 1, false, 0, u8::MAX as i64), number_of(m, 2, false, 0, u8::MAX as i64), number_of(
            m,
            3,
            true,
            i8::MIN as i64,
            i8::MAX as i64,
        )) {
            (Some(left), Some(right), Some(kerning)) => {
                entries.push((left as u8, right as u8, kerning as i8));
            },
            _ => {
                proof {
                    lemma_pairs_fail(all, i + 1);
                }
                return None;
            },
        }
        i += 1;
    }
    assert(all.take(i as int) =~= all);
    Some(entries)
}

/// Where the matches up to some place give no overrides, all of them give none.
proof fn lemma_overrides_fail(matches: Seq<Seq<CaptureView>>, n: int)
    requires
        0 <= n <= matches.len(),
        override_entries(matches.take(n)) is None,
    ensures
        override_entries(matches) is None,
    decreases matches.len() - n,
{
    if n < matches.len() {
        assert(matches.take(n + 1).drop_last() =~= matches.take(n));
        lemma_overrides_fail(matches, n + 1);
    } else {
        assert(matches.take(n) =~= matches);
    }
}

/// The overrides as the matches give them.
pub fn read_overrides(found: &Vec<Vec<Capture>>) -> (r: Option<Vec<(String, String, i8)>>)
    ensures
        match r {
            Some(entries) => override_entries(matches_view(found@)) == Some(
                overrides_view(entries@),
            ),
            None => override_entries(matches_view(found@)) is None,
        },
{
    let ghost all = matches_view(found@);
    let mut entries: Vec<(String, String, i8)> = Vec::new();
    let mut i: usize = 0;
    assert(all.take(0) =~= Seq::<Seq<CaptureView>>::empty());
    assert(overrides_view(entries@) =~= Seq::<(Seq<char>, Seq<char>, i8)>::empty());
    while i < found.len()
        invariant
            i <= found@.len(),
            all == matches_view(found@),
            override_entries(all.take(i as int)) == Some(overrides_view(entries@)),
        decreases found@.len() - i,
    {
        let m = &found[i];
        let ghost before = overrides_view(entries@);
        proof {
            assert(all.take(i + 1).drop_last() =~= all.take(i as int));
            assert(all.take(i + 1).last() == captures_view(*m));
        }
        match (string_of_capture(m, 1), string_of_capture(m, 2), number_of(
            m,
            3,
            true,
            i8::MIN as i64,
            i8::MAX as i64,
        )) {
            (Some(left), Some(right), Some(kerning)) => {
                if !is_empty(&left) && !is_empty(&right) {
                    entries.push((left, right, kerning as i8));
                    assert(overrides_view(entries@) =~= before.push(
                        (left@, right@, kerning as i8),
                    ));
                }
            },
            _ => {
                proof {
                    lemma_overrides_fail(all, i + 1);
                }
                return None;
            },
        }
        i += 1;
    }
    assert(all.take(i as int) =~= all);
    Some(entries)
}

/// Where the matches up to some place give no strings, all of them give none.
proof fn lemma_strings_fail(matches: Seq<Seq<CaptureView>>, n: int)
    requires
        0 <= n <= matches.len(),
        string_entries(matches.take(n)) is None,
    ensures
        string_entries(matches) is None,
    decreases matches.len() - n,
{
    if n < matches.len() {
        assert(matches.take(n + 1).drop_last() =~= matches.take(n));
        lemma_strings_fail(matches, n + 1);
    } else {
        assert(matches.take(n) =~= matches);
    }
}

/// The strings of a list as the matches give them.
pub fn read_strings(found: &Vec<Vec<Capture>>) -> (r: Option<Vec<String>>)
    ensures
        match r {
            Some(strings) => string_entries(matches_view(found@)) == Some(strings_view(strings@)),
            None => string_entries(matches_view(found@)) is None,
        },
{
    let ghost all = matches_view(found@);
    let mut strings: Vec<String> = Vec::new();
    let mut i: usize = 0;
    assert(all.take(0) =~= Seq::<Seq<CaptureView>>::empty());
    assert(strings_view(strings@) =~= Seq::<Seq<char>>::empty());
    while i < found.len()
        invariant
            i <= found@.len(),
            all == matches_view(found@),
            string_entries(all.take(i as int)) == Some(strings_view(strings@)),
        decreases found@.len() - i,
    {
        let m = &found[i];
        let ghost before = strings_view(strings@);
        proof {
            assert(all.take(i + 1).drop_last() =~= all.take(i as int));
            assert(all.take(i + 1).last() == captures_view(*m));
        }
        match string_of_capture(m, 0) {
            Some(text) => {
                if !is_empty(&text) {
                    strings.push(text);
                    assert(strings_view(strings@) =~= before.push(text@));
                }
            },
            None => {
                proof {
                    lemma_strings_fail(all, i + 1);
                }
                return None;
            },
        }
        i += 1;
    }
    assert(all.take(i as int) =~= all);
    Some(strings)
}

/// The kerning class with its members as a match gives it.
pub fn read_class(source: &[u8], m: &Vec<Capture>) -> (r: Option<(u8, Vec<String>)>)
    ensures
        match r {
            Some(entry) => class_entry(source@, captures_view(*m)) == Some(
                (entry.0, strings_view(entry.1@)),
            ),
            None => class_entry(source@, captures_view(*m)) is None,
        },
{
    let class = match number_of(m, 1, false, 0, u8::MAX as i64) {
        Some(class) => class as u8,
        None => {
            return None;
        },
    };
    if m.len() <= 2 {
        return None;
    }
    assert(captures_view(*m)[2].0 == m@[2].start && captures_view(*m)[2].1 == m@[2].end);
    let found = match query(source, STRING_LIST, m[2].start, m[2].end) {
        Some(found) => found,
        None => {
            return None;
        },
    };
    match read_strings(&found) {
        Some(members) => Some((class, members)),
        None => None,
    }
}

/// Where the matches up to some place give no classes, all of them give none.
proof fn lemma_classes_fail(source: Seq<u8>, matches: Seq<Seq<CaptureView>>, n: int)
    requires
        0 <= n <= matches.len(),
        class_entries(source, matches.take(n)) is None,
    ensures
        class_entries(source, matches) is None,
    decreases matches.len() - n,
{
    if n < matches.len() {
        assert(matches.take(n + 1).drop_last() =~= matches.take(n));
        lemma_classes_fail(source, matches, n + 1);
    } else {
        assert(matches.take(n) =~= matches);
    }
}

/// The kerning classes of left-hand and of right-hand glyphs as the matches give them.
pub fn read_classes(source: &[u8], found: &Vec<Vec<Capture>>) -> (r: Option<
    (Vec<(u8, Vec<String>)>, Vec<(u8, Vec<String>)>),
>)
    ensures
        match r {
            Some(classes) => class_entries(source@, matches_view(found@)) == Some(
                (classes_view(classes.0@), classes_view(classes.1@)),
            ),
            None => class_entries(source@, matches_view(found@)) is None,
        },
{
    let ghost all = matches_view(found@);
    let left_name = chars_of("leftKerningClass");
    let right_name = chars_of("rightKerningClass");
    let mut left: Vec<(u8, Vec<String>)> = Vec::new();
    let mut right: Vec<(u8, Vec<String>)> = Vec::new();
    let mut i: usize = 0;
    proof {
        assert(all.take(0) =~= Seq::<Seq<CaptureView>>::empty());
        assert(classes_view(left@) =~= Seq::<(u8, Seq<Seq<char>>)>::empty());
        assert(classes_view(right@) =~= Seq::<(u8, Seq<Seq<char>>)>::empty());
    }
    while i < found.len()
        invariant
            i <= found@.len(),
            all == matches_view(found@),
            left_name@ == "leftKerningClass"@,
            right_name@ == "rightKerningClass"@,
            class_entries(source@, all.take(i as int)) == Some(
                (classes_view(left@), classes_view(right@)),
            ),
        decreases found@.len() - i,
    {
        let m = &found[i];
        let ghost left_before = classes_view(left@);
        let ghost right_before = classes_view(right@);
        proof {
            assert(all.take(i + 1).drop_last() =~= all.take(i as int));
            assert(all.take(i + 1).last() == captures_view(*m));
        }
        match read_class(source, m) {
            Some(entry) => {
                let ghost plain = (entry.0, strings_view(entry.1@));
                assert(captures_view(*m)[0].2 == m@[0].text@);
                if str_is(m[0].text.as_str(), left_name.as_slice()) {
                    left.push(entry);
                    assert(classes_view(left@) =~= left_before.push(plain));
                } else if str_is(m[0].text.as_str(), right_name.as_slice()) {
                    right.push(entry);
                    assert(classes_view(right@) =~= right_before.push(plain));
                }
            },
            None => {
                proof {
                    lemma_classes_fail(source@, all, i + 1);
                }
                return None;
            },
        }
        i += 1;
    }
    assert(all.take(i as int) =~= all);
    Some((left, right))
}

impl ElmFileData {
    /// What an Elm source describes; none where a part of it cannot be
    /// read: the source cannot be parsed, a number is none of its kind, or a
    /// string has an escape that is none.
    pub fn parse(source: &[u8]) -> (r: Option<ElmFileData>)
        ensures
            match r {
                Some(data) => described(source@) == Some(data_view(data)),
                None => described(source@) is None,
            },
    {
        let end: usize = source.len();
        let numbers = query(source, NUMBER_CONSTANT, 0, end);
        let bearing = query(source, DEFAULT_BEARINGS, 0, end);
        let bearings = query(source, BEARINGS, 0, end);
        let classes = query(source, KERNING_CLASS, 0, end);
        let pairs = query(source, KERNING_PAIRS, 0, end);
        let overrides = query(source, KERNING_OVERRIDES, 0, end);
        match (numbers, bearing, bearings, classes, pairs, overrides) {
            (Some(numbers), Some(bearing), Some(bearings), Some(classes), Some(pairs), Some(overrides)) => {
                match (
                    read_heights(&numbers),
                    read_defaults(&bearing),
                    read_bearings(&bearings),
                    read_classes(source, &classes),
                    read_pairs(&pairs),
                    read_overrides(&overrides),
                ) {
                    (Some(heights), Some(default_bearings), Some(bearings), Some(
                        classes,
                    ), Some(kerning_pairs), Some(kerning_overrides)) => Some(
                        ElmFileData {
                            line_height: heights.0,
                            space_width: heights.1,
                            default_bearings,
                            bearings,
                            left_kerning_class: classes.0,
                            right_kerning_class: classes.1,
                            kerning_pairs,
                            kerning_overrides,
                        },
                    ),
                    _ => None,
                }
            },
            _ => None,
        }
    }
}

} // verus!
