use mogeefont::font_data::FontData;
use mogeefont::source::Subset;
use mogeefont::source_text::{escaped, format_rows};
use mogeefont::specimen_text::{replace_specimen, specimen_row, update_specimen};
use mogeefont::{CodePoint, ElmFileData, GlyphBitmap, GlyphImages};

fn lines(text: &[&str]) -> Vec<String> {
    text.iter().map(|s| s.to_string()).collect()
}

#[test]
fn texts_are_escaped_for_string_literals() {
    assert_eq!(escaped(""), "");
    assert_eq!(escaped("\0 ~"), "\\0\\u{20}\\u{7e}");
    assert_eq!(escaped("\0ffi\0ff"), "\\0\\u{66}\\u{66}\\u{69}\\0\\u{66}\\u{66}");
    assert_eq!(escaped("é\u{10ffff}\u{f}\u{10}"), "\\u{e9}\\u{10ffff}\\u{f}\\u{10}");
}

#[test]
fn rows_are_written_as_tuples() {
    assert_eq!(format_rows(&[]), "");
    assert_eq!(format_rows(&[(0, 0, 0)]), "(0, 0, 0)");
    assert_eq!(
        format_rows(&[(12, 0, 1), (74, -2, 1), (100, -128, 127)]),
        "(12, 0, 1), (74, -2, 1), (100, -128, 127)"
    );
    assert_eq!(
        format_rows(&[(i64::MIN, i64::MAX, 10), (9, 99, -100)]),
        "(-9223372036854775808, 9223372036854775807, 10), (9, 99, -100)"
    );
}

#[test]
fn the_tables_of_a_font_as_text() {
    let solid = |w: u32| GlyphBitmap { width: w, height: 1, luma: vec![0; w as usize] };
    let images = GlyphImages {
        code_points_and_images: vec![
            (CodePoint::Single('a'), solid(1)),
            (CodePoint::Single('b'), solid(2)),
        ],
    };
    let elm = ElmFileData {
        line_height: 1,
        space_width: 1,
        default_bearings: (-1, 2),
        bearings: vec![("b".to_string(), (-2, 1)), ("a".to_string(), (0, 0))],
        left_kerning_class: vec![(1, vec!["a".to_string()])],
        right_kerning_class: vec![(2, vec!["b".to_string()])],
        kerning_pairs: vec![(2, 1, 3), (1, 2, -1)],
        kerning_overrides: vec![("b".to_string(), "a".to_string(), -3)],
    };
    let font = FontData::new(&images, &elm, Subset::All).unwrap();
    assert_eq!(font.side_bearings(), "(1, 0, 0), (2, -2, 1)");
    assert_eq!(font.kerning_pairs(), "(1, 2, -1), (2, 1, 3)");
    assert_eq!(font.kerning_overrides(), "(2, 1, -3)");
    assert_eq!(font.default_bearings_text(), "(-1, 2)");
    assert_eq!(font.charset.name(), "all");
    assert_eq!(font.charset.constant_name(), "ALL");
    assert_eq!(Subset::Ascii.name(), "ascii");
    assert_eq!(Subset::Ascii.constant_name(), "ASCII");
}

#[test]
fn the_table_of_specimens_is_replaced() {
    let rows = vec![specimen_row("ASCII", "data:image/png;base64,AAAA")];
    assert_eq!(rows[0], "//! | `ASCII` | ![ASCII](data:image/png;base64,AAAA) |");
    let input = lines(&[
        "//! # Supported characters",
        "//!",
        "  //START-SPECIMEN\t",
        "//! an old table",
        "//! of two lines",
        "//END-SPECIMEN ",
        "//!",
        "mod font;",
    ]);
    assert_eq!(
        update_specimen(&input, &rows),
        lines(&[
            "//! # Supported characters",
            "//!",
            "  //START-SPECIMEN\t",
            "//! | Charset | Specimen, upscaled to 2x |",
            "//! |---------|----------|",
            "//! | `ASCII` | ![ASCII](data:image/png;base64,AAAA) |",
            "//END-SPECIMEN ",
            "//!",
            "mod font;",
            "",
        ])
    );
    // without marks nothing changes but for the last line
    assert_eq!(update_specimen(&lines(&["a", "b"]), &rows), lines(&["a", "b", ""]));
    // an end mark alone is taken twice
    assert_eq!(
        update_specimen(&lines(&["a", "//END-SPECIMEN", "b"]), &[]),
        lines(&["a", "//END-SPECIMEN", "//END-SPECIMEN", "b", ""])
    );
    // behind a start mark without an end nothing is taken
    assert_eq!(
        update_specimen(&lines(&["//START-SPECIMEN", "b"]), &[]),
        lines(&[
            "//START-SPECIMEN",
            "//! | Charset | Specimen, upscaled to 2x |",
            "//! |---------|----------|",
            ""
        ])
    );
    assert_eq!(update_specimen(&[], &rows), lines(&[""]));
}

#[test]
fn marks_are_known_by_the_bare_lines() {
    let rows = vec!["row".to_string()];
    let input = lines(&["head", "  //START-SPECIMEN\t", "old", " //END-SPECIMEN", "tail"]);
    let bare = ["head", "//START-SPECIMEN", "old", "//END-SPECIMEN", "tail"];
    let expected = lines(&[
        "head",
        "  //START-SPECIMEN\t",
        "//! | Charset | Specimen, upscaled to 2x |",
        "//! |---------|----------|",
        "row",
        " //END-SPECIMEN",
        "tail",
        "",
    ]);
    assert_eq!(replace_specimen(&input, &bare, &rows), expected);
    assert_eq!(update_specimen(&input, &rows), expected);
    // a line is a mark where its bare form is one, whatever the line holds
    assert_eq!(
        replace_specimen(&lines(&["a", "b", "c"]), &["//START-SPECIMEN", "x", "//END-SPECIMEN"], &[]),
        lines(&[
            "a",
            "//! | Charset | Specimen, upscaled to 2x |",
            "//! |---------|----------|",
            "c",
            ""
        ])
    );
    // and none where only the line itself looks like one
    assert_eq!(
        replace_specimen(&lines(&["//START-SPECIMEN", "b"]), &["", "b"], &rows),
        lines(&["//START-SPECIMEN", "b", ""])
    );
    // a mark with text around it is none
    assert_eq!(
        update_specimen(&lines(&["x //START-SPECIMEN", "b"]), &rows),
        lines(&["x //START-SPECIMEN", "b", ""])
    );
    assert_eq!(replace_specimen(&[], &[], &rows), lines(&[""]));
}
