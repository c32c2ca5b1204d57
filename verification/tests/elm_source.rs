use mogeefont::elm_source::{
    number_of, read_bearings, read_class, read_classes, read_defaults, read_heights,
    read_overrides, read_pairs, read_strings, string_of_capture, text_of, unquote, Capture,
};
use mogeefont::ElmFileData;

const MODULE: &str = r#"module MogeeFont exposing (emHeight, spaceWidth)

import Dict exposing (Dict)


emHeight =
    11


spaceWidth =
    3


other =
    7


defaultBearings =
    ( 0, 1 )


bearingsDict =
    Dict.fromList
        [ ( "j", ( -2, 1 ) )
        , ( "jj", ( -2, 1 ) )
        , ( "\"", ( 0, 2 ) )
        ]


leftKerningClass =
    invertDict
        [ ( 1, [ "A", "B", "\\" ] )
        , ( 16, [ "o" ] )
        ]


rightKerningClass =
    invertDict
        [ ( 14, [ ",", "." ] )
        ]


kerningDict =
    Dict.fromList
        [ ( ( 16, 14 ), -1 )
        , ( ( 1, 14 ), -2 )
        ]


kerningOverrides =
    Dict.fromList
        [ ( ( "\\", "\\" ), -2 )
        , ( ( "C", "f" ), -1 )
        ]
"#;

fn strings(names: &[&str]) -> Vec<String> {
    names.iter().map(|s| s.to_string()).collect()
}

#[test]
fn a_description_is_read_from_its_module() {
    let data = ElmFileData::parse(MODULE.as_bytes()).unwrap();
    assert_eq!(data.line_height, 11);
    assert_eq!(data.space_width, 3);
    assert_eq!(data.default_bearings, (0, 1));
    assert_eq!(
        data.bearings,
        vec![
            ("j".to_string(), (-2, 1)),
            ("jj".to_string(), (-2, 1)),
            ("\"".to_string(), (0, 2)),
        ]
    );
    assert_eq!(
        data.left_kerning_class,
        vec![(1, strings(&["A", "B", "\\"])), (16, strings(&["o"]))]
    );
    assert_eq!(data.right_kerning_class, vec![(14, strings(&[",", "."]))]);
    assert_eq!(data.kerning_pairs, vec![(16, 14, -1), (1, 14, -2)]);
    assert_eq!(
        data.kerning_overrides,
        vec![
            ("\\".to_string(), "\\".to_string(), -2),
            ("C".to_string(), "f".to_string(), -1),
        ]
    );
}

#[test]
fn a_module_without_default_bearings_describes_nothing() {
    assert!(ElmFileData::parse("emHeight =\n    11\n".as_bytes()).is_none());
    assert!(ElmFileData::parse("".as_bytes()).is_none());
}

#[test]
fn numbers_out_of_their_range_describe_nothing() {
    let small = "defaultBearings =\n    ( 0, 1 )\n";
    let data = ElmFileData::parse(small.as_bytes()).unwrap();
    assert_eq!((data.line_height, data.space_width), (0, 0));
    assert_eq!(data.default_bearings, (0, 1));
    assert!(data.bearings.is_empty() && data.kerning_pairs.is_empty());
    let wide = "defaultBearings =\n    ( 0, 128 )\n";
    assert!(ElmFileData::parse(wide.as_bytes()).is_none());
    let edge = "defaultBearings =\n    ( -128, 127 )\n";
    assert_eq!(ElmFileData::parse(edge.as_bytes()).unwrap().default_bearings, (-128, 127));
    let class = "defaultBearings =\n    ( 0, 1 )\n\n\nkerningDict =\n    Dict.fromList\n        [ ( ( 256, 1 ), -1 )\n        ]\n";
    assert!(ElmFileData::parse(class.as_bytes()).is_none());
    let height = "defaultBearings =\n    ( 0, 1 )\n\n\nemHeight =\n    4294967296\n";
    assert!(ElmFileData::parse(height.as_bytes()).is_none());
    let high = "defaultBearings =\n    ( 0, 1 )\n\n\nemHeight =\n    4294967295\n\n\nspaceWidth =\n    007\n";
    let data = ElmFileData::parse(high.as_bytes()).unwrap();
    assert_eq!((data.line_height, data.space_width), (u32::MAX, 7));
}

#[test]
fn strings_stand_for_what_is_between_their_quotes() {
    let text = "defaultBearings =\n    ( 0, 1 )\n\n\nbearingsDict =\n    Dict.fromList\n        [ ( \"a\\\\b\", ( 0, 4 ) )\n        , ( \"\", ( 0, 5 ) )\n        , ( \"\\t\", ( 0, 6 ) )\n        , ( \"\"\"fi\"\"\", ( 0, 7 ) )\n        ]\n\n\nleftKerningClass =\n    invertDict\n        [ ( 1, [ \"A\", \"\", \"x\\\\\" ] )\n        , ( 2, [] )\n        ]\n\n\nkerningOverrides =\n    Dict.fromList\n        [ ( ( \"\", \"f\" ), -1 )\n        , ( ( \"\\'\", \"\\\"\" ), 1 )\n        ]\n";
    let data = ElmFileData::parse(text.as_bytes()).unwrap();
    assert_eq!(
        data.bearings,
        vec![
            ("a\\b".to_string(), (0, 4)),
            ("\t".to_string(), (0, 6)),
            ("fi".to_string(), (0, 7)),
        ]
    );
    assert_eq!(data.left_kerning_class, vec![(1, strings(&["A", "x\\"])), (2, strings(&[]))]);
    assert_eq!(data.kerning_overrides, vec![("'".to_string(), "\"".to_string(), 1)]);
    // an escape that is none
    let bad = "defaultBearings =\n    ( 0, 1 )\n\n\nbearingsDict =\n    Dict.fromList\n        [ ( \"\\u{0041}\", ( 0, 4 ) )\n        ]\n";
    assert!(ElmFileData::parse(bad.as_bytes()).is_none());
}

/// A match with the given texts as its captures.
fn captured(texts: &[&str]) -> Vec<Capture> {
    texts.iter().map(|t| Capture { start: 0, end: t.len(), text: t.to_string() }).collect()
}

fn chars(text: &str) -> Vec<char> {
    text.chars().collect()
}

#[test]
fn quotes_are_taken_off_a_string_constant() {
    assert_eq!(unquote(&chars("\"a\"")), Some(&chars("a")[..]));
    assert_eq!(unquote(&chars("\"\"")), Some(&chars("")[..]));
    assert_eq!(unquote(&chars("\"\"\"fi\"\"\"")), Some(&chars("fi")[..]));
    assert_eq!(unquote(&chars("\"\"\"\"\"\"")), Some(&chars("")[..]));
    // five quotes are one at each end with three between them
    assert_eq!(unquote(&chars("\"\"\"\"\"")), Some(&chars("\"\"\"")[..]));
    assert_eq!(unquote(&chars("\"")), None);
    assert_eq!(unquote(&chars("")), None);
    assert_eq!(unquote(&chars("a\"")), None);
    assert_eq!(unquote(&chars("\"a")), None);
}

#[test]
fn captures_are_read_as_texts_strings_and_numbers() {
    let m = captured(&["name", "\"a\\\\b\"", "-12", "+3", "256", "x\\ty"]);
    assert_eq!(text_of(&m, 0), Some("name".to_string()));
    assert_eq!(text_of(&m, 5), Some("x\ty".to_string()));
    assert_eq!(text_of(&m, 6), None);
    assert_eq!(string_of_capture(&m, 1), Some("a\\b".to_string()));
    assert_eq!(string_of_capture(&m, 0), None);
    assert_eq!(string_of_capture(&m, 6), None);
    assert_eq!(number_of(&m, 2, true, -128, 127), Some(-12));
    assert_eq!(number_of(&m, 2, false, 0, 255), None);
    assert_eq!(number_of(&m, 3, true, -128, 127), Some(3));
    assert_eq!(number_of(&m, 4, false, 0, 255), None);
    assert_eq!(number_of(&m, 4, false, 0, 256), Some(256));
    assert_eq!(number_of(&m, 0, false, 0, 255), None);
    assert_eq!(number_of(&m, 6, false, 0, 255), None);
}

#[test]
fn heights_are_read_from_their_matches() {
    assert_eq!(read_heights(&vec![]), Some((0, 0)));
    let found = vec![
        captured(&["emHeight", "11"]),
        captured(&["spaceWidth", "3"]),
        captured(&["other", "9"]),
    ];
    assert_eq!(read_heights(&found), Some((11, 3)));
    // the last of two counts
    let twice = vec![captured(&["emHeight", "11"]), captured(&["emHeight", "12"])];
    assert_eq!(read_heights(&twice), Some((12, 0)));
    assert_eq!(read_heights(&vec![captured(&["emHeight", "-1"])]), None);
    assert_eq!(read_heights(&vec![captured(&["other", "x"])]), None);
    assert_eq!(read_heights(&vec![captured(&["emHeight"])]), None);
}

#[test]
fn default_bearings_are_read_from_the_first_match() {
    assert_eq!(read_defaults(&vec![]), None);
    let found = vec![captured(&["defaultBearings", "0", "1"]), captured(&["defaultBearings", "5", "6"])];
    assert_eq!(read_defaults(&found), Some((0, 1)));
    assert_eq!(read_defaults(&vec![captured(&["defaultBearings", "-128", "127"])]), Some((-128, 127)));
    assert_eq!(read_defaults(&vec![captured(&["defaultBearings", "-129", "0"])]), None);
    assert_eq!(read_defaults(&vec![captured(&["defaultBearings", "0"])]), None);
}

#[test]
fn tables_are_read_from_their_matches() {
    let bearings = vec![
        captured(&["bearingsDict", "\"j\"", "-2", "1"]),
        captured(&["bearingsDict", "\"\"", "0", "5"]),
        captured(&["bearingsDict", "\"\"\"fi\"\"\"", "0", "7"]),
    ];
    assert_eq!(
        read_bearings(&bearings),
        Some(vec![("j".to_string(), (-2, 1)), ("fi".to_string(), (0, 7))])
    );
    assert_eq!(read_bearings(&vec![captured(&["bearingsDict", "j", "0", "1"])]), None);
    assert_eq!(read_bearings(&vec![captured(&["bearingsDict", "\"j\"", "0", "128"])]), None);
    assert_eq!(read_bearings(&vec![]), Some(vec![]));

    let pairs = vec![captured(&["kerningDict", "16", "14", "-1"]), captured(&["kerningDict", "1", "255", "2"])];
    assert_eq!(read_pairs(&pairs), Some(vec![(16, 14, -1), (1, 255, 2)]));
    assert_eq!(read_pairs(&vec![captured(&["kerningDict", "256", "14", "-1"])]), None);
    assert_eq!(read_pairs(&vec![captured(&["kerningDict", "1", "-1", "-1"])]), None);
    assert_eq!(read_pairs(&vec![captured(&["kerningDict", "1", "1"])]), None);

    let overrides = vec![
        captured(&["kerningOverrides", "\"C\"", "\"f\"", "-1"]),
        captured(&["kerningOverrides", "\"\"", "\"f\"", "-1"]),
        captured(&["kerningOverrides", "\"f\"", "\"\"", "-1"]),
        captured(&["kerningOverrides", "\"ff\"", "\"j\"", "2"]),
    ];
    assert_eq!(
        read_overrides(&overrides),
        Some(vec![("C".to_string(), "f".to_string(), -1), ("ff".to_string(), "j".to_string(), 2)])
    );
    assert_eq!(read_overrides(&vec![captured(&["kerningOverrides", "\"C\"", "f", "-1"])]), None);

    let list = vec![captured(&["\"A\""]), captured(&["\"\""]), captured(&["\"B\""])];
    assert_eq!(read_strings(&list), Some(strings(&["A", "B"])));
    assert_eq!(read_strings(&vec![captured(&["A"])]), None);
    assert_eq!(read_strings(&vec![captured(&[])]), None);
}

/// The capture of a part of a source.
fn part(source: &str, text: &str) -> Capture {
    let start = source.find(text).unwrap();
    Capture { start, end: start + text.len(), text: text.to_string() }
}

#[test]
fn a_class_is_read_with_the_strings_of_its_list() {
    let source = "leftKerningClass =\n    invertDict\n        [ ( 7, [ \"A\", \"fi\" ] )\n        , ( 8, [ \"x\", \"\" ] )\n        ]\n";
    let bytes = source.as_bytes();
    let class = |name: &str, number: &str, list: &str| {
        vec![part(source, name), part(source, number), part(source, list)]
    };
    let first = class("leftKerningClass", "7", "[ \"A\", \"fi\" ]");
    let second = class("leftKerningClass", "8", "[ \"x\", \"\" ]");
    assert_eq!(read_class(bytes, &first), Some((7, strings(&["A", "fi"]))));
    assert_eq!(read_class(bytes, &second), Some((8, strings(&["x"]))));
    // the class is the number that was captured, whatever the source holds
    let mut other = class("leftKerningClass", "7", "[ \"x\", \"\" ]");
    other[1].text = "255".to_string();
    assert_eq!(read_class(bytes, &other), Some((255, strings(&["x"]))));
    other[1].text = "256".to_string();
    assert_eq!(read_class(bytes, &other), None);
    assert_eq!(read_class(bytes, &captured(&["leftKerningClass", "7"])), None);

    let mut right = class("leftKerningClass", "8", "[ \"x\", \"\" ]");
    right[0].text = "rightKerningClass".to_string();
    let mut neither = class("leftKerningClass", "7", "[ \"A\", \"fi\" ]");
    neither[0].text = "kerningClass".to_string();
    let found = vec![first, right, neither, second];
    assert_eq!(
        read_classes(bytes, &found),
        Some((
            vec![(7, strings(&["A", "fi"])), (8, strings(&["x"]))],
            vec![(8, strings(&["x"]))]
        ))
    );
    assert_eq!(read_classes(bytes, &vec![]), Some((vec![], vec![])));
    assert_eq!(read_classes(bytes, &vec![captured(&["leftKerningClass", "x", "[]"])]), None);
}
