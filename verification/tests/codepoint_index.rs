use embedded_graphics::mono_font::mapping::{GlyphMapping, StrGlyphMapping};
use mogeefont::CodepointIndex;

#[test]
fn a_range_behind_twelve_singles() {
    let index = CodepointIndex::new("0123456789AB\0\u{61}\u{7e}", 3);
    assert_eq!(index.index('0'), 0);
    assert_eq!(index.index('B'), 11);
    assert_eq!(index.index('a'), 12);
    assert_eq!(index.index('p'), 27);
    assert_eq!(index.index('~'), 12 + 0x7e - 0x61);
    assert_eq!(index.index('C'), 3);
    assert_eq!(index.index('\u{7f}'), 3);
    assert_eq!(index.index('`'), 3);
    assert_eq!(index.glyph_count(), Some(12 + 30));
    assert_eq!(index.substitute(), 3);
}

#[test]
fn the_first_token_that_holds_a_character_decides() {
    let index = CodepointIndex::new("ab\0acb", 9);
    assert_eq!(index.index('a'), 0);
    assert_eq!(index.index('b'), 1);
    assert_eq!(index.index('c'), 4);
    assert_eq!(index.glyph_count(), Some(6));
}

#[test]
fn a_marker_without_a_whole_range_ends_the_index() {
    assert_eq!(CodepointIndex::new("", 7).index('a'), 7);
    assert_eq!(CodepointIndex::new("", 7).glyph_count(), Some(0));
    assert_eq!(CodepointIndex::new("a\0", 7).index('a'), 0);
    assert_eq!(CodepointIndex::new("a\0", 7).index('\0'), 7);
    assert_eq!(CodepointIndex::new("a\0b", 7).index('b'), 7);
    assert_eq!(CodepointIndex::new("a\0b", 7).glyph_count(), Some(1));
    // a range that ends before it starts holds nothing and takes no index
    let backwards = CodepointIndex::new("\0dax", 7);
    assert_eq!(backwards.index('b'), 7);
    assert_eq!(backwards.index('x'), 0);
    assert_eq!(backwards.glyph_count(), Some(1));
    // the marker itself can stand in a range
    let low = CodepointIndex::new("\0\0\u{2}x", 7);
    assert_eq!(low.index('\0'), 0);
    assert_eq!(low.index('\u{2}'), 2);
    assert_eq!(low.index('x'), 3);
}

#[test]
fn agrees_with_the_string_mapping_of_embedded_graphics() {
    let mappings = [
        "",
        "abcdef1234",
        "\0af\014",
        "\0\u{20}\u{7f}",
        "\0\u{20}\u{7f}\0\u{a0}\u{ff}",
        "a\0bde",
        "\0\u{20}\u{7f}\u{a0}\0\u{401}\u{40c}\u{ad}\0\u{40e}\u{44f}\u{2116}\0\u{451}\u{45c}\u{a7}\u{45e}\u{45f}",
        "\0\u{20}\u{7f}\0\u{ff60}\u{ff9f}",
    ];
    for data in mappings {
        let ours = CodepointIndex::new(data, 5);
        let theirs = StrGlyphMapping::new(data, 5);
        for c in ('\0'..='\u{500}').chain('\u{2100}'..='\u{2120}').chain('\u{ff50}'..='\u{ffa0}') {
            assert_eq!(ours.index(c), theirs.index(c));
        }
    }
}
