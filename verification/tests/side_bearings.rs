use mogeefont::{GlyphIndex, SideBearings};

#[test]
fn side_bearings_test_side_bearings() {
    let bearings = SideBearings::new(&[(0, 1, 2), (1, 3, 4)], (5, 6));

    assert_eq!(bearings.left(GlyphIndex(0)), 1);
    assert_eq!(bearings.right(GlyphIndex(0)), 2);

    assert_eq!(bearings.left(GlyphIndex(1)), 3);
    assert_eq!(bearings.right(GlyphIndex(1)), 4);

    assert_eq!(bearings.left(GlyphIndex(2)), 5);
    assert_eq!(bearings.right(GlyphIndex(2)), 6);
}

#[test]
fn an_index_beyond_the_keys_is_looked_up_under_the_largest_key() {
    let bearings = SideBearings::new(&[(7, 1, 2), (u32::MAX, 3, 4)], (5, 6));
    assert!(bearings.is_sorted());
    assert_eq!(bearings.left(GlyphIndex(usize::MAX)), 3);
    assert_eq!(bearings.right(GlyphIndex(usize::MAX)), 4);
    assert_eq!(bearings.left(GlyphIndex(u32::MAX as usize)), 3);
    assert_eq!(bearings.left(GlyphIndex(7)), 1);
    assert_eq!(bearings.right(GlyphIndex(8)), 6);
    let plain = SideBearings::new(&[(7, 1, 2)], (5, 6));
    assert_eq!(plain.left(GlyphIndex(usize::MAX)), 5);
}

#[test]
fn the_first_of_two_entries_for_a_glyph_counts() {
    let bearings = SideBearings::new(&[(1, 0, 0), (4, 1, 2), (4, 3, 4), (4, 5, 6), (9, 0, 0)], (7, 8));
    assert!(bearings.is_sorted());
    assert_eq!(bearings.left(GlyphIndex(4)), 1);
    assert_eq!(bearings.right(GlyphIndex(4)), 2);
    assert!(!SideBearings::new(&[(4, 1, 2), (1, 0, 0)], (7, 8)).is_sorted());
    assert!(SideBearings::new(&[], (7, 8)).is_sorted());
}
