use mogeefont::{GlyphIndex, Kerning};

#[test]
fn test_kerning_override() {
    let kerning = Kerning::new(&[], &[(1, 2, 1), (3, 4, -1)]);
    assert_eq!(
        kerning.kerning_override(GlyphIndex(1), GlyphIndex(2)),
        Some(1)
    );
    assert_eq!(
        kerning.kerning_override(GlyphIndex(3), GlyphIndex(4)),
        Some(-1)
    );
    assert_eq!(kerning.kerning_override(GlyphIndex(5), GlyphIndex(6)), None);
}

#[test]
fn kerning_test_kerning() {
    let kerning = Kerning::new(&[(1, 2, 0), (3, 4, -1)], &[]);
    assert_eq!(kerning.kerning(1, 2), Some(0));
    assert_eq!(kerning.kerning(3, 4), Some(-1));
    assert_eq!(kerning.kerning(5, 6), None);
}

#[test]
fn tables_are_searched_by_both_parts_of_the_key() {
    let pairs = [(1, 2, 10), (1, 3, 11), (2, 1, 12), (2, 1, 13), (2, 2, 14), (9, 0, 15)];
    let overrides = [(0, 5, 1), (3, 0, 2), (3, 4, 3), (usize::MAX, usize::MAX, 4)];
    let kerning = Kerning::new(&pairs, &overrides);
    assert!(kerning.is_sorted());
    for (left, right, value) in [(1, 2, 10), (1, 3, 11), (2, 1, 12), (2, 2, 14), (9, 0, 15)] {
        assert_eq!(kerning.kerning(left, right), Some(value));
    }
    assert_eq!(kerning.kerning(1, 1), None);
    assert_eq!(kerning.kerning(2, 0), None);
    assert_eq!(kerning.kerning(3, 1), None);
    assert_eq!(kerning.kerning(255, 255), None);
    assert_eq!(kerning.kerning_override(GlyphIndex(3), GlyphIndex(4)), Some(3));
    assert_eq!(kerning.kerning_override(GlyphIndex(4), GlyphIndex(3)), None);
    assert_eq!(
        kerning.kerning_override(GlyphIndex(usize::MAX), GlyphIndex(usize::MAX)),
        Some(4)
    );
    assert!(!Kerning::new(&[(1, 3, 0), (1, 2, 0)], &[]).is_sorted());
    assert!(!Kerning::new(&[], &[(2, 0, 0), (1, 9, 0)]).is_sorted());
}
