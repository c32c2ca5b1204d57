//! The metrics that a font's source description provides.

use vstd::prelude::*;

verus! {

/// Line height, space width, side bearings, kerning classes and kerning
/// adjustments of a font, with glyphs named by their text.
#[derive(Debug)]
pub struct ElmFileData {
    pub line_height: u32,
    pub space_width: u32,
    /// The `(left, right)` bearings of glyphs that `bearings` does not name.
    pub default_bearings: (i8, i8),
    /// Bearings by glyph; of two entries for one glyph the later counts.
    pub bearings: Vec<(String, (i8, i8))>,
    /// Kerning classes of left-hand glyphs, each with its members; for a
    /// glyph named more than once, the last naming counts.
    pub left_kerning_class: Vec<(u8, Vec<String>)>,
    /// Kerning classes of right-hand glyphs.
    pub right_kerning_class: Vec<(u8, Vec<String>)>,
    /// Adjustments by `(left_class, right_class)`.
    pub kerning_pairs: Vec<(u8, u8, i8)>,
    /// Adjustments by `(left_glyph, right_glyph)`, which go before those by class.
    pub kerning_overrides: Vec<(String, String, i8)>,
}

} // verus!
