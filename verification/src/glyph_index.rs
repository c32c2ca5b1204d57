use vstd::prelude::*;

verus! {

/// Position of a glyph in the font's glyph sequence.
#[derive(Copy, Clone, Debug, PartialEq, Eq, Structural)]
pub struct GlyphIndex(pub usize);

} // verus!
