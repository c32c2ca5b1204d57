//! What can go wrong while a font asset is built or loaded.

use vstd::prelude::*;

verus! {

/// Why no font asset was produced.
#[derive(Debug, Clone, PartialEq, Eq)]
pub enum FontError {
    /// A glyph bitmap is wider or taller than 15 pixels.
    GlyphTooLarge,
    /// Two glyphs have the same identity.
    DuplicateIdentity,
    /// The printable ASCII subset lacks these scalar values.
    MissingGlyph(Vec<u32>),
    /// A kerning override names a character that has no glyph.
    UnresolvedKerningIdentity,
    /// The parts of a font asset do not fit together.
    MalformedAsset,
}

impl FontError {
    /// The scalar values that a `MissingGlyph` error lists.
    pub open spec fn missing(&self) -> Seq<u32> {
        match self {
            FontError::MissingGlyph(m) => m@,
            _ => Seq::empty(),
        }
    }
}

} // verus!
