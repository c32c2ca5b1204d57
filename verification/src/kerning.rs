use crate::glyph_index::GlyphIndex;
use crate::keyed::{has_key, is_ascending, keys_ascend, search};
use crate::table::first_hit;
use vstd::prelude::*;

verus! {

/// The adjustment of the first entry of `t` for the class pair `(left, right)`.
pub open spec fn find_pair(t: Seq<(u8, u8, i32)>, left: u8, right: u8) -> Option<i32> {
    match first_hit(t, has_key::<(u8, u8, i32)>((left as int, right as int))) {
        Some(i) => Some(t[i].2),
        None => None,
    }
}

/// The adjustment of the first entry of `t` for the glyph pair `(left, right)`.
pub open spec fn find_override(t: Seq<(usize, usize, i32)>, left: usize, right: usize) -> Option<
    i32,
> {
    match first_hit(t, has_key::<(usize, usize, i32)>((left as int, right as int))) {
        Some(i) => Some(t[i].2),
        None => None,
    }
}

/// Kerning tables: adjustments by kerning class pair, and overrides by glyph pair.
#[derive(Debug, Clone, Copy, PartialEq)]
pub struct Kerning<'a> {
    pairs: &'a [(u8, u8, i32)],
    overrides: &'a [(usize, usize, i32)],
}

impl<'a> Kerning<'a> {
    /// The class-pair table, `(left_class, right_class, adjustment)`.
    pub closed spec fn pairs(&self) -> Seq<(u8, u8, i32)> {
        self.pairs@
    }

    /// The override table, `(left_glyph, right_glyph, adjustment)`.
    pub closed spec fn overrides(&self) -> Seq<(usize, usize, i32)> {
        self.overrides@
    }

    /// Both tables ascend by key, as binary search needs.
    pub open spec fn wf(&self) -> bool {
        keys_ascend(self.pairs()) && keys_ascend(self.overrides())
    }

    /// The override for a glyph pair.
    pub open spec fn spec_override(&self, left: usize, right: usize) -> Option<i32> {
        find_override(self.overrides(), left, right)
    }

    /// The adjustment for a class pair.
    pub open spec fn spec_kerning(&self, left_class: u8, right_class: u8) -> Option<i32> {
        find_pair(self.pairs(), left_class, right_class)
    }

    /// Kerning tables over the given entries.
    pub fn new(pairs: &'a [(u8, u8, i32)], overrides: &'a [(usize, usize, i32)]) -> (k: Self)
        ensures
            k.pairs() == pairs@,
            k.overrides() == overrides@,
    {
        Self { pairs, overrides }
    }

    /// Whether both tables ascend by key.
    pub fn is_sorted(&self) -> (r: bool)
        ensures
            r == self.wf(),
    {
        is_ascending(self.pairs) && is_ascending(self.overrides)
    }

    /// The override for a glyph pair, if the table holds one: that of the
    /// first entry for the pair.
    pub fn kerning_override(&self, left: GlyphIndex, right: GlyphIndex) -> (r: Option<i32>)
        requires
            keys_ascend(self.overrides()),
        ensures
            r == self.spec_override(left.0, right.0),
    {
        match search(self.overrides, (left.0 as u64, right.0 as u64)) {
            Some(i) => Some(self.overrides[i].2),
            None => None,
        }
    }

    /// The adjustment for a kerning class pair, if the table holds one: that
    /// of the first entry for the pair.
    pub fn kerning(&self, left_class: u8, right_class: u8) -> (r: Option<i32>)
        requires
            keys_ascend(self.pairs()),
        ensures
            r == self.spec_kerning(left_class, right_class),
    {
        match search(self.pairs, (left_class as u64, right_class as u64)) {
            Some(i) => Some(self.pairs[i].2),
            None => None,
        }
    }
}

} // verus!
