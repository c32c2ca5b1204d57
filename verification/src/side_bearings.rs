use crate::glyph_index::GlyphIndex;
use crate::keyed::{has_key, is_ascending, keys_ascend, search};
use crate::table::first_hit;
use az::SaturatingAs;
use vstd::prelude::*;

verus! {

/// The key under which the table is searched for a glyph: its index, or the
/// largest key where the index is beyond every key.
pub open spec fn bearing_key(index: usize) -> u32 {
    if index <= u32::MAX {
        index as u32
    } else {
        u32::MAX
    }
}

/// The `(left, right)` bearings of a glyph: those of the first entry for it,
/// or the default pair.
pub open spec fn find_bearings(t: Seq<(u32, i32, i32)>, default_bearings: (i32, i32), index: usize) -> (
    i32,
    i32,
) {
    match first_hit(t, has_key::<(u32, i32, i32)>((bearing_key(index) as int, 0))) {
        Some(i) => (t[i].1, t[i].2),
        None => default_bearings,
    }
}

/// `az::SaturatingAs::saturating_as` from `usize` to `u32`: the value itself
/// where it fits, else `u32::MAX`.
#[verifier::external_body]
fn saturating_u32(value: usize) -> (r: u32)
    ensures
        r == bearing_key(value),
{
    value.saturating_as()
}

/// Side bearings: a sparse table of per-glyph pairs over one default pair.
#[derive(Debug, Clone, Copy, PartialEq)]
pub struct SideBearings<'a> {
    bearings: &'a [(u32, i32, i32)],
    default_bearings: (i32, i32),
}

impl<'a> SideBearings<'a> {
    /// The table of overrides, `(glyph_index, left, right)`.
    pub closed spec fn bearings(&self) -> Seq<(u32, i32, i32)> {
        self.bearings@
    }

    /// The pair for glyphs that the table does not hold.
    pub closed spec fn default_bearings(&self) -> (i32, i32) {
        self.default_bearings
    }

    /// The table ascends by glyph index, as binary search needs.
    pub open spec fn wf(&self) -> bool {
        keys_ascend(self.bearings())
    }

    /// The left bearing of a glyph.
    pub open spec fn spec_left(&self, index: usize) -> i32 {
        find_bearings(self.bearings(), self.default_bearings(), index).0
    }

    /// The right bearing of a glyph.
    pub open spec fn spec_right(&self, index: usize) -> i32 {
        find_bearings(self.bearings(), self.default_bearings(), index).1
    }

    /// Side bearings over the given table, with the default for other glyphs.
    pub fn new(bearings: &'a [(u32, i32, i32)], default_bearings: (i32, i32)) -> (s: Self)
        ensures
            s.bearings() == bearings@,
            s.default_bearings() == default_bearings,
    {
        Self { bearings, default_bearings }
    }

    /// Whether the table ascends by glyph index.
    pub fn is_sorted(&self) -> (r: bool)
        ensures
            r == self.wf(),
    {
        is_ascending(self.bearings)
    }

    /// The left bearing of a glyph: that of its entry, or the default.
    pub fn left(&self, index: GlyphIndex) -> (r: i32)
        requires
            self.wf(),
        ensures
            r == self.spec_left(index.0),
    {
        match search(self.bearings, (saturating_u32(index.0) as u64, 0)) {
            Some(i) => self.bearings[i].1,
            None => self.default_bearings.0,
        }
    }

    /// The right bearing of a glyph: that of its entry, or the default.
    pub fn right(&self, index: GlyphIndex) -> (r: i32)
        requires
            self.wf(),
        ensures
            r == self.spec_right(index.0),
    {
        match search(self.bearings, (saturating_u32(index.0) as u64, 0)) {
            Some(i) => self.bearings[i].2,
            None => self.default_bearings.1,
        }
    }
}

} // verus!
