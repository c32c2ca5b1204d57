//! A font asset at run time: from text to glyphs and their spacing.

use crate::codepoint_index::{index_count, lemma_lookup_bounds, lookup, CodepointIndex};
use crate::error::FontError;
use crate::geometry::{Point, Rectangle, Size};
use crate::glyph_index::GlyphIndex;
use crate::glyph_record::{GlyphRecord, RECORD_SIZE};
use crate::kerning::Kerning;
use crate::ligature_substitution::{
    match_ligature, StrLigatureSubstitution, LIGATURE_SEPARATOR,
};
use crate::side_bearings::SideBearings;
use crate::table::lemma_first_hit_is_first;
use crate::text::chars_of;
use crate::tokens::{begins, lemma_tokens_from};
use vstd::prelude::*;
use vstd::slice::slice_subrange;

verus! {

/// Width of the atlas in pixels.
pub const ATLAS_WIDTH: u32 = crate::atlas::ATLAS_WIDTH;

/// Bytes of one row of the atlas.
pub const ATLAS_ROW_BYTES: usize = 16;

/// A font asset: the atlas bitmap, the glyph records, the index from scalar
/// values to glyphs, the ligatures, and the metrics.
#[derive(Debug, Clone, Copy, PartialEq)]
pub struct Font<'a> {
    /// The atlas: one bit per pixel, sixteen bytes per row.
    pub atlas: &'a [u8],
    pub glyph_mapping: CodepointIndex<'a>,
    /// The glyph records, five bytes each.
    pub glyph_data: &'a [u8],
    pub ligatures: StrLigatureSubstitution<'a>,
    pub side_bearings: SideBearings<'a>,
    pub kerning: Kerning<'a>,
    pub line_height: u32,
    pub baseline: u32,
}

/// A font asset that lives as long as the program.
pub type Charset = Font<'static>;

impl<'a> Font<'a> {
    /// The number of glyphs.
    pub open spec fn count(&self) -> int {
        self.glyph_data@.len() as int / RECORD_SIZE as int
    }

    /// The records are whole: five bytes each.
    pub open spec fn whole_records(&self) -> bool {
        self.glyph_data@.len() as int % RECORD_SIZE as int == 0
    }

    /// The record of glyph `k`.
    pub open spec fn record(&self, k: int) -> GlyphRecord {
        GlyphRecord::from_bytes(self.glyph_data@.subrange(k * RECORD_SIZE, (k + 1) * RECORD_SIZE))
    }

    /// Glyph `k` lies within the atlas.
    pub open spec fn in_atlas(&self, k: int) -> bool {
        let r = self.record(k);
        r.left + r.width <= ATLAS_WIDTH && (r.top + r.height) * ATLAS_ROW_BYTES
            <= self.atlas@.len()
    }

    /// The parts of the asset fit together: the records are whole and lie
    /// within the atlas, the atlas has whole rows, every glyph index that a
    /// lookup can give has a record, the tables are sorted, and the line has
    /// a height.
    pub open spec fn wf(&self) -> bool {
        &&& self.whole_records()
        &&& self.atlas@.len() as int % ATLAS_ROW_BYTES as int == 0
        &&& forall|k: int| 0 <= k < self.count() ==> self.in_atlas(k)
        &&& index_count(self.glyph_mapping.tokens()) <= self.count()
        &&& self.glyph_mapping.substitute_index() < self.count()
        &&& self.ligatures.offset() + self.ligatures.tokens().len() <= self.count()
        &&& self.side_bearings.wf()
        &&& self.kerning.wf()
        &&& 1 <= self.line_height <= i32::MAX
        &&& self.baseline <= i32::MAX
    }

    /// The glyph of a character: that of the index, or the substitute.
    pub open spec fn spec_glyph_index(&self, c: char) -> GlyphIndex {
        GlyphIndex(self.glyph_mapping.spec_index(c) as usize)
    }

    /// The glyphs of a text: at each place the first ligature of the list
    /// that the rest of the text starts with, or else the glyph of the next
    /// character.
    pub open spec fn glyphs_of(&self, text: Seq<char>) -> Seq<GlyphIndex>
        decreases text.len(),
    {
        if text.len() == 0 {
            Seq::empty()
        } else {
            match self.ligatures.spec_substitute(text) {
                Some((index, length)) => if 1 <= length <= text.len() {
                    seq![GlyphIndex(index as usize)] + self.glyphs_of(text.skip(length))
                } else {
                    Seq::empty()
                },
                None => seq![self.spec_glyph_index(text[0])] + self.glyphs_of(text.skip(1)),
            }
        }
    }

    /// The kerning between two glyphs: the override for the pair, or else
    /// the adjustment for their kerning classes.
    pub open spec fn spec_kerning(&self, left: usize, right: usize) -> Option<i32> {
        match self.kerning.spec_override(left, right) {
            Some(v) => Some(v),
            None => self.kerning.spec_kerning(
                self.record(left as int).left_kerning_class,
                self.record(right as int).right_kerning_class,
            ),
        }
    }

    /// The space before a glyph: its left bearing, and behind another glyph
    /// also that one's right bearing and the kerning between the two.
    pub open spec fn spec_spacing(&self, prev: Option<GlyphIndex>, next: GlyphIndex) -> int {
        match prev {
            Some(p) => self.side_bearings.spec_right(p.0) + (match self.spec_kerning(p.0, next.0) {
                Some(v) => v as int,
                None => 0,
            }) + self.side_bearings.spec_left(next.0),
            None => self.side_bearings.spec_left(next.0) as int,
        }
    }

    /// Puts the parts of a font asset together, or fails with
    /// `MalformedAsset` where they do not fit.
    pub fn new(
        atlas: &'a [u8],
        glyph_mapping: CodepointIndex<'a>,
        glyph_data: &'a [u8],
        ligatures: StrLigatureSubstitution<'a>,
        side_bearings: SideBearings<'a>,
        kerning: Kerning<'a>,
        line_height: u32,
        baseline: u32,
    ) -> (r: Result<Font<'a>, FontError>)
        ensures
            ({
                let font = Font {
                    atlas,
                    glyph_mapping,
                    glyph_data,
                    ligatures,
                    side_bearings,
                    kerning,
                    line_height,
                    baseline,
                };
                match r {
                    Ok(f) => f == font && font.wf(),
                    Err(e) => e == FontError::MalformedAsset && !font.wf(),
                }
            }),
    {
        let font = Font {
            atlas,
            glyph_mapping,
            glyph_data,
            ligatures,
            side_bearings,
            kerning,
            line_height,
            baseline,
        };
        if font.is_wf() {
            Ok(font)
        } else {
            Err(FontError::MalformedAsset)
        }
    }

    /// Whether the parts of the asset fit together.
    pub fn is_wf(&self) -> (r: bool)
        ensures
            r == self.wf(),
    {
        if self.glyph_data.len() % RECORD_SIZE != 0 || self.atlas.len() % ATLAS_ROW_BYTES != 0 {
            return false;
        }
        let count: usize = self.glyph_data.len() / RECORD_SIZE;
        let mut k: usize = 0;
        while k < count
            invariant
                k <= count,
                count == self.count(),
                self.whole_records(),
                forall|i: int| 0 <= i < k ==> self.in_atlas(i),
            decreases count - k,
        {
            let r = GlyphRecord::read(self.glyph_data, k);
            let rows: usize = r.top as usize + r.height as usize;
            let inside = r.left as u32 + r.width as u32 <= ATLAS_WIDTH && rows * ATLAS_ROW_BYTES
                <= self.atlas.len();
            assert(inside == self.in_atlas(k as int));
            if !inside {
                return false;
            }
            k += 1;
        }
        match self.glyph_mapping.glyph_count() {
            Some(n) => {
                if n > count {
                    return false;
                }
            },
            None => {
                return false;
            },
        }
        if self.glyph_mapping.substitute() >= count {
            return false;
        }
        let ligatures = self.ligatures.count();
        if self.ligatures.first_index() > count || ligatures > count - self.ligatures.first_index() {
            return false;
        }
        self.side_bearings.is_sorted() && self.kerning.is_sorted() && 1 <= self.line_height
            && self.line_height <= i32::MAX as u32 && self.baseline <= i32::MAX as u32
    }

    /// The number of glyphs.
    pub fn glyph_count(&self) -> (r: usize)
        ensures
            r == self.count(),
    {
        self.glyph_data.len() / RECORD_SIZE
    }

    /// The glyph of a character. Every character has one: where the index
    /// does not hold it, the substitute.
    pub fn glyph_index(&self, c: char) -> (r: GlyphIndex)
        requires
            self.wf(),
        ensures
            r == self.spec_glyph_index(c),
            r.0 < self.count(),
    {
        let count = self.glyph_count();
        proof {
            lemma_lookup_bounds(self.glyph_mapping.tokens(), 0, c);
        }
        GlyphIndex(self.glyph_mapping.index(c))
    }

    /// The glyphs of a text, with ligatures in place of the characters that
    /// make them up.
    pub fn glyph_indices(&self, text: &str) -> (r: Vec<GlyphIndex>)
        requires
            self.wf(),
        ensures
            r@ == self.glyphs_of(text@),
            forall|k: int| 0 <= k < r@.len() ==> (#[trigger] r@[k]).0 < self.count(),
    {
        let chars = chars_of(text);
        let list = self.ligatures.scalars();
        let offset = self.ligatures.first_index();
        let count = self.glyph_count();
        let mut r: Vec<GlyphIndex> = Vec::new();
        let mut i: usize = 0;
        assert(chars@.skip(0) =~= chars@);
        proof {
            lemma_tokens_from(list@, LIGATURE_SEPARATOR, Seq::empty());
        }
        while i < chars.len()
            invariant
                i <= chars@.len(),
                self.wf(),
                chars@ == text@,
                list@ == self.ligatures.data(),
                offset == self.ligatures.offset(),
                count == self.count(),
                r@ + self.glyphs_of(chars@.skip(i as int)) == self.glyphs_of(chars@),
                forall|k: int| 0 <= k < r@.len() ==> (#[trigger] r@[k]).0 < self.count(),
            decreases chars@.len() - i,
        {
            let rest = slice_subrange(chars.as_slice(), i, chars.len());
            let ghost before = r@;
            proof {
                assert(rest@ =~= chars@.skip(i as int));
                lemma_first_hit_is_first(self.ligatures.tokens(), begins(rest@));
            }
            match match_ligature(list.as_slice(), offset, rest) {
                Some((index, length)) => {
                    r.push(GlyphIndex(index));
                    proof {
                        assert(rest@.skip(length as int) =~= chars@.skip(i + length));
                        assert(r@ + self.glyphs_of(chars@.skip(i + length)) =~= before + (
                        seq![GlyphIndex(index)] + self.glyphs_of(chars@.skip(i + length))));
                    }
                    i += length;
                },
                None => {
                    let glyph = self.glyph_index(chars[i]);
                    r.push(glyph);
                    proof {
                        assert(rest@[0] == chars@[i as int]);
                        assert(rest@.skip(1) =~= chars@.skip(i + 1));
                        assert(r@ + self.glyphs_of(chars@.skip(i + 1)) =~= before + (seq![glyph]
                            + self.glyphs_of(chars@.skip(i + 1))));
                    }
                    i += 1;
                },
            }
        }
        assert(r@ + Seq::<GlyphIndex>::empty() =~= r@);
        r
    }

    /// The record of a glyph.
    pub fn glyph_record(&self, glyph: GlyphIndex) -> (r: GlyphRecord)
        requires
            self.whole_records(),
            glyph.0 < self.count(),
        ensures
            r == self.record(glyph.0 as int),
            r.wf(),
    {
        GlyphRecord::read(self.glyph_data, glyph.0)
    }

    /// The rectangle of a glyph in the atlas.
    pub fn glyph_area(&self, glyph: GlyphIndex) -> (r: Rectangle)
        requires
            self.whole_records(),
            glyph.0 < self.count(),
        ensures
            r.top_left.x == self.record(glyph.0 as int).left,
            r.top_left.y == self.record(glyph.0 as int).top,
            r.size.width == self.record(glyph.0 as int).width,
            r.size.height == self.record(glyph.0 as int).height,
    {
        let record = self.glyph_record(glyph);
        Rectangle::new(
            Point::new(record.left as i32, record.top as i32),
            Size::new(record.width as u32, record.height as u32),
        )
    }

    /// The width of a glyph in pixels.
    pub fn glyph_width(&self, index: GlyphIndex) -> (r: i32)
        requires
            self.whole_records(),
            index.0 < self.count(),
        ensures
            r == self.record(index.0 as int).width,
            0 <= r <= 15,
    {
        self.glyph_record(index).width as i32
    }

    /// The kerning class of a glyph as the left one of a pair.
    pub fn left_kerning_class(&self, index: GlyphIndex) -> (r: u8)
        requires
            self.whole_records(),
            index.0 < self.count(),
        ensures
            r == self.record(index.0 as int).left_kerning_class,
    {
        self.glyph_record(index).left_kerning_class
    }

    /// The kerning class of a glyph as the right one of a pair.
    pub fn right_kerning_class(&self, index: GlyphIndex) -> (r: u8)
        requires
            self.whole_records(),
            index.0 < self.count(),
        ensures
            r == self.record(index.0 as int).right_kerning_class,
    {
        self.glyph_record(index).right_kerning_class
    }

    /// The kerning between two glyphs: the override for the pair, or else
    /// the adjustment for their kerning classes, if there is one.
    pub fn kerning(&self, left: GlyphIndex, right: GlyphIndex) -> (r: Option<i32>)
        requires
            self.wf(),
            left.0 < self.count(),
            right.0 < self.count(),
        ensures
            r == self.spec_kerning(left.0, right.0),
            self.kerning.spec_override(left.0, right.0) is Some ==> r
                == self.kerning.spec_override(left.0, right.0),
    {
        match self.kerning.kerning_override(left, right) {
            Some(v) => Some(v),
            None => self.kerning.kerning(
                self.left_kerning_class(left),
                self.right_kerning_class(right),
            ),
        }
    }

    /// The space between two glyphs, or between the start of the text and a
    /// glyph, however wide: no value is out of its range.
    pub fn wide_spacing(&self, prev_glyph: Option<GlyphIndex>, next_glyph: GlyphIndex) -> (r: i64)
        requires
            self.wf(),
            next_glyph.0 < self.count(),
            prev_glyph matches Some(p) ==> p.0 < self.count(),
        ensures
            r == self.spec_spacing(prev_glyph, next_glyph),
            -0x1_8000_0000 <= r <= 0x1_8000_0000,
            prev_glyph matches Some(p) ==> (self.kerning.spec_override(p.0, next_glyph.0) matches Some(
                v,
            ) ==> r == self.side_bearings.spec_right(p.0) + v + self.side_bearings.spec_left(
                next_glyph.0,
            )),
    {
        match prev_glyph {
            Some(prev) => {
                let right_bearing = self.side_bearings.right(prev);
                let left_bearing = self.side_bearings.left(next_glyph);
                let kerning = match self.kerning(prev, next_glyph) {
                    Some(v) => v,
                    None => 0,
                };
                right_bearing as i64 + kerning as i64 + left_bearing as i64
            },
            None => self.side_bearings.left(next_glyph) as i64,
        }
    }

    /// The space between two glyphs, or between the start of the text and a
    /// glyph: bearings and kerning together.
    pub fn spacing(&self, prev_glyph: Option<GlyphIndex>, next_glyph: GlyphIndex) -> (r: i32)
        requires
            self.wf(),
            next_glyph.0 < self.count(),
            prev_glyph matches Some(p) ==> p.0 < self.count(),
            i32::MIN <= self.spec_spacing(prev_glyph, next_glyph) <= i32::MAX,
        ensures
            r == self.spec_spacing(prev_glyph, next_glyph),
            prev_glyph matches Some(p) ==> (self.kerning.spec_override(p.0, next_glyph.0) matches Some(
                v,
            ) ==> r == self.side_bearings.spec_right(p.0) + v + self.side_bearings.spec_left(
                next_glyph.0,
            )),
    {
        self.wide_spacing(prev_glyph, next_glyph) as i32
    }
}

} // verus!
