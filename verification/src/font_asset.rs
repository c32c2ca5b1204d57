//! The parts of a font asset, as the data of a font encodes them.

use crate::encode::{encode_index, encode_ligatures, encoded_index, encoded_ligatures, ligature_views};
use crate::font_data::{FontData, Glyph};
use crate::glyph_record::{GlyphRecord, RECORD_SIZE};
use crate::text::string_of;
use vstd::prelude::*;

verus! {

/// The scalar value whose glyph stands in for values without a glyph.
pub const SUBSTITUTE: char = '?';

/// The index of the substitute among single scalars in glyph order: that of
/// the last `?`, or 0 where there is none.
pub open spec fn substitute_of(singles: Seq<char>) -> int
    decreases singles.len(),
{
    if singles.len() == 0 {
        0
    } else if singles.last() == SUBSTITUTE {
        singles.len() - 1
    } else {
        substitute_of(singles.drop_last())
    }
}

/// The record of a glyph that stands within the first 256 columns and rows
/// of the atlas.
pub open spec fn record_of(g: Glyph) -> GlyphRecord
    recommends
        g.left <= 255,
        g.top <= 255,
{
    GlyphRecord {
        left: g.left as u8,
        top: g.top as u8,
        width: g.img.width as u8,
        height: g.img.height as u8,
        left_kerning_class: g.left_kerning_class,
        right_kerning_class: g.right_kerning_class,
    }
}

/// The records of glyphs, one behind the other.
pub open spec fn records_of(glyphs: Seq<Glyph>) -> Seq<u8>
    decreases glyphs.len(),
{
    if glyphs.len() == 0 {
        Seq::empty()
    } else {
        records_of(glyphs.drop_last()) + record_of(glyphs.last()).bytes()
    }
}

/// There are five bytes for each glyph, and those of glyph `k` are its record.
pub proof fn lemma_records_of(glyphs: Seq<Glyph>, k: int)
    requires
        0 <= k < glyphs.len(),
    ensures
        records_of(glyphs).len() == RECORD_SIZE * glyphs.len(),
        records_of(glyphs).subrange(k * RECORD_SIZE, (k + 1) * RECORD_SIZE) == record_of(
            glyphs[k],
        ).bytes(),
    decreases glyphs.len(),
{
    lemma_records_len(glyphs);
    let init = glyphs.drop_last();
    lemma_records_len(init);
    if k == glyphs.len() - 1 {
        assert(records_of(glyphs).subrange(k * RECORD_SIZE, (k + 1) * RECORD_SIZE) =~= record_of(
            glyphs[k],
        ).bytes());
    } else {
        lemma_records_of(init, k);
        assert(records_of(glyphs).subrange(k * RECORD_SIZE, (k + 1) * RECORD_SIZE)
            =~= records_of(init).subrange(k * RECORD_SIZE, (k + 1) * RECORD_SIZE));
    }
}

/// There are five bytes for each glyph.
pub proof fn lemma_records_len(glyphs: Seq<Glyph>)
    ensures
        records_of(glyphs).len() == RECORD_SIZE * glyphs.len(),
    decreases glyphs.len(),
{
    if glyphs.len() > 0 {
        lemma_records_len(glyphs.drop_last());
    }
}

impl FontData {
    /// The glyph index of the first ligature: the number of single-scalar glyphs.
    pub fn ligature_offset(&self) -> (r: usize)
        ensures
            r == self.glyph_code_points@.len(),
    {
        self.glyph_code_points.len()
    }

    /// The encoded index from scalar values to glyph indices, and the
    /// index of the substitute glyph.
    pub fn glyph_mapping(&self) -> (r: (String, usize))
        ensures
            r.0@ == encoded_index(self.glyph_code_points@),
            r.1 == substitute_of(self.glyph_code_points@),
    {
        let singles = self.glyph_code_points.as_slice();
        let tokens = encode_index(singles);
        let mut substitute_index: usize = 0;
        let mut k: usize = 0;
        assert(singles@.take(0) =~= Seq::<char>::empty());
        while k < singles.len()
            invariant
                k <= singles@.len(),
                substitute_index == substitute_of(singles@.take(k as int)),
            decreases singles@.len() - k,
        {
            proof {
                assert(singles@.take(k + 1).drop_last() =~= singles@.take(k as int));
                assert(singles@.take(k + 1).last() == singles@[k as int]);
            }
            if singles[k] == SUBSTITUTE {
                substitute_index = k;
            }
            k += 1;
        }
        assert(singles@.take(k as int) =~= singles@);
        (string_of(tokens.as_slice()), substitute_index)
    }

    /// The encoded list of ligatures.
    pub fn ligature_code_points(&self) -> (r: String)
        ensures
            r@ == encoded_ligatures(ligature_views(self.ligature_code_points@)),
    {
        let list = encode_ligatures(self.ligature_code_points.as_slice());
        string_of(list.as_slice())
    }

    /// Whether the place of every glyph fits a record, which has a byte for
    /// the left edge and a byte for the top: no glyph stands beyond column
    /// or row 255 of the atlas.
    pub open spec fn recordable(&self) -> bool {
        forall|k: int|
            0 <= k < self.glyphs@.len() ==> (#[trigger] self.glyphs@[k]).left <= 255
                && self.glyphs@[k].top <= 255
    }

    /// Whether the place of every glyph fits a record.
    pub fn is_recordable(&self) -> (r: bool)
        ensures
            r == self.recordable(),
    {
        let mut k: usize = 0;
        while k < self.glyphs.len()
            invariant
                k <= self.glyphs@.len(),
                forall|j: int|
                    0 <= j < k ==> (#[trigger] self.glyphs@[j]).left <= 255 && self.glyphs@[j].top
                        <= 255,
            decreases self.glyphs@.len() - k,
        {
            if self.glyphs[k].left > 255 || self.glyphs[k].top > 255 {
                return false;
            }
            k += 1;
        }
        true
    }

    /// The glyph records, in glyph order.
    pub fn raw_glyph_data(&self) -> (r: Vec<u8>)
        requires
            self.wf(),
            self.recordable(),
        ensures
            r@ == records_of(self.glyphs@),
    {
        let mut data: Vec<u8> = Vec::new();
        let mut k: usize = 0;
        assert(self.glyphs@.take(0) =~= Seq::<Glyph>::empty());
        while k < self.glyphs.len()
            invariant
                k <= self.glyphs@.len(),
                self.wf(),
                self.recordable(),
                data@ == records_of(self.glyphs@.take(k as int)),
            decreases self.glyphs@.len() - k,
        {
            let g = &self.glyphs[k];
            let record = GlyphRecord {
                left: g.left as u8,
                top: g.top as u8,
                width: g.img.width as u8,
                height: g.img.height as u8,
                left_kerning_class: g.left_kerning_class,
                right_kerning_class: g.right_kerning_class,
            };
            proof {
                assert(self.glyphs@.take(k + 1).drop_last() =~= self.glyphs@.take(k as int));
                assert(self.glyphs@.take(k + 1).last() == self.glyphs@[k as int]);
                assert(record == record_of(self.glyphs@[k as int]));
            }
            record.write(&mut data);
            k += 1;
        }
        assert(self.glyphs@.take(k as int) =~= self.glyphs@);
        data
    }
}

} // verus!
