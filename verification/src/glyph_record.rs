//! The five-byte record of a glyph: where it stands in the atlas, how large
//! it is, and its kerning classes.

use vstd::prelude::*;

verus! {

/// The number of bytes of a glyph record.
pub const RECORD_SIZE: usize = 5;

/// What a glyph record holds.
#[derive(Debug, Clone, Copy, PartialEq, Eq, Structural)]
pub struct GlyphRecord {
    pub left: u8,
    pub top: u8,
    pub width: u8,
    pub height: u8,
    pub left_kerning_class: u8,
    pub right_kerning_class: u8,
}

impl GlyphRecord {
    /// Width and height fit four bits each.
    pub open spec fn wf(&self) -> bool {
        self.width <= 15 && self.height <= 15
    }

    /// The bytes of the record: left, top, the height and the width in the
    /// high and the low half of one byte, and the two kerning classes.
    pub open spec fn bytes(&self) -> Seq<u8> {
        seq![
            self.left,
            self.top,
            (self.height * 16 + self.width) as u8,
            self.left_kerning_class,
            self.right_kerning_class,
        ]
    }

    /// The record that five bytes hold.
    pub open spec fn from_bytes(b: Seq<u8>) -> GlyphRecord {
        GlyphRecord {
            left: b[0],
            top: b[1],
            width: b[2] % 16,
            height: b[2] / 16,
            left_kerning_class: b[3],
            right_kerning_class: b[4],
        }
    }

    /// Appends the bytes of the record to `out`.
    pub fn write(&self, out: &mut Vec<u8>)
        requires
            self.wf(),
        ensures
            final(out)@ == old(out)@ + self.bytes(),
    {
        let height: u8 = self.height;
        let width: u8 = self.width;
        assert((height << 4 | width) == height * 16 + width) by (bit_vector)
            requires
                height <= 15,
                width <= 15,
        ;
        let dims: u8 = height << 4 | width;
        let ghost before = out@;
        out.push(self.left);
        out.push(self.top);
        out.push(dims);
        out.push(self.left_kerning_class);
        out.push(self.right_kerning_class);
        assert(out@ =~= before + self.bytes());
    }

    /// Reads the record of glyph `index` from the records `data`.
    pub fn read(data: &[u8], index: usize) -> (r: GlyphRecord)
        requires
            (index + 1) * RECORD_SIZE <= data@.len(),
        ensures
            r == GlyphRecord::from_bytes(
                data@.subrange(index * RECORD_SIZE, (index + 1) * RECORD_SIZE),
            ),
            r.wf(),
    {
        let n: usize = data.len();
        assert(index * RECORD_SIZE + RECORD_SIZE <= n);
        let start: usize = index * RECORD_SIZE;
        let dims: u8 = data[start + 2];
        assert(dims & 0x0f == dims % 16 && dims >> 4 == dims / 16) by (bit_vector);
        GlyphRecord {
            left: data[start],
            top: data[start + 1],
            width: dims & 0x0f,
            height: dims >> 4,
            left_kerning_class: data[start + 3],
            right_kerning_class: data[start + 4],
        }
    }
}

/// A record that is written and read again is as it was.
pub proof fn lemma_record_round_trip(r: GlyphRecord)
    requires
        r.wf(),
    ensures
        GlyphRecord::from_bytes(r.bytes()) == r,
{
}

} // verus!
