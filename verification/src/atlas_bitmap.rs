//! The atlas of a font as a bitmap of one bit per pixel.

use crate::atlas::{lemma_placement_in_atlas, ATLAS_WIDTH};
use crate::font_data::{FontData, Glyph};
use vstd::prelude::*;

verus! {

/// The number of bytes of a row of the atlas.
pub const ATLAS_ROW_BYTES: u32 = 16;

/// The place of the pixel `(x, y)` of a glyph among the pixels of the
/// atlas, which are counted row by row.
pub open spec fn pixel_index(g: Glyph, x: int, y: int) -> int {
    g.left + x + (g.top + y) * ATLAS_WIDTH
}

/// Whether the pixel `(x, y)` of a glyph is ink and stands at `p` in the atlas.
pub open spec fn inks(g: Glyph, x: int, y: int, p: int) -> bool {
    0 <= x < g.img.width && 0 <= y < g.img.height && g.img.ink(x, y) && p == pixel_index(g, x, y)
}

/// Whether a glyph puts ink on the pixel `p` of the atlas.
pub open spec fn covers(g: Glyph, p: int) -> bool {
    exists|x: int, y: int| #[trigger] inks(g, x, y, p)
}

/// Whether a glyph puts ink on the pixel `p` of the atlas from one of its
/// pixels before `(cols, rows)`, row by row.
pub open spec fn covers_before(g: Glyph, rows: int, cols: int, p: int) -> bool {
    exists|x: int, y: int| #[trigger] inks(g, x, y, p) && (y < rows || (y == rows && x < cols))
}

/// Whether one of the glyphs puts ink on the pixel `p` of the atlas.
pub open spec fn atlas_ink(glyphs: Seq<Glyph>, p: int) -> bool {
    exists|k: int| 0 <= k < glyphs.len() && covers(#[trigger] glyphs[k], p)
}

/// The value of the byte that holds the eight pixels from `8 * i` on, the
/// first of them in the highest bit; a bit is set where the pixel is ink.
pub open spec fn packed_byte(ink: Seq<bool>, i: int) -> int {
    (if ink[8 * i] { 128int } else { 0 }) + (if ink[8 * i + 1] { 64int } else { 0 }) + (if ink[8 * i + 2] {
        32int
    } else {
        0
    }) + (if ink[8 * i + 3] { 16int } else { 0 }) + (if ink[8 * i + 4] { 8int } else { 0 }) + (if ink[8
        * i + 5] { 4int } else { 0 }) + (if ink[8 * i + 6] { 2int } else { 0 }) + (if ink[8 * i + 7] {
        1int
    } else {
        0
    })
}

/// Whether a glyph lies within an atlas of the given height.
pub open spec fn stampable(g: Glyph, atlas_height: u32) -> bool {
    &&& g.img.wf()
    &&& g.left + g.img.width <= ATLAS_WIDTH
    &&& g.top + g.img.height <= atlas_height
}

/// Marks the pixels of the atlas on which a glyph puts ink.
fn stamp(map: &mut Vec<bool>, g: &Glyph, atlas_height: u32)
    requires
        stampable(*g, atlas_height),
        ATLAS_WIDTH * atlas_height <= u32::MAX,
        old(map)@.len() == ATLAS_WIDTH * atlas_height,
    ensures
        final(map)@.len() == old(map)@.len(),
        forall|p: int|
            0 <= p < final(map)@.len() ==> #[trigger] final(map)@[p] == (old(map)@[p] || covers(
                *g,
                p,
            )),
{
    let ghost start = map@;
    let ghost size = map@.len() as int;
    let mut y: u32 = 0;
    while y < g.img.height
        invariant
            y <= g.img.height,
            stampable(*g, atlas_height),
            map@.len() == size,
            start.len() == size,
            size == ATLAS_WIDTH * atlas_height,
            size <= u32::MAX,
            forall|p: int|
                0 <= p < size ==> #[trigger] map@[p] == (start[p] || covers_before(
                    *g,
                    y as int,
                    0,
                    p,
                )),
        decreases g.img.height - y,
    {
        let mut x: u32 = 0;
        while x < g.img.width
            invariant
                x <= g.img.width,
                y < g.img.height,
                stampable(*g, atlas_height),
                map@.len() == size,
                start.len() == size,
                size == ATLAS_WIDTH * atlas_height,
                size <= u32::MAX,
                forall|p: int|
                    0 <= p < size ==> #[trigger] map@[p] == (start[p] || covers_before(
                        *g,
                        y as int,
                        x as int,
                        p,
                    )),
            decreases g.img.width - x,
        {
            let ghost at = pixel_index(*g, x as int, y as int);
            assert(0 <= at < size) by (nonlinear_arith)
                requires
                    at == g.left + x + (g.top + y) * 128,
                    g.left + x < 128,
                    g.top + y < atlas_height,
                    size == 128 * atlas_height,
            ;
            let ink = g.img.is_ink(x, y);
            if ink {
                let index: usize = (g.left + x) as usize + (g.top + y) as usize
                    * ATLAS_WIDTH as usize;
                map.set(index, true);
            }
            proof {
                assert forall|p: int| 0 <= p < size implies #[trigger] map@[p] == (start[p]
                    || covers_before(*g, y as int, x + 1, p)) by {
                    if covers_before(*g, y as int, x as int, p) {
                        let (px, py) = choose|px: int, py: int|
                            #[trigger] inks(*g, px, py, p) && (py < y || (py == y && px < x));
                        assert(inks(*g, px, py, p) && (py < y || (py == y && px < x + 1)));
                    }
                    if ink && p == at {
                        assert(inks(*g, x as int, y as int, p) && (y < y || (y == y && x < x + 1)));
                    }
                    if covers_before(*g, y as int, x + 1, p) {
                        let (px, py) = choose|px: int, py: int|
                            #[trigger] inks(*g, px, py, p) && (py < y || (py == y && px < x + 1));
                        if py == y && px == x {
                            assert(ink && p == at);
                        } else {
                            assert(inks(*g, px, py, p) && (py < y || (py == y && px < x)));
                        }
                    }
                }
            }
            x += 1;
        }
        proof {
            assert forall|p: int| 0 <= p < size implies #[trigger] map@[p] == (start[p]
                || covers_before(*g, y + 1, 0, p)) by {
                if covers_before(*g, y as int, g.img.width as int, p) {
                    let (px, py) = choose|px: int, py: int|
                        #[trigger] inks(*g, px, py, p) && (py < y || (py == y && px
                            < g.img.width));
                    assert(inks(*g, px, py, p) && (py < y + 1 || (py == y + 1 && px < 0)));
                }
                if covers_before(*g, y + 1, 0, p) {
                    let (px, py) = choose|px: int, py: int|
                        #[trigger] inks(*g, px, py, p) && (py < y + 1 || (py == y + 1 && px < 0));
                    assert(inks(*g, px, py, p) && (py < y || (py == y && px < g.img.width)));
                }
            }
        }
        y += 1;
    }
    proof {
        assert forall|p: int| 0 <= p < size implies #[trigger] map@[p] == (start[p] || covers(
            *g,
            p,
        )) by {
            if covers_before(*g, g.img.height as int, 0, p) {
                let (px, py) = choose|px: int, py: int|
                    #[trigger] inks(*g, px, py, p) && (py < g.img.height || (py == g.img.height
                        && px < 0));
                assert(inks(*g, px, py, p));
            }
            if covers(*g, p) {
                let (px, py) = choose|px: int, py: int| #[trigger] inks(*g, px, py, p);
                assert(inks(*g, px, py, p) && (py < g.img.height || (py == g.img.height && px
                    < 0)));
            }
        }
    }
}

impl FontData {
    /// The atlas is small enough to count its pixels in 32 bits, and no
    /// glyph reaches below it.
    pub open spec fn drawable(&self) -> bool {
        &&& ATLAS_WIDTH * self.atlas_height <= u32::MAX
        &&& forall|k: int|
            0 <= k < self.glyphs@.len() ==> (#[trigger] self.glyphs@[k]).top
                + self.glyphs@[k].img.height <= self.atlas_height
    }

    /// Which pixels of the atlas are ink, row by row.
    pub open spec fn ink(&self) -> Seq<bool> {
        Seq::new((ATLAS_WIDTH * self.atlas_height) as nat, |p: int| atlas_ink(self.glyphs@, p))
    }

    /// Whether the atlas can be drawn.
    pub fn is_drawable(&self) -> (r: bool)
        ensures
            r == self.drawable(),
    {
        if self.atlas_height > u32::MAX / ATLAS_WIDTH {
            return false;
        }
        let mut k: usize = 0;
        while k < self.glyphs.len()
            invariant
                k <= self.glyphs@.len(),
                forall|i: int|
                    0 <= i < k ==> (#[trigger] self.glyphs@[i]).top + self.glyphs@[i].img.height
                        <= self.atlas_height,
            decreases self.glyphs@.len() - k,
        {
            let g = &self.glyphs[k];
            if g.top as u64 + g.img.height as u64 > self.atlas_height as u64 {
                return false;
            }
            k += 1;
        }
        true
    }

    /// Which pixels of the atlas are ink, row by row.
    pub fn ink_map(&self) -> (map: Vec<bool>)
        requires
            self.wf(),
            self.drawable(),
        ensures
            map@ == self.ink(),
    {
        let size: usize = (ATLAS_WIDTH * self.atlas_height) as usize;
        let mut map: Vec<bool> = Vec::new();
        while map.len() < size
            invariant
                map@.len() <= size,
                forall|p: int| 0 <= p < map@.len() ==> !map@[p],
            decreases size - map@.len(),
        {
            map.push(false);
        }
        proof {
            assert forall|k: int| 0 <= k < self.glyphs@.len() implies stampable(
                #[trigger] self.glyphs@[k],
                self.atlas_height,
            ) by {
                assert(self.widths()[k] == self.glyphs@[k].img.width);
                lemma_placement_in_atlas(self.widths(), self.line_height as int, k);
            }
        }
        let mut k: usize = 0;
        while k < self.glyphs.len()
            invariant
                k <= self.glyphs@.len(),
                forall|i: int|
                    0 <= i < self.glyphs@.len() ==> stampable(
                        #[trigger] self.glyphs@[i],
                        self.atlas_height,
                    ),
                map@.len() == size,
                size == ATLAS_WIDTH * self.atlas_height,
                size <= u32::MAX,
                forall|p: int|
                    0 <= p < size ==> #[trigger] map@[p] == atlas_ink(
                        self.glyphs@.take(k as int),
                        p,
                    ),
            decreases self.glyphs@.len() - k,
        {
            let ghost done = self.glyphs@.take(k as int);
            let ghost before = map@;
            stamp(&mut map, &self.glyphs[k], self.atlas_height);
            proof {
                let g = self.glyphs@[k as int];
                let next = self.glyphs@.take(k + 1);
                assert forall|p: int| 0 <= p < size implies #[trigger] map@[p] == atlas_ink(
                    next,
                    p,
                ) by {
                    assert(map@[p] == (before[p] || covers(g, p)));
                    if atlas_ink(done, p) {
                        let j = choose|j: int| 0 <= j < done.len() && covers(#[trigger] done[j], p);
                        assert(next[j] == done[j]);
                    }
                    if covers(g, p) {
                        assert(covers(next[k as int], p));
                    }
                    if atlas_ink(next, p) {
                        let j = choose|j: int| 0 <= j < next.len() && covers(#[trigger] next[j], p);
                        if j < k {
                            assert(done[j] == next[j]);
                        }
                    }
                }
            }
            k += 1;
        }
        proof {
            assert(self.glyphs@.take(k as int) =~= self.glyphs@);
            assert(map@ =~= self.ink());
        }
        map
    }

    /// The atlas as a bitmap: sixteen bytes for each row, the rows from the
    /// top down, the leftmost pixel of a byte in its highest bit, and a bit
    /// set where a glyph has ink.
    pub fn bitmap_data(&self) -> (data: Vec<u8>)
        requires
            self.wf(),
            self.drawable(),
        ensures
            data@.len() == ATLAS_ROW_BYTES * self.atlas_height,
            forall|i: int| 0 <= i < data@.len() ==> #[trigger] data@[i] == packed_byte(self.ink(), i),
    {
        let map = self.ink_map();
        let count: usize = (ATLAS_ROW_BYTES * self.atlas_height) as usize;
        let mut data: Vec<u8> = Vec::new();
        let mut i: usize = 0;
        while i < count
            invariant
                i <= count,
                count == ATLAS_ROW_BYTES * self.atlas_height,
                map@.len() == ATLAS_WIDTH * self.atlas_height,
                map@.len() <= u32::MAX,
                map@ == self.ink(),
                data@.len() == i,
                forall|j: int| 0 <= j < i ==> #[trigger] data@[j] == packed_byte(map@, j),
            decreases count - i,
        {
            assert(8 * i + 7 < map@.len());
            let at: usize = 8 * i;
            let mut byte: u8 = 0;
            if map[at] {
                byte += 128;
            }
            if map[at + 1] {
                byte += 64;
            }
            if map[at + 2] {
                byte += 32;
            }
            if map[at + 3] {
                byte += 16;
            }
            if map[at + 4] {
                byte += 8;
            }
            if map[at + 5] {
                byte += 4;
            }
            if map[at + 6] {
                byte += 2;
            }
            if map[at + 7] {
                byte += 1;
            }
            data.push(byte);
            i += 1;
        }
        data
    }
}

} // verus!
