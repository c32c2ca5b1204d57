//! Shelf packing of glyph bitmaps into the atlas.

use vstd::prelude::*;

verus! {

/// Width of the atlas in pixels.
pub const ATLAS_WIDTH: u32 = 128;

/// Free pixels left between neighbouring glyphs and between rows.
pub const GLYPH_SPACING: u32 = 1;

/// Where the next glyph would start, `(left, top)`, once the first `k`
/// glyphs of `widths` are placed.
pub open spec fn cursor(widths: Seq<u32>, line_height: int, k: int) -> (int, int)
    decreases k, 0int,
{
    if k <= 0 {
        (0, 0)
    } else {
        let p = placement(widths, line_height, k - 1);
        (p.0 + widths[k - 1] + GLYPH_SPACING, p.1)
    }
}

/// The atlas position `(left, top)` of glyph `k`: at the cursor, or at the
/// start of a new row where the glyph would cross the right edge.
pub open spec fn placement(widths: Seq<u32>, line_height: int, k: int) -> (int, int)
    decreases k, 1int,
{
    if k < 0 {
        (0, 0)
    } else {
        let c = cursor(widths, line_height, k);
        if c.0 + widths[k] > ATLAS_WIDTH {
            (0, c.1 + line_height + GLYPH_SPACING)
        } else {
            c
        }
    }
}

/// Height of the atlas: the top of the last row and one line height.
pub open spec fn atlas_height(widths: Seq<u32>, line_height: int) -> int {
    cursor(widths, line_height, widths.len() as int).1 + line_height
}

/// Whether the pixel `(x, y)` lies in the rectangle `(left, top, width, height)`.
pub open spec fn in_rect(r: (int, int, int, int), x: int, y: int) -> bool {
    r.0 <= x < r.0 + r.2 && r.1 <= y < r.1 + r.3
}

/// Whether two pixel rectangles `(left, top, width, height)` share a pixel.
pub open spec fn rects_overlap(a: (int, int, int, int), b: (int, int, int, int)) -> bool {
    exists|x: int, y: int| #[trigger] in_rect(a, x, y) && in_rect(b, x, y)
}

/// Rows only go down, by whole rows, and within a row the cursor only goes right.
pub proof fn lemma_cursor_bounds(widths: Seq<u32>, line_height: int, k: int)
    requires
        0 <= k <= widths.len(),
        0 <= line_height,
    ensures
        0 <= cursor(widths, line_height, k).0,
        0 <= cursor(widths, line_height, k).1 <= k * (line_height + 1),
    decreases k,
{
    if k > 0 {
        lemma_cursor_bounds(widths, line_height, k - 1);
        assert((k - 1) * (line_height + 1) + line_height + 1 == k * (line_height + 1))
            by (nonlinear_arith);
    }
}

/// No placed glyph crosses the right edge of the atlas.
pub proof fn lemma_placement_in_atlas(widths: Seq<u32>, line_height: int, k: int)
    requires
        0 <= k < widths.len(),
        0 <= line_height,
        widths[k] <= ATLAS_WIDTH,
    ensures
        0 <= placement(widths, line_height, k).0,
        placement(widths, line_height, k).0 + widths[k] <= ATLAS_WIDTH,
        0 <= placement(widths, line_height, k).1,
{
    lemma_cursor_bounds(widths, line_height, k);
}

/// A later glyph stands right of an earlier one in the same row, behind the
/// spacing, or in a row further down.
pub proof fn lemma_placement_order(widths: Seq<u32>, line_height: int, i: int, j: int)
    requires
        0 <= i < j < widths.len(),
        0 <= line_height,
    ensures
        ({
            let a = placement(widths, line_height, i);
            let b = placement(widths, line_height, j);
            (b.1 == a.1 && b.0 >= a.0 + widths[i] + GLYPH_SPACING) || b.1 >= a.1 + line_height
                + GLYPH_SPACING
        }),
    decreases j - i,
{
    if j > i + 1 {
        lemma_placement_order(widths, line_height, i, j - 1);
    }
    lemma_cursor_bounds(widths, line_height, j);
}

/// Glyphs no taller than a line do not overlap in the atlas.
pub proof fn lemma_no_overlap(
    widths: Seq<u32>,
    heights: Seq<u32>,
    line_height: int,
    i: int,
    j: int,
)
    requires
        widths.len() == heights.len(),
        0 <= i < widths.len(),
        0 <= j < widths.len(),
        i != j,
        0 <= line_height,
        heights[i] <= line_height,
        heights[j] <= line_height,
    ensures
        !rects_overlap(
            (
                placement(widths, line_height, i).0,
                placement(widths, line_height, i).1,
                widths[i] as int,
                heights[i] as int,
            ),
            (
                placement(widths, line_height, j).0,
                placement(widths, line_height, j).1,
                widths[j] as int,
                heights[j] as int,
            ),
        ),
{
    if i < j {
        lemma_placement_order(widths, line_height, i, j);
    } else {
        lemma_placement_order(widths, line_height, j, i);
    }
}

/// The atlas positions of glyphs of the given widths, in order, and the
/// height of the atlas that holds them.
pub fn pack(widths: &[u32], line_height: u32) -> (r: (Vec<(u32, u32)>, u32))
    requires
        forall|k: int| 0 <= k < widths@.len() ==> #[trigger] widths@[k] <= ATLAS_WIDTH,
        (widths@.len() + 1) * (line_height + 1) <= u32::MAX,
    ensures
        r.0@.len() == widths@.len(),
        forall|k: int|
            0 <= k < widths@.len() ==> (#[trigger] r.0@[k]).0 == placement(
                widths@,
                line_height as int,
                k,
            ).0 && r.0@[k].1 == placement(widths@, line_height as int, k).1,
        r.1 == atlas_height(widths@, line_height as int),
{
    let mut positions: Vec<(u32, u32)> = Vec::new();
    let mut left: u32 = 0;
    let mut top: u32 = 0;
    let mut k: usize = 0;
    while k < widths.len()
        invariant
            k <= widths@.len(),
            positions@.len() == k,
            forall|i: int| 0 <= i < widths@.len() ==> #[trigger] widths@[i] <= ATLAS_WIDTH,
            (widths@.len() + 1) * (line_height + 1) <= u32::MAX,
            left == cursor(widths@, line_height as int, k as int).0,
            top == cursor(widths@, line_height as int, k as int).1,
            left <= ATLAS_WIDTH + GLYPH_SPACING,
            forall|i: int|
                0 <= i < k ==> (#[trigger] positions@[i]).0 == placement(
                    widths@,
                    line_height as int,
                    i,
                ).0 && positions@[i].1 == placement(widths@, line_height as int, i).1,
        decreases widths@.len() - k,
    {
        let width: u32 = widths[k];
        proof {
            lemma_cursor_bounds(widths@, line_height as int, k as int);
            lemma_cursor_bounds(widths@, line_height as int, k as int + 1);
            assert((k + 1) * (line_height + 1) <= (widths@.len() + 1) * (line_height + 1))
                by (nonlinear_arith)
                requires
                    k + 1 <= widths@.len() + 1,
                    0 <= line_height + 1,
            ;
        }
        if left + width > ATLAS_WIDTH {
            left = 0;
            top += line_height + GLYPH_SPACING;
        }
        positions.push((left, top));
        left += width + GLYPH_SPACING;
        k += 1;
    }
    proof {
        lemma_cursor_bounds(widths@, line_height as int, k as int);
        assert((widths@.len() + 1) * (line_height + 1) == widths@.len() * (line_height + 1)
            + line_height + 1) by (nonlinear_arith);
    }
    (positions, top + line_height)
}

} // verus!
