//! Source bitmaps of glyphs.

use crate::code_point::CodePoint;
use vstd::prelude::*;
use vstd::slice::slice_to_vec;

verus! {

/// The largest width and height, in pixels, that a glyph record can hold.
pub const MAX_GLYPH_SIZE: u32 = 15;

/// Luma of a background pixel in a synthesized bitmap.
pub const BACKGROUND_LUMA: u8 = 255;

/// A grayscale bitmap, one luma byte per pixel, row by row.
#[derive(Debug)]
pub struct GlyphBitmap {
    pub width: u32,
    pub height: u32,
    pub luma: Vec<u8>,
}

impl GlyphBitmap {
    /// There is one luma byte for each pixel.
    pub open spec fn wf(&self) -> bool {
        self.luma@.len() == self.width * self.height
    }

    /// The bitmap fits a glyph record.
    pub open spec fn fits(&self) -> bool {
        self.width <= MAX_GLYPH_SIZE && self.height <= MAX_GLYPH_SIZE
    }

    /// Whether the pixel at `(x, y)` is ink: a pixel is ink where its luma is 0.
    pub open spec fn ink(&self, x: int, y: int) -> bool {
        self.luma@[y * self.width + x] == 0
    }

    /// Whether there is one luma byte for each pixel.
    pub fn is_wf(&self) -> (r: bool)
        ensures
            r == self.wf(),
    {
        assert(self.width * self.height <= 0xffff_ffff * 0xffff_ffff) by (nonlinear_arith)
            requires
                self.width <= 0xffff_ffff,
                self.height <= 0xffff_ffff,
        ;
        self.luma.len() as u128 == self.width as u128 * self.height as u128
    }

    /// A bitmap of the given size without ink.
    pub fn blank(width: u32, height: u32) -> (b: Self)
        requires
            width <= MAX_GLYPH_SIZE,
            height <= MAX_GLYPH_SIZE,
        ensures
            b.wf(),
            b.width == width,
            b.height == height,
            b.luma@ == Seq::new((width * height) as nat, |i: int| BACKGROUND_LUMA),
    {
        assert(width * height <= 225) by (nonlinear_arith)
            requires
                width <= 15,
                height <= 15,
        ;
        let n: usize = (width * height) as usize;
        let mut luma: Vec<u8> = Vec::new();
        while luma.len() < n
            invariant
                luma@.len() <= n,
                forall|i: int| 0 <= i < luma@.len() ==> luma@[i] == BACKGROUND_LUMA,
            decreases n - luma@.len(),
        {
            luma.push(BACKGROUND_LUMA);
        }
        assert(luma@ =~= Seq::new((width * height) as nat, |i: int| BACKGROUND_LUMA));
        GlyphBitmap { width, height, luma }
    }

    /// Whether the pixel at `(x, y)` is ink.
    pub fn is_ink(&self, x: u32, y: u32) -> (r: bool)
        requires
            self.wf(),
            x < self.width,
            y < self.height,
        ensures
            r == self.ink(x as int, y as int),
    {
        assert(y * self.width + x < self.width * self.height) by (nonlinear_arith)
            requires
                x < self.width,
                y < self.height,
        ;
        let n: usize = self.luma.len();
        assert(y * self.width + x < n);
        assert(y * self.width <= y * self.width + x);
        let i: usize = y as usize * self.width as usize + x as usize;
        self.luma[i] == 0
    }

    /// A bitmap with the same size and pixels.
    pub fn duplicate(&self) -> (b: Self)
        ensures
            b.width == self.width,
            b.height == self.height,
            b.luma@ == self.luma@,
    {
        GlyphBitmap { width: self.width, height: self.height, luma: slice_to_vec(self.luma.as_slice()) }
    }
}

/// The glyph bitmaps of a font, each with its identity, in no particular order.
#[derive(Debug)]
pub struct GlyphImages {
    pub code_points_and_images: Vec<(CodePoint, GlyphBitmap)>,
}

} // verus!
