//! A preview of the atlas of a font: the atlas enlarged, as a PNG image in a
//! data URI.

use crate::atlas::ATLAS_WIDTH;
use crate::font_data::FontData;
use image::codecs::png::PngEncoder;
use image::{ExtendedColorType, ImageEncoder, ImageError};
use vstd::prelude::*;
use vstd::string::StringExecFns;

verus! {

/// Luma of an ink pixel in the preview.
pub const PREVIEW_INK: u8 = 255;

/// Luma of a background pixel in the preview.
pub const PREVIEW_BACKGROUND: u8 = 0;

/// Why there is no preview.
#[derive(Debug, Clone, Copy, PartialEq, Eq, Structural)]
pub enum PreviewError {
    /// The encoder gave no PNG image.
    Encoder,
}

/// The error of the `image` crate, of which nothing is read.
#[verifier::external_type_specification]
#[verifier::external_body]
pub struct ExImageError(ImageError);

/// The PNG image that the encoder of the `image` crate gives for grayscale
/// pixels of eight bits, row by row, or none where it fails.
pub uninterp spec fn png_image(luma: Seq<u8>, width: u32, height: u32) -> Option<Seq<u8>>;

/// What the `base64` crate encodes bytes as, with its standard alphabet and padding.
pub uninterp spec fn base64_text(bytes: Seq<u8>) -> Seq<char>;

/// `image::codecs::png::PngEncoder::write_image` with the colour type `L8`,
/// on an encoder that writes to a vector: the bytes written are the PNG
/// image of the pixels, which depends on nothing else; there must be one
/// byte for each pixel.
#[verifier::external_body]
fn encode_png(luma: &[u8], width: u32, height: u32) -> (r: Result<Vec<u8>, ImageError>)
    requires
        luma@.len() == width * height,
    ensures
        match r {
            Ok(png) => png_image(luma@, width, height) == Some(png@),
            Err(_) => png_image(luma@, width, height) is None,
        },
{
    let mut png = Vec::new();
    PngEncoder::new(&mut png).write_image(luma, width, height, ExtendedColorType::L8)?;
    Ok(png)
}

/// `base64::encode`: the bytes in base64, which depends on nothing else.
#[verifier::external_body]
#[allow(deprecated)]
fn encode_base64(bytes: &[u8]) -> (r: String)
    ensures
        r@ == base64_text(bytes@),
{
    base64::encode(bytes)
}

/// The luma of the pixel `p` of a preview that is `scale` times as large as
/// the atlas: that of ink where the pixel of the atlas under it is ink.
pub open spec fn preview_pixel(ink: Seq<bool>, scale: int, p: int) -> u8 {
    let width = ATLAS_WIDTH * scale;
    let x = (p % width) / scale;
    let y = (p / width) / scale;
    if ink[x + y * ATLAS_WIDTH] {
        PREVIEW_INK
    } else {
        PREVIEW_BACKGROUND
    }
}

/// The pixels of a preview that is `scale` times as large as an atlas of
/// height `height`, row by row.
pub open spec fn preview_luma(ink: Seq<bool>, height: int, scale: int) -> Seq<u8> {
    Seq::new(
        ((ATLAS_WIDTH * scale) * (height * scale)) as nat,
        |p: int| preview_pixel(ink, scale, p),
    )
}

/// The data URI of a PNG image that is given in base64.
pub fn data_uri(encoded: &str) -> (uri: String)
    ensures
        uri@ == "data:image/png;base64,"@ + encoded@,
{
    let mut uri = String::from_str("data:image/png;base64,");
    uri.append(encoded);
    uri
}

impl FontData {
    /// A preview of the given scale can be made: its width, its height and
    /// the number of its pixels are within the range of the numbers that
    /// hold them.
    pub open spec fn previewable(&self, scale: u32) -> bool {
        &&& ATLAS_WIDTH * scale <= u32::MAX
        &&& self.atlas_height * scale <= u32::MAX
        &&& (ATLAS_WIDTH * scale) * (self.atlas_height * scale) <= usize::MAX
    }

    /// Whether a preview of the given scale can be made.
    pub fn is_previewable(&self, scale: u32) -> (r: bool)
        ensures
            r == self.previewable(scale),
    {
        assert(ATLAS_WIDTH * scale <= 0xffff_ffff * 0xffff_ffff && self.atlas_height * scale
            <= 0xffff_ffff * 0xffff_ffff) by (nonlinear_arith)
            requires
                scale <= 0xffff_ffff,
                self.atlas_height <= 0xffff_ffff,
                ATLAS_WIDTH == 128,
        ;
        let width: u64 = ATLAS_WIDTH as u64 * scale as u64;
        let height: u64 = self.atlas_height as u64 * scale as u64;
        if width > u32::MAX as u64 || height > u32::MAX as u64 {
            return false;
        }
        assert(width * height <= 0xffff_ffff * 0xffff_ffff) by (nonlinear_arith)
            requires
                width <= 0xffff_ffff,
                height <= 0xffff_ffff,
        ;
        width as u128 * height as u128 <= usize::MAX as u128
    }

    /// The pixels of a preview of the atlas, `scale` times as large, row by row.
    pub fn preview(&self, scale: u32) -> (luma: Vec<u8>)
        requires
            self.wf(),
            self.drawable(),
            self.previewable(scale),
        ensures
            luma@ == preview_luma(self.ink(), self.atlas_height as int, scale as int),
    {
        let ink = self.ink_map();
        let pixels: usize = ink.len();
        let width: usize = (ATLAS_WIDTH * scale) as usize;
        let height: usize = (self.atlas_height * scale) as usize;
        let total: usize = width * height;
        let mut luma: Vec<u8> = Vec::new();
        let mut p: usize = 0;
        while p < total
            invariant
                p <= total,
                width == ATLAS_WIDTH * scale,
                height == self.atlas_height * scale,
                total == width * height,
                ink@ == self.ink(),
                ink@.len() == ATLAS_WIDTH * self.atlas_height,
                ink@.len() <= usize::MAX,
                luma@.len() == p,
                forall|q: int| 0 <= q < p ==> #[trigger] luma@[q] == preview_pixel(ink@, scale as int, q),
            decreases total - p,
        {
            assert(scale > 0 && width > 0) by (nonlinear_arith)
                requires
                    p < total,
                    total == width * height,
                    width == 128 * scale,
            ;
            let x: usize = (p % width) / scale as usize;
            let y: usize = (p / width) / scale as usize;
            assert(x < 128 && y < self.atlas_height) by (nonlinear_arith)
                requires
                    x == ((p as int) % (width as int)) / (scale as int),
                    y == ((p as int) / (width as int)) / (scale as int),
                    p < width * height,
                    width == 128 * scale,
                    height == self.atlas_height * scale,
                    scale > 0,
            ;
            assert(x + y * 128 < 128 * self.atlas_height) by (nonlinear_arith)
                requires
                    x < 128,
                    y < self.atlas_height,
            ;
            assert(ink@.len() <= usize::MAX);
            let at: usize = x + y * ATLAS_WIDTH as usize;
            if ink[at] {
                luma.push(PREVIEW_INK);
            } else {
                luma.push(PREVIEW_BACKGROUND);
            }
            p += 1;
        }
        assert(luma@ =~= preview_luma(self.ink(), self.atlas_height as int, scale as int));
        luma
    }

    /// A preview of the atlas, `scale` times as large, as the data URI of a
    /// PNG image; an error where the encoder gives no image.
    pub fn png_data(&self, scale: u32) -> (r: Result<String, PreviewError>)
        requires
            self.wf(),
            self.drawable(),
            self.previewable(scale),
        ensures
            ({
                let luma = preview_luma(self.ink(), self.atlas_height as int, scale as int);
                let width = (ATLAS_WIDTH * scale) as u32;
                let height = (self.atlas_height * scale) as u32;
                match r {
                    Ok(uri) => png_image(luma, width, height) matches Some(png) && uri@
                        == "data:image/png;base64,"@ + base64_text(png),
                    Err(e) => png_image(luma, width, height) is None,
                }
            }),
    {
        let luma = self.preview(scale);
        match encode_png(luma.as_slice(), ATLAS_WIDTH * scale, self.atlas_height * scale) {
            Ok(png) => Ok(data_uri(encode_base64(png.as_slice()).as_str())),
            Err(_) => Err(PreviewError::Encoder),
        }
    }
}

} // verus!
