//! What a font is built from: the glyph bitmaps and the described metrics,
//! narrowed to the character subset that is asked for.

use crate::code_point::CodePoint;
use crate::glyph_images::{GlyphBitmap, BACKGROUND_LUMA, MAX_GLYPH_SIZE};
use crate::glyph_set::{ids_of, SourceGlyph};
use crate::table::first_hit;
use crate::text::{all_ascii, is_all_ascii};
use vstd::prelude::*;

verus! {

/// The characters that a font is built for.
#[derive(Debug, Clone, Copy, PartialEq, Eq, Structural)]
pub enum Subset {
    /// Glyphs whose scalar values are all below 128; the printable ones of
    /// them, 0x20 to 0x7E, must all be there.
    Ascii,
    /// Every glyph.
    All,
}

/// The identity of the space glyph, which is made up, not drawn.
pub open spec fn space_id() -> Seq<char> {
    seq![' ']
}

/// Whether a subset takes the glyph with the identity `id`.
pub open spec fn keeps(subset: Subset, id: Seq<char>) -> bool {
    subset == Subset::All || all_ascii(id)
}

/// `keeps` for one subset, as `filter` takes it.
pub open spec fn kept(subset: Subset) -> spec_fn(Seq<char>) -> bool {
    |id: Seq<char>| keeps(subset, id)
}

/// The identities of glyph images, in their order.
pub open spec fn image_ids(images: Seq<(CodePoint, GlyphBitmap)>) -> Seq<Seq<char>> {
    images.map_values(|e: (CodePoint, GlyphBitmap)| e.0.scalars())
}

/// The identities of the glyphs of a font before they are put in order:
/// those of the images that the subset takes, and the space.
pub open spec fn source_ids(images: Seq<(CodePoint, GlyphBitmap)>, subset: Subset) -> Seq<
    Seq<char>,
> {
    image_ids(images).filter(kept(subset)).push(space_id())
}

/// Whether an image is the one of the identity `id`.
pub open spec fn has_id(id: Seq<char>) -> spec_fn((CodePoint, GlyphBitmap)) -> bool {
    |e: (CodePoint, GlyphBitmap)| e.0.scalars() == id
}

/// Size and pixels, `(width, height, luma)`, of the bitmap of the glyph `id`:
/// those of the first image of that identity, or, there being none, blank
/// with the size of a space.
pub open spec fn source_bitmap(
    images: Seq<(CodePoint, GlyphBitmap)>,
    space_width: u32,
    line_height: u32,
    id: Seq<char>,
) -> (u32, u32, Seq<u8>) {
    match first_hit(images, has_id(id)) {
        Some(i) => (images[i].1.width, images[i].1.height, images[i].1.luma@),
        None => (
            space_width,
            line_height,
            Seq::new((space_width * line_height) as nat, |i: int| BACKGROUND_LUMA),
        ),
    }
}

/// Whether a bitmap is too large for a glyph record: one of the images, or
/// the space.
pub open spec fn oversized(
    images: Seq<(CodePoint, GlyphBitmap)>,
    space_width: u32,
    line_height: u32,
) -> bool {
    space_width > MAX_GLYPH_SIZE || line_height > MAX_GLYPH_SIZE || exists|i: int|
        0 <= i < images.len() && !(#[trigger] images[i]).1.fits()
}

/// Whether one of the bitmaps is too large for a glyph record.
pub fn any_oversized(images: &[(CodePoint, GlyphBitmap)], space_width: u32, line_height: u32) -> (r:
    bool)
    ensures
        r == oversized(images@, space_width, line_height),
{
    if space_width > MAX_GLYPH_SIZE || line_height > MAX_GLYPH_SIZE {
        return true;
    }
    let mut i: usize = 0;
    while i < images.len()
        invariant
            i <= images@.len(),
            forall|j: int| 0 <= j < i ==> (#[trigger] images@[j]).1.fits(),
        decreases images@.len() - i,
    {
        if images[i].1.width > MAX_GLYPH_SIZE || images[i].1.height > MAX_GLYPH_SIZE {
            return true;
        }
        i += 1;
    }
    false
}

/// The glyphs that a font is built from, not yet in order: the images that
/// the subset takes, and a blank glyph for the space.
pub fn source_glyphs(
    images: &[(CodePoint, GlyphBitmap)],
    space_width: u32,
    line_height: u32,
    subset: Subset,
) -> (source: Vec<SourceGlyph>)
    requires
        space_width <= MAX_GLYPH_SIZE,
        line_height <= MAX_GLYPH_SIZE,
    ensures
        ids_of(source@) == source_ids(images@, subset),
        forall|k: int| 0 <= k < source@.len() - 1 ==> from_images(images@, #[trigger] source@[k]),
        source@.len() > 0,
        source@.last().id@ == space_id(),
        source@.last().bitmap.width == space_width,
        source@.last().bitmap.height == line_height,
        source@.last().bitmap.luma@ == Seq::new(
            (space_width * line_height) as nat,
            |i: int| BACKGROUND_LUMA,
        ),
{
    let mut source: Vec<SourceGlyph> = Vec::new();
    let mut i: usize = 0;
    proof {
        assert(image_ids(images@).take(0) =~= Seq::<Seq<char>>::empty());
        Seq::<Seq<char>>::empty().lemma_filter_len(kept(subset));
        assert(ids_of(source@) =~= image_ids(images@).take(0).filter(kept(subset)));
    }
    while i < images.len()
        invariant
            i <= images@.len(),
            ids_of(source@) == image_ids(images@).take(i as int).filter(kept(subset)),
            forall|k: int| 0 <= k < source@.len() ==> from_images(images@, #[trigger] source@[k]),
        decreases images@.len() - i,
    {
        let id = images[i].0.chars();
        let ghost before = source@;
        proof {
            let seen = image_ids(images@).take(i as int);
            seen.lemma_filter_push(id@, kept(subset));
            assert(seen.push(id@) =~= image_ids(images@).take(i + 1));
        }
        let take = match subset {
            Subset::All => true,
            Subset::Ascii => is_all_ascii(id.as_slice()),
        };
        if take {
            let glyph = SourceGlyph { id, bitmap: images[i].1.duplicate() };
            source.push(glyph);
            proof {
                assert(ids_of(source@) =~= ids_of(before).push(glyph.id@));
                assert forall|k: int| 0 <= k < source@.len() implies from_images(
                    images@,
                    #[trigger] source@[k],
                ) by {
                    if k < before.len() {
                        assert(source@[k] == before[k]);
                    } else {
                        assert(is_image(images@[i as int], source@[k]));
                    }
                }
            }
        }
        i += 1;
    }
    let mut id: Vec<char> = Vec::new();
    id.push(' ');
    let space = SourceGlyph { id, bitmap: GlyphBitmap::blank(space_width, line_height) };
    proof {
        assert(image_ids(images@).take(i as int) =~= image_ids(images@));
        assert(space.id@ =~= space_id());
        assert(ids_of(source@.push(space)) =~= ids_of(source@).push(space.id@));
        let grown = source@.push(space);
        assert forall|k: int| 0 <= k < grown.len() - 1 implies from_images(
            images@,
            #[trigger] grown[k],
        ) by {
            assert(grown[k] == source@[k]);
        }
    }
    source.push(space);
    source
}

/// Whether a glyph has the identity and the bitmap of an image.
pub open spec fn is_image(image: (CodePoint, GlyphBitmap), glyph: SourceGlyph) -> bool {
    glyph.id@ == image.0.scalars() && same_bitmap(glyph.bitmap, image.1)
}

/// Whether a glyph has the identity and the bitmap of one of the images.
pub open spec fn from_images(images: Seq<(CodePoint, GlyphBitmap)>, glyph: SourceGlyph) -> bool {
    exists|i: int| 0 <= i < images.len() && is_image(#[trigger] images[i], glyph)
}

/// Whether two bitmaps have the same size and pixels.
pub open spec fn same_bitmap(a: GlyphBitmap, b: GlyphBitmap) -> bool {
    a.width == b.width && a.height == b.height && a.luma@ == b.luma@
}

} // verus!
