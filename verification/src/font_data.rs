//! Building the data of a font asset from glyph bitmaps and described metrics.

use crate::atlas::{atlas_height, pack, placement};
use crate::code_point::{ident_order, CodePoint};
use crate::elm_file_data::ElmFileData;
use crate::error::FontError;
use crate::glyph_images::{GlyphBitmap, GlyphImages, BACKGROUND_LUMA, MAX_GLYPH_SIZE};
use crate::glyph_set::{canonical_order, ids_of, SourceGlyph};
use crate::keyed::{key_order, sort_by_key};
use crate::metrics::{
    bearing_of, class_of, keeps_override, keeps_pair, kept_pairs, };
use crate::sorting::sort_by;
use crate::source::{
    any_oversized, from_images, has_id, image_ids, is_image, kept, keeps, oversized, source_bitmap, source_glyphs, source_ids, space_id, Subset,
};
use crate::table::{first_hit, lemma_first_hit_is_first};
use crate::assemble::{
    bearing_table, make_glyphs, missing_printable, resolve_overrides, split_identities, widths_of,
};
use vstd::prelude::*;
use vstd::seq_lib::to_multiset_contains;

verus! {

/// The most glyph images that a font can be built from: glyph indices and
/// atlas rows are counted in 32 bits.
pub const MAX_IMAGES: usize = 0x0800_0000;

/// A glyph of the font: its place in the atlas, its kerning classes and its bitmap.
#[derive(Debug)]
pub struct Glyph {
    pub left: u32,
    pub top: u32,
    pub left_kerning_class: u8,
    pub right_kerning_class: u8,
    pub img: GlyphBitmap,
}

/// The data of a font asset, with its glyphs in canonical order: single
/// scalars first, then ligatures.
#[derive(Debug)]
pub struct FontData {
    pub charset: Subset,
    /// The scalar values of the single-scalar glyphs, in glyph order.
    pub glyph_code_points: Vec<char>,
    /// The ligatures, in glyph order, behind the single-scalar glyphs.
    pub ligature_code_points: Vec<Vec<char>>,
    pub glyphs: Vec<Glyph>,
    pub atlas_height: u32,
    pub line_height: u32,
    /// Side bearings `(glyph_index, left, right)`, by ascending index.
    pub glyph_bearings: Vec<(u32, i8, i8)>,
    pub default_bearings: (i8, i8),
    /// Kerning overrides `(left_glyph, right_glyph, adjustment)`, sorted by glyph pair.
    pub kerning_overrides: Vec<(u32, u32, i8)>,
    /// Kerning `(left_class, right_class, adjustment)`, sorted by class pair.
    pub kerning_pairs: Vec<(u8, u8, i8)>,
}

/// The identities of glyphs, given as the single scalars and the ligatures
/// behind them.
pub open spec fn identities_of(singles: Seq<char>, ligatures: Seq<Vec<char>>) -> Seq<Seq<char>> {
    singles.map_values(|c: char| seq![c]) + ligatures.map_values(|l: Vec<char>| l@)
}

/// The side-bearing rows of glyphs in the order `order`: one for each glyph
/// that `table` gives bearings, with its index.
pub open spec fn bearing_rows(order: Seq<Seq<char>>, table: Seq<(String, (i8, i8))>) -> Seq<
    (u32, i8, i8),
>
    decreases order.len(),
{
    if order.len() == 0 {
        Seq::empty()
    } else {
        let rest = bearing_rows(order.drop_last(), table);
        match bearing_of(table, order.last()) {
            Some(b) => rest.push(((order.len() - 1) as u32, b.0, b.1)),
            None => rest,
        }
    }
}

/// Whether an identity is `id`.
pub open spec fn is_id(id: Seq<char>) -> spec_fn(Seq<char>) -> bool {
    |x: Seq<char>| x == id
}

/// The index of the glyph `id` among glyphs in the order `order`.
pub open spec fn index_of(order: Seq<Seq<char>>, id: Seq<char>) -> Option<int> {
    first_hit(order, is_id(id))
}

/// Whether both glyphs of an override are among the glyphs in `order`.
pub open spec fn resolvable(order: Seq<Seq<char>>, entry: (String, String, i8)) -> bool {
    index_of(order, entry.0@) is Some && index_of(order, entry.1@) is Some
}

/// An override with its glyphs given by their indices.
pub open spec fn resolve(order: Seq<Seq<char>>, entry: (String, String, i8)) -> (u32, u32, i8) {
    (
        index_of(order, entry.0@).unwrap() as u32,
        index_of(order, entry.1@).unwrap() as u32,
        entry.2,
    )
}

/// `resolve` for one glyph order.
pub open spec fn resolver(order: Seq<Seq<char>>) -> spec_fn((String, String, i8)) -> (u32, u32, i8) {
    |entry: (String, String, i8)| resolve(order, entry)
}

/// Whether each override names glyphs that are in `order`.
pub open spec fn all_resolvable(order: Seq<Seq<char>>, entries: Seq<(String, String, i8)>) -> bool {
    forall|i: int| 0 <= i < entries.len() ==> resolvable(order, #[trigger] entries[i])
}

/// Whether one of the glyphs in `order` is the single scalar `c`.
pub open spec fn has_single(order: Seq<Seq<char>>, c: u32) -> bool {
    exists|k: int| 0 <= k < order.len() && #[trigger] order[k] == seq![c as char]
}

/// Whether none of the glyphs in `order` is the single scalar `c`.
pub open spec fn absent(order: Seq<Seq<char>>) -> spec_fn(u32) -> bool {
    |c: u32| !has_single(order, c)
}

/// The printable ASCII scalar values, 0x20 to 0x7E.
pub open spec fn printable_ascii() -> Seq<u32> {
    Seq::new(95, |i: int| (0x20 + i) as u32)
}

/// The printable ASCII scalar values that have no glyph in `order`, ascending.
pub open spec fn missing_ascii(order: Seq<Seq<char>>) -> Seq<u32> {
    printable_ascii().filter(absent(order))
}

} // verus!

verus! {

impl FontData {
    /// The identities of the glyphs, in glyph order.
    pub open spec fn identities(&self) -> Seq<Seq<char>> {
        identities_of(self.glyph_code_points@, self.ligature_code_points@)
    }

    /// The widths of the glyph bitmaps, in glyph order.
    pub open spec fn widths(&self) -> Seq<u32> {
        self.glyphs@.map_values(|g: Glyph| g.img.width)
    }

    /// The heights of the glyph bitmaps, in glyph order.
    pub open spec fn heights(&self) -> Seq<u32> {
        self.glyphs@.map_values(|g: Glyph| g.img.height)
    }

    /// The parts of the data fit together: there is a glyph for each
    /// identity, each bitmap fits a glyph record, a ligature has two scalar
    /// values or more, and the glyphs stand in the atlas where shelf packing
    /// puts them.
    pub open spec fn wf(&self) -> bool {
        &&& self.glyphs@.len() == self.glyph_code_points@.len() + self.ligature_code_points@.len()
        &&& self.glyphs@.len() <= MAX_IMAGES + 1
        &&& self.line_height <= MAX_GLYPH_SIZE
        &&& forall|j: int|
            0 <= j < self.ligature_code_points@.len() ==> (
            #[trigger] self.ligature_code_points@[j])@.len() >= 2
        &&& forall|k: int|
            0 <= k < self.glyphs@.len() ==> {
                let g = #[trigger] self.glyphs@[k];
                &&& g.img.wf()
                &&& g.img.fits()
                &&& g.left == placement(self.widths(), self.line_height as int, k).0
                &&& g.top == placement(self.widths(), self.line_height as int, k).1
            }
        &&& self.atlas_height == atlas_height(self.widths(), self.line_height as int)
    }

    /// Glyph `k` is what the sources make it: the bitmap and the kerning
    /// classes of its identity.
    pub open spec fn glyph_built(
        &self,
        images: Seq<(CodePoint, GlyphBitmap)>,
        elm: ElmFileData,
        k: int,
    ) -> bool {
        let g = self.glyphs@[k];
        let id = self.identities()[k];
        &&& (g.img.width, g.img.height, g.img.luma@) == source_bitmap(
            images,
            elm.space_width,
            elm.line_height,
            id,
        )
        &&& g.left_kerning_class == class_of(elm.left_kerning_class@, id)
        &&& g.right_kerning_class == class_of(elm.right_kerning_class@, id)
    }

    /// The data is what the images and the described metrics make it for a
    /// subset: the glyphs that the subset takes and the space, in canonical
    /// order, each with its bitmap and kerning classes; the side bearings of
    /// those glyphs by index; the class pairs that the subset takes, sorted;
    /// and the overrides that it takes, by glyph index, sorted.
    pub open spec fn built_from(
        &self,
        images: Seq<(CodePoint, GlyphBitmap)>,
        elm: ElmFileData,
        subset: Subset,
    ) -> bool {
        let order = sort_by(source_ids(images, subset), ident_order());
        &&& self.charset == subset
        &&& self.line_height == elm.line_height
        &&& self.default_bearings == elm.default_bearings
        &&& self.identities() == order
        &&& forall|k: int| 0 <= k < order.len() ==> self.glyph_built(images, elm, k)
        &&& self.glyph_bearings@ == bearing_rows(order, elm.bearings@)
        &&& self.kerning_pairs@ == sort_by(
            elm.kerning_pairs@.filter(
                keeps_pair(subset, elm.left_kerning_class@, elm.right_kerning_class@),
            ),
            key_order(),
        )
        &&& self.kerning_overrides@ == sort_by(
            elm.kerning_overrides@.filter(keeps_override(subset)).map_values(resolver(order)),
            key_order(),
        )
    }

    /// Builds the data of a font for a subset of its characters.
    ///
    /// Fails with `GlyphTooLarge` where a bitmap, the space included, is
    /// wider or taller than 15 pixels; else with `DuplicateIdentity` where
    /// two glyphs have one identity; else, for the ASCII subset, with
    /// `MissingGlyph` and the printable ASCII values that have no glyph; else
    /// with `UnresolvedKerningIdentity` where an override names a glyph that
    /// the font does not have.
    pub fn new(glyph_images: &GlyphImages, elm_file_data: &ElmFileData, charset: Subset) -> (r:
        Result<FontData, FontError>)
        requires
            glyph_images.code_points_and_images@.len() <= MAX_IMAGES,
            forall|i: int|
                0 <= i < glyph_images.code_points_and_images@.len() ==> (
                #[trigger] glyph_images.code_points_and_images@[i]).0.wf()
                    && glyph_images.code_points_and_images@[i].1.wf(),
        ensures
            ({
                let images = glyph_images.code_points_and_images@;
                let elm = *elm_file_data;
                let huge = oversized(images, elm.space_width, elm.line_height);
                let distinct = source_ids(images, charset).no_duplicates();
                let order = sort_by(source_ids(images, charset), ident_order());
                let missing = missing_ascii(order);
                let complete = charset == Subset::All || missing.len() == 0;
                let resolved = all_resolvable(
                    order,
                    elm.kerning_overrides@.filter(keeps_override(charset)),
                );
                match r {
                    Ok(font) => !huge && distinct && complete && resolved && font.wf()
                        && font.built_from(images, elm, charset),
                    Err(FontError::GlyphTooLarge) => huge,
                    Err(FontError::DuplicateIdentity) => !huge && !distinct,
                    Err(FontError::MissingGlyph(m)) => !huge && distinct && !complete && m@
                        == missing,
                    Err(FontError::UnresolvedKerningIdentity) => !huge && distinct && complete
                        && !resolved,
                    Err(FontError::MalformedAsset) => false,
                }
            }),
    {
        let images = glyph_images.code_points_and_images.as_slice();
        let elm = elm_file_data;
        if any_oversized(images, elm.space_width, elm.line_height) {
            return Err(FontError::GlyphTooLarge);
        }
        let source = source_glyphs(images, elm.space_width, elm.line_height, charset);
        let ghost unordered = source@;
        let sorted = match canonical_order(source) {
            Ok(sorted) => sorted,
            Err(_) => {
                return Err(FontError::DuplicateIdentity);
            },
        };
        let ghost order = ids_of(sorted@);
        proof {
            vstd::seq_lib::to_multiset_len(sorted@);
            vstd::seq_lib::to_multiset_len(unordered);
            image_ids(images@).lemma_filter_len(kept(charset));
            assert forall|k: int| 0 <= k < sorted@.len() implies member_of(
                unordered,
                #[trigger] sorted@[k],
            ) by {
                assert(sorted@.contains(sorted@[k]));
                to_multiset_contains(sorted@, sorted@[k]);
                to_multiset_contains(unordered, sorted@[k]);
            }
            assert forall|k: int| 0 <= k < sorted@.len() implies (#[trigger] sorted@[k]).id@.len()
                >= 1 by {
                lemma_sourced(images@, elm.space_width, elm.line_height, unordered, sorted@[k]);
            }
        }
        let (glyph_code_points, ligature_code_points) = split_identities(sorted.as_slice());
        assert(identities_of(glyph_code_points@, ligature_code_points@).len()
            == glyph_code_points@.len() + ligature_code_points@.len());
        let missing = missing_printable(
            glyph_code_points.as_slice(),
            ligature_code_points.as_slice(),
        );
        if matches!(charset, Subset::Ascii) && missing.len() > 0 {
            return Err(FontError::MissingGlyph(missing));
        }
        let kerning_overrides = match resolve_overrides(
            elm.kerning_overrides.as_slice(),
            charset,
            glyph_code_points.as_slice(),
            ligature_code_points.as_slice(),
        ) {
            Some(entries) => sort_by_key(entries.as_slice()),
            None => {
                return Err(FontError::UnresolvedKerningIdentity);
            },
        };
        let kerning_pairs = sort_by_key(
            kept_pairs(
                elm.kerning_pairs.as_slice(),
                charset,
                elm.left_kerning_class.as_slice(),
                elm.right_kerning_class.as_slice(),
            ).as_slice(),
        );
        let glyph_bearings = bearing_table(sorted.as_slice(), elm.bearings.as_slice());
        let widths = widths_of(sorted.as_slice());
        proof {
            assert forall|k: int| 0 <= k < widths@.len() implies #[trigger] widths@[k]
                <= MAX_GLYPH_SIZE by {
                lemma_sourced(images@, elm.space_width, elm.line_height, unordered, sorted@[k]);
            }
            assert((widths@.len() + 1) * (elm.line_height + 1) <= u32::MAX) by (nonlinear_arith)
                requires
                    widths@.len() <= 0x0800_0000 + 1,
                    elm.line_height <= 15,
            ;
        }
        let (positions, atlas_height) = pack(widths.as_slice(), elm.line_height);
        let ghost placed = sorted@;
        let glyphs = make_glyphs(
            sorted,
            positions.as_slice(),
            elm.left_kerning_class.as_slice(),
            elm.right_kerning_class.as_slice(),
        );
        let font = FontData {
            charset,
            glyph_code_points,
            ligature_code_points,
            glyphs,
            atlas_height,
            line_height: elm.line_height,
            glyph_bearings,
            default_bearings: elm.default_bearings,
            kerning_overrides,
            kerning_pairs,
        };
        proof {
            assert(font.widths() =~= widths@);
            assert forall|k: int| 0 <= k < font.glyphs@.len() implies {
                let g = #[trigger] font.glyphs@[k];
                &&& g.img.wf()
                &&& g.img.fits()
                &&& font.glyph_built(images@, *elm, k)
            } by {
                assert(order[k] == placed[k].id@);
                lemma_sourced(images@, elm.space_width, elm.line_height, unordered, placed[k]);
                assert(source_ids(images@, charset).contains(order[k])) by {
                    assert(ids_of(unordered)[index_in(unordered, placed[k])] == placed[k].id@);
                }
                lemma_source_bitmap(
                    images@,
                    charset,
                    elm.space_width,
                    elm.line_height,
                    placed[k],
                );
            }
        }
        Ok(font)
    }
}

/// Whether `g` is one of `glyphs`.
spec fn member_of(glyphs: Seq<SourceGlyph>, g: SourceGlyph) -> bool {
    glyphs.contains(g)
}

/// A place at which `g` stands in `glyphs`.
spec fn index_in(glyphs: Seq<SourceGlyph>, g: SourceGlyph) -> int {
    choose|i: int| 0 <= i < glyphs.len() && glyphs[i] == g
}

/// Whether a glyph is as the sources make it: it has the identity and the
/// bitmap of an image, or is the blank space.
spec fn sourced(
    images: Seq<(CodePoint, GlyphBitmap)>,
    space_width: u32,
    line_height: u32,
    g: SourceGlyph,
) -> bool {
    from_images(images, g) || (g.id@ == space_id() && g.bitmap.width == space_width
        && g.bitmap.height == line_height && g.bitmap.luma@ == Seq::new(
        (space_width * line_height) as nat,
        |i: int| BACKGROUND_LUMA,
    ))
}

/// Each of the source glyphs is as the sources make it, has an identity
/// that is not empty, and a bitmap that fits a glyph record.
proof fn lemma_sourced(
    images: Seq<(CodePoint, GlyphBitmap)>,
    space_width: u32,
    line_height: u32,
    source: Seq<SourceGlyph>,
    g: SourceGlyph,
)
    requires
        !oversized(images, space_width, line_height),
        forall|i: int| 0 <= i < images.len() ==> (#[trigger] images[i]).0.wf() && images[i].1.wf(),
        source.len() > 0,
        forall|k: int| 0 <= k < source.len() - 1 ==> from_images(images, #[trigger] source[k]),
        sourced(images, space_width, line_height, source.last()),
        member_of(source, g),
    ensures
        sourced(images, space_width, line_height, g),
        g.id@.len() >= 1,
        g.bitmap.wf(),
        g.bitmap.fits(),
{
    let k = index_in(source, g);
    if k < source.len() - 1 {
        assert(from_images(images, source[k]));
    }
    if from_images(images, g) {
        let i = choose|i: int| 0 <= i < images.len() && is_image(#[trigger] images[i], g);
        assert(images[i].0.wf());
        assert(images[i].1.fits());
    } else {
        assert(space_width * line_height == (space_width * line_height) as nat);
    }
}

/// Of two entries of a sequence that are one value, and that `pred` takes,
/// `filter` keeps both.
proof fn lemma_filter_keeps_twins<A>(s: Seq<A>, pred: spec_fn(A) -> bool, i: int, j: int)
    requires
        0 <= i < j < s.len(),
        s[i] == s[j],
        pred(s[i]),
    ensures
        !s.filter(pred).no_duplicates(),
    decreases s.len(),
{
    let init = s.drop_last();
    init.lemma_filter_push(s.last(), pred);
    assert(init.push(s.last()) =~= s);
    let kept_init = init.filter(pred);
    if j == s.len() - 1 {
        init.lemma_filter_contains(pred, i);
        let p = choose|p: int| 0 <= p < kept_init.len() && kept_init[p] == init[i];
        let all = s.filter(pred);
        assert(all[p] == all[all.len() - 1]);
    } else {
        lemma_filter_keeps_twins(init, pred, i, j);
        let (p, q) = choose|p: int, q: int|
            0 <= p < kept_init.len() && 0 <= q < kept_init.len() && p != q && kept_init[p]
                == kept_init[q];
        let all = s.filter(pred);
        assert(all[p] == all[q]);
    }
}

/// Where the source identities are distinct, a source glyph has the bitmap
/// that `source_bitmap` gives for its identity.
proof fn lemma_source_bitmap(
    images: Seq<(CodePoint, GlyphBitmap)>,
    subset: Subset,
    space_width: u32,
    line_height: u32,
    g: SourceGlyph,
)
    requires
        source_ids(images, subset).no_duplicates(),
        source_ids(images, subset).contains(g.id@),
        sourced(images, space_width, line_height, g),
    ensures
        (g.bitmap.width, g.bitmap.height, g.bitmap.luma@) == source_bitmap(
            images,
            space_width,
            line_height,
            g.id@,
        ),
{
    let ids = image_ids(images);
    let taken = ids.filter(kept(subset));
    let all = source_ids(images, subset);
    let hit = has_id(g.id@);
    lemma_first_hit_is_first(images, hit);
    // An image with the identity of `g` has its identity among the taken ones.
    assert forall|i: int| 0 <= i < images.len() && hit(images[i]) implies taken.contains(g.id@)
        && g.id@ != space_id() by {
        assert(ids[i] == g.id@);
        if keeps(subset, g.id@) {
            ids.lemma_filter_contains(kept(subset), i);
            let p = choose|p: int| 0 <= p < taken.len() && taken[p] == g.id@;
            assert(all[p] == g.id@);
            if g.id@ == space_id() {
                assert(all[all.len() - 1] == space_id());
            }
        } else {
            // the identity is among the source identities, so it is the space, which is taken
            let p = choose|p: int| 0 <= p < all.len() && all[p] == g.id@;
            if p < taken.len() {
                assert(all[p] == taken[p]);
                ids.lemma_filter_pred(kept(subset), p);
            } else {
                assert(g.id@ == space_id());
                assert(space_id()[0] == ' ');
                assert(crate::text::all_ascii(space_id()));
            }
        }
    }
    match first_hit(images, hit) {
        Some(first) => {
            assert(from_images(images, g));
            let i = choose|i: int| 0 <= i < images.len() && is_image(#[trigger] images[i], g);
            assert(hit(images[i]));
            if first != i {
                assert(ids[first] == ids[i]);
                assert(keeps(subset, ids[first])) by {
                    let p = choose|p: int| 0 <= p < taken.len() && taken[p] == g.id@;
                    ids.lemma_filter_pred(kept(subset), p);
                }
                lemma_filter_keeps_twins(ids, kept(subset), first, i);
                let (p, q) = choose|p: int, q: int|
                    0 <= p < taken.len() && 0 <= q < taken.len() && p != q && taken[p] == taken[q];
                assert(all[p] == all[q]);
            }
        },
        None => {
            if from_images(images, g) {
                let i = choose|i: int| 0 <= i < images.len() && is_image(#[trigger] images[i], g);
                assert(hit(images[i]));
            }
        },
    }
}

} // verus!
