//! What holds of a font across its parts: of the order of its glyphs, of
//! their places in the atlas, of the encoded tables and what reads them, and
//! of the spacing between glyphs.

use crate::atlas::{
    atlas_height, lemma_no_overlap, lemma_placement_in_atlas, rects_overlap,
    ATLAS_WIDTH,
};
use crate::code_point::{
    ident_lt, ident_order, lemma_ident_asymmetric, lemma_ident_order_asymmetric,
    lemma_ident_total, lemma_ident_transitive,
};
use crate::codepoint_index::{index_count, lookup, RANGE_MARKER};
use crate::encode::{
    encoded_index, encoded_ligatures, lemma_encoded_index_count, lemma_encoded_index_finds,
    lemma_encoded_index_misses, lemma_ligatures_round_trip, ligature_views, LIGATURE_MARKER,
};
use crate::code_point::CodePoint;
use crate::elm_file_data::ElmFileData;
use crate::font::Font;
use crate::font_asset::{lemma_records_len, lemma_records_of, record_of, records_of, substitute_of};
use crate::font_data::{
    absent, bearing_rows, has_single, missing_ascii, printable_ascii, resolver, FontData, Glyph,
};
use crate::keyed::{keys_ascend, lemma_sorted_keys_ascend, Keyed};
use crate::metrics::{keeps_override, keeps_pair};
use crate::glyph_images::GlyphBitmap;
use crate::glyph_index::GlyphIndex;
use crate::glyph_record::{lemma_record_round_trip, GlyphRecord, RECORD_SIZE};
use crate::glyph_set::{lemma_strictly_ordered_distinct, strictly_ordered};
use crate::ligature_substitution::first_ligature;
use crate::sorting::{
    insert_by, lemma_insert_permutes, lemma_sort_idempotent, lemma_sort_permutes, sort_by,
};
use crate::source::{source_ids, Subset};
use crate::table::{first_hit, key_le, lemma_first_hit_is_first};
use crate::tokens::{begins, tokens_of};
use vstd::prelude::*;
use vstd::seq_lib::{to_multiset_contains, to_multiset_len, to_multiset_remove};

verus! {

/// Putting glyphs in canonical order a second time changes nothing.
pub proof fn lemma_canonical_order_idempotent(ids: Seq<Seq<char>>)
    ensures
        sort_by(sort_by(ids, ident_order()), ident_order()) == sort_by(ids, ident_order()),
{
    lemma_ident_order_asymmetric();
    lemma_sort_idempotent(ids, ident_order());
}

/// An identity that is put into a sequence in canonical order, and is not
/// in it yet, leaves the sequence in canonical order.
proof fn lemma_insert_strict(s: Seq<Seq<char>>, e: Seq<char>)
    requires
        strictly_ordered(s),
        !s.contains(e),
    ensures
        strictly_ordered(insert_by(s, e, ident_order())),
    decreases s.len(),
{
    let r = insert_by(s, e, ident_order());
    if s.len() == 0 || !ident_lt(e, s.last()) {
        assert forall|i: int, j: int| #![trigger r[i], r[j]] 0 <= i < j < r.len() implies ident_lt(
            r[i],
            r[j],
        ) by {
            if j < s.len() {
                assert(ident_lt(s[i], s[j]));
            } else {
                assert(s.contains(s.last()));
                assert(s.contains(s[i]));
                lemma_ident_total(e, s.last());
                if i < s.len() - 1 {
                    assert(ident_lt(s[i], s[s.len() - 1]));
                    lemma_ident_transitive(s[i], s.last(), e);
                }
            }
        }
    } else {
        let init = s.drop_last();
        assert forall|i: int, j: int|
            #![trigger init[i], init[j]]
            0 <= i < j < init.len() implies ident_lt(init[i], init[j]) by {
            assert(ident_lt(s[i], s[j]));
        }
        assert(!init.contains(e)) by {
            if init.contains(e) {
                let i = choose|i: int| 0 <= i < init.len() && init[i] == e;
                assert(s[i] == e);
            }
        }
        lemma_insert_strict(init, e);
        let q = insert_by(init, e, ident_order());
        lemma_insert_permutes(init, e, ident_order());
        assert forall|i: int, j: int| #![trigger r[i], r[j]] 0 <= i < j < r.len() implies ident_lt(
            r[i],
            r[j],
        ) by {
            if j < q.len() {
                assert(ident_lt(q[i], q[j]));
            } else {
                // r[j] is the last of s; r[i] is e or one of init
                assert(q.contains(q[i]));
                to_multiset_contains(q, q[i]);
                to_multiset_contains(init, q[i]);
                if q[i] != e {
                    let p = choose|p: int| 0 <= p < init.len() && init[p] == q[i];
                    assert(ident_lt(s[p], s[s.len() - 1]));
                }
            }
        }
    }
}

/// Identities of which none occurs twice are, in canonical order, each
/// before all that follow.
pub proof fn lemma_canonical_order_strict(ids: Seq<Seq<char>>)
    requires
        ids.no_duplicates(),
    ensures
        strictly_ordered(sort_by(ids, ident_order())),
    decreases ids.len(),
{
    if ids.len() > 0 {
        let init = ids.drop_last();
        lemma_canonical_order_strict(init);
        let sorted = sort_by(init, ident_order());
        lemma_sort_permutes(init, ident_order());
        assert(!sorted.contains(ids.last())) by {
            if sorted.contains(ids.last()) {
                to_multiset_contains(sorted, ids.last());
                to_multiset_contains(init, ids.last());
                let p = choose|p: int| 0 <= p < init.len() && init[p] == ids.last();
                assert(ids[p] == ids[ids.len() - 1]);
            }
        }
        lemma_insert_strict(sorted, ids.last());
    }
}

/// Two sequences in canonical order that hold the same identities are the same.
pub proof fn lemma_strict_order_unique(a: Seq<Seq<char>>, b: Seq<Seq<char>>)
    requires
        strictly_ordered(a),
        strictly_ordered(b),
        a.to_multiset() == b.to_multiset(),
    ensures
        a == b,
    decreases a.len(),
{
    to_multiset_len(a);
    to_multiset_len(b);
    if a.len() == 0 {
        assert(a =~= b);
    } else {
        let n = a.len() - 1;
        assert(a.contains(a[n]));
        assert(b.contains(b[n]));
        to_multiset_contains(a, a[n]);
        to_multiset_contains(b, a[n]);
        to_multiset_contains(a, b[n]);
        to_multiset_contains(b, b[n]);
        let q = choose|q: int| 0 <= q < b.len() && b[q] == a[n];
        let p = choose|p: int| 0 <= p < a.len() && a[p] == b[n];
        if q < n && p < n {
            assert(ident_lt(b[q], b[n]));
            assert(ident_lt(a[p], a[n]));
            lemma_ident_asymmetric(b[q], b[n]);
        }
        if q < n && p == n {
            assert(ident_lt(b[q], b[n]));
            lemma_ident_asymmetric(b[q], b[n]);
        }
        if p < n && q == n {
            assert(ident_lt(a[p], a[n]));
            lemma_ident_asymmetric(a[p], a[n]);
        }
        assert(a[n] == b[n]);
        to_multiset_remove(a, n);
        to_multiset_remove(b, n);
        assert(a.remove(n) =~= a.drop_last());
        assert(b.remove(n) =~= b.drop_last());
        assert forall|i: int, j: int|
            #![trigger a.drop_last()[i], a.drop_last()[j]]
            0 <= i < j < a.drop_last().len() implies ident_lt(a.drop_last()[i], a.drop_last()[j]) by {
            assert(ident_lt(a[i], a[j]));
        }
        assert forall|i: int, j: int|
            #![trigger b.drop_last()[i], b.drop_last()[j]]
            0 <= i < j < b.drop_last().len() implies ident_lt(b.drop_last()[i], b.drop_last()[j]) by {
            assert(ident_lt(b[i], b[j]));
        }
        lemma_strict_order_unique(a.drop_last(), b.drop_last());
        assert(a =~= a.drop_last().push(a[n]));
        assert(b =~= b.drop_last().push(b[n]));
    }
}

/// The canonical order of a set of identities does not depend on the order
/// in which they are given.
pub proof fn lemma_canonical_order_deterministic(a: Seq<Seq<char>>, b: Seq<Seq<char>>)
    requires
        a.no_duplicates(),
        a.to_multiset() == b.to_multiset(),
    ensures
        sort_by(a, ident_order()) == sort_by(b, ident_order()),
{
    a.lemma_multiset_has_no_duplicates();
    b.lemma_multiset_has_no_duplicates_conv();
    lemma_canonical_order_strict(a);
    lemma_canonical_order_strict(b);
    lemma_sort_permutes(a, ident_order());
    lemma_sort_permutes(b, ident_order());
    lemma_strict_order_unique(sort_by(a, ident_order()), sort_by(b, ident_order()));
}

/// In canonical order no ligature stands before a longer one.
pub proof fn lemma_longer_ligatures_first(ids: Seq<Seq<char>>, i: int, j: int)
    requires
        strictly_ordered(ids),
        0 <= i < j < ids.len(),
        ids[i].len() >= 2,
    ensures
        ids[j].len() >= 2,
        ids[i].len() >= ids[j].len(),
{
    assert(ident_lt(ids[i], ids[j]));
}

/// The glyphs of a font that was built from sources with distinct
/// identities stand in canonical order, and no single scalar occurs twice
/// among them.
pub proof fn lemma_built_order(
    font: FontData,
    images: Seq<(CodePoint, GlyphBitmap)>,
    elm: ElmFileData,
    subset: Subset,
)
    requires
        font.built_from(images, elm, subset),
        source_ids(images, subset).no_duplicates(),
    ensures
        strictly_ordered(font.identities()),
        font.glyph_code_points@.no_duplicates(),
{
    lemma_canonical_order_strict(source_ids(images, subset));
    lemma_strictly_ordered_distinct(font.identities());
    let singles = font.glyph_code_points@;
    assert forall|i: int, j: int| 0 <= i < singles.len() && 0 <= j < singles.len() && i
        != j implies singles[i] != singles[j] by {
        assert(font.identities()[i] == seq![singles[i]]);
        assert(font.identities()[j] == seq![singles[j]]);
        if singles[i] == singles[j] {
            assert(font.identities()[i] == font.identities()[j]);
        }
    }
}

/// In a font that was built from sources with distinct identities, and
/// without a glyph for the marker, the encoded index gives each single
/// scalar the glyph index at which it stands.
pub proof fn lemma_built_index(
    font: FontData,
    images: Seq<(CodePoint, GlyphBitmap)>,
    elm: ElmFileData,
    subset: Subset,
    k: int,
)
    requires
        font.built_from(images, elm, subset),
        source_ids(images, subset).no_duplicates(),
        !font.glyph_code_points@.contains(RANGE_MARKER),
        0 <= k < font.glyph_code_points@.len(),
    ensures
        lookup(encoded_index(font.glyph_code_points@), 0, font.glyph_code_points@[k]) == Some(k),
{
    lemma_built_order(font, images, elm, subset);
    lemma_index_round_trip(font.glyph_code_points@, font.glyph_code_points@[k]);
}

/// In a font that was built from sources with distinct identities, no
/// ligature stands before a longer one, so that the first ligature that a
/// text starts with is the longest.
pub proof fn lemma_built_ligatures(
    font: FontData,
    images: Seq<(CodePoint, GlyphBitmap)>,
    elm: ElmFileData,
    subset: Subset,
    i: int,
    j: int,
)
    requires
        font.built_from(images, elm, subset),
        font.wf(),
        source_ids(images, subset).no_duplicates(),
        0 <= i < j < font.ligature_code_points@.len(),
    ensures
        font.ligature_code_points@[i]@.len() >= font.ligature_code_points@[j]@.len(),
{
    lemma_built_order(font, images, elm, subset);
    let n = font.glyph_code_points@.len() as int;
    assert(font.identities()[n + i] == font.ligature_code_points@[i]@);
    assert(font.identities()[n + j] == font.ligature_code_points@[j]@);
    lemma_longer_ligatures_first(font.identities(), n + i, n + j);
}

/// Where none of the printable ASCII values is missing, each of them has a glyph.
pub proof fn lemma_complete_subset(order: Seq<Seq<char>>, c: u32)
    requires
        missing_ascii(order).len() == 0,
        0x20 <= c <= 0x7e,
    ensures
        has_single(order, c),
{
    let printable = printable_ascii();
    assert(printable[c - 0x20] == c);
    if !has_single(order, c) {
        printable.lemma_filter_contains(absent(order), c - 0x20);
        let found = printable.filter(absent(order));
        let i = choose|i: int| 0 <= i < found.len() && found[i] == c;
    }
}

/// A glyph of a font lies within the width of the atlas.
pub proof fn lemma_glyph_in_atlas(font: FontData, k: int)
    requires
        font.wf(),
        0 <= k < font.glyphs@.len(),
    ensures
        font.glyphs@[k].left + font.glyphs@[k].img.width <= ATLAS_WIDTH,
{
    assert(font.widths()[k] == font.glyphs@[k].img.width);
    lemma_placement_in_atlas(font.widths(), font.line_height as int, k);
}

/// The pixel rectangle of a glyph in the atlas, `(left, top, width, height)`.
pub open spec fn glyph_rect(g: Glyph) -> (int, int, int, int) {
    (g.left as int, g.top as int, g.img.width as int, g.img.height as int)
}

/// Two glyphs of a font, neither taller than a line, do not overlap in the atlas.
pub proof fn lemma_glyphs_apart(font: FontData, i: int, j: int)
    requires
        font.wf(),
        0 <= i < font.glyphs@.len(),
        0 <= j < font.glyphs@.len(),
        i != j,
        font.glyphs@[i].img.height <= font.line_height,
        font.glyphs@[j].img.height <= font.line_height,
    ensures
        !rects_overlap(glyph_rect(font.glyphs@[i]), glyph_rect(font.glyphs@[j])),
{
    assert(font.widths()[i] == font.glyphs@[i].img.width);
    assert(font.widths()[j] == font.glyphs@[j].img.width);
    assert(font.heights()[i] == font.glyphs@[i].img.height);
    assert(font.heights()[j] == font.glyphs@[j].img.height);
    lemma_no_overlap(font.widths(), font.heights(), font.line_height as int, i, j);
}

/// The atlas of a font is as high as the top of its last row and one line.
pub proof fn lemma_atlas_height(font: FontData)
    requires
        font.wf(),
        font.glyphs@.len() > 0,
    ensures
        font.atlas_height == font.glyphs@.last().top + font.line_height,
{
    assert(font.widths().len() == font.glyphs@.len());
}

/// The index that is encoded from the single scalars of a font gives each
/// of them the glyph index at which it stands, and no other scalar value a
/// glyph, provided that none of them occurs twice and none is the marker.
pub proof fn lemma_index_round_trip(singles: Seq<char>, c: char)
    requires
        singles.no_duplicates(),
        !singles.contains(RANGE_MARKER),
    ensures
        index_count(encoded_index(singles)) == singles.len(),
        forall|k: int|
            0 <= k < singles.len() ==> lookup(encoded_index(singles), 0, #[trigger] singles[k])
                == Some(k),
        !singles.contains(c) ==> lookup(encoded_index(singles), 0, c) is None,
{
    lemma_encoded_index_count(singles);
    assert forall|k: int| 0 <= k < singles.len() implies lookup(
        encoded_index(singles),
        0,
        #[trigger] singles[k],
    ) == Some(k) by {
        lemma_encoded_index_finds(singles, 0, k);
    }
    if !singles.contains(c) {
        lemma_encoded_index_misses(singles, 0, c);
    }
}

/// Where the ligatures of a list stand with the longer ones first, the
/// ligature that a text is given is the longest that it starts with.
pub proof fn lemma_longest_ligature_wins(tokens: Seq<Seq<char>>, offset: int, text: Seq<char>, j: int)
    requires
        forall|a: int, b: int|
            #![trigger tokens[a], tokens[b]]
            0 <= a < b < tokens.len() ==> tokens[a].len() >= tokens[b].len(),
        0 <= j < tokens.len(),
        tokens[j].is_prefix_of(text),
    ensures
        first_ligature(tokens, offset, text) matches Some((index, length)) && length
            >= tokens[j].len() && offset <= index <= offset + j,
{
    lemma_first_hit_is_first(tokens, begins(text));
    let hit = begins(text);
    assert(hit(tokens[j]));
    let first = first_hit(tokens, hit).unwrap();
    if first < j {
        assert(tokens[first].len() >= tokens[j].len());
    }
}

/// The list that is encoded from the ligatures of a font is read as those
/// ligatures, in their order, provided that none of them holds the separator.
pub proof fn lemma_ligature_list_round_trip(ligatures: Seq<Seq<char>>)
    requires
        forall|k: int|
            0 <= k < ligatures.len() ==> (#[trigger] ligatures[k]).len() > 0
                && !ligatures[k].contains(LIGATURE_MARKER),
    ensures
        tokens_of(encoded_ligatures(ligatures), LIGATURE_MARKER) == ligatures,
{
    lemma_ligatures_round_trip(ligatures);
}

/// The record of a glyph that fits one holds the glyph's place, size and
/// kerning classes.
pub proof fn lemma_record_holds_glyph(g: Glyph)
    requires
        g.img.fits(),
        g.left <= 255,
        g.top <= 255,
    ensures
        ({
            let r = GlyphRecord::from_bytes(record_of(g).bytes());
            &&& r.left == g.left
            &&& r.top == g.top
            &&& r.width == g.img.width
            &&& r.height == g.img.height
            &&& r.left_kerning_class == g.left_kerning_class
            &&& r.right_kerning_class == g.right_kerning_class
        }),
{
    let record = record_of(g);
    assert(record.wf());
    lemma_record_round_trip(record);
}

/// The record that is written for a glyph is read as that glyph's place,
/// size and kerning classes, where the glyph stands no further down in the
/// atlas than row 255.
pub proof fn lemma_glyph_record_round_trip(font: FontData, k: int)
    requires
        font.wf(),
        0 <= k < font.glyphs@.len(),
        font.glyphs@[k].top <= 255,
    ensures
        ({
            let data = records_of(font.glyphs@);
            let r = GlyphRecord::from_bytes(data.subrange(k * RECORD_SIZE, (k + 1) * RECORD_SIZE));
            let g = font.glyphs@[k];
            &&& data.len() == RECORD_SIZE * font.glyphs@.len()
            &&& r.left == g.left
            &&& r.top == g.top
            &&& r.width == g.img.width
            &&& r.height == g.img.height
            &&& r.left_kerning_class == g.left_kerning_class
            &&& r.right_kerning_class == g.right_kerning_class
        }),
{
    let g = font.glyphs@[k];
    assert(g.img.fits());
    assert(g.left <= 255) by {
        lemma_glyph_in_atlas(font, k);
    }
    assert(records_of(font.glyphs@).len() == RECORD_SIZE * font.glyphs@.len() && records_of(
        font.glyphs@,
    ).subrange(k * RECORD_SIZE, (k + 1) * RECORD_SIZE) == record_of(g).bytes()) by {
        lemma_records_of(font.glyphs@, k);
    }
    lemma_record_holds_glyph(g);
}

/// The side-bearing rows of glyphs stand by ascending glyph index, and
/// every index is that of one of the glyphs.
pub proof fn lemma_bearing_rows_ascend(order: Seq<Seq<char>>, table: Seq<(String, (i8, i8))>)
    requires
        order.len() <= u32::MAX,
    ensures
        forall|i: int, j: int|
            #![trigger bearing_rows(order, table)[i], bearing_rows(order, table)[j]]
            0 <= i < j < bearing_rows(order, table).len() ==> bearing_rows(order, table)[i].0
                < bearing_rows(order, table)[j].0,
        forall|i: int|
            0 <= i < bearing_rows(order, table).len() ==> (#[trigger] bearing_rows(
                order,
                table,
            )[i]).0 < order.len(),
    decreases order.len(),
{
    if order.len() > 0 {
        lemma_bearing_rows_ascend(order.drop_last(), table);
        let rest = bearing_rows(order.drop_last(), table);
        let rows = bearing_rows(order, table);
        assert forall|i: int, j: int| #![trigger rows[i], rows[j]] 0 <= i < j < rows.len() implies rows[i].0
            < rows[j].0 by {
            if j < rest.len() {
                assert(rows[i] == rest[i] && rows[j] == rest[j]);
            } else {
                assert(rows[i] == rest[i]);
                assert(rest[i].0 < order.drop_last().len());
            }
        }
        assert forall|i: int| 0 <= i < rows.len() implies (#[trigger] rows[i]).0 < order.len() by {
            if i < rest.len() {
                assert(rows[i] == rest[i]);
                assert(rest[i].0 < order.drop_last().len());
            }
        }
    }
}

/// The kerning tables of a font that was built ascend by key, as the
/// search at run time needs them.
pub proof fn lemma_built_tables_sorted(
    font: FontData,
    images: Seq<(CodePoint, GlyphBitmap)>,
    elm: ElmFileData,
    subset: Subset,
)
    requires
        font.built_from(images, elm, subset),
    ensures
        keys_ascend(font.kerning_pairs@),
        keys_ascend(font.kerning_overrides@),
{
    lemma_sorted_keys_ascend(
        elm.kerning_pairs@.filter(
            keeps_pair(subset, elm.left_kerning_class@, elm.right_kerning_class@),
        ),
    );
    lemma_sorted_keys_ascend(
        elm.kerning_overrides@.filter(keeps_override(subset)).map_values(
            resolver(font.identities()),
        ),
    );
}

/// The tables of a font with their adjustments as the run time holds them,
/// in 32 bits.
pub open spec fn runtime_bearings(rows: Seq<(u32, i8, i8)>) -> Seq<(u32, i32, i32)> {
    rows.map_values(|r: (u32, i8, i8)| (r.0, r.1 as i32, r.2 as i32))
}

/// The class pairs with their adjustments in 32 bits.
pub open spec fn runtime_pairs(rows: Seq<(u8, u8, i8)>) -> Seq<(u8, u8, i32)> {
    rows.map_values(|r: (u8, u8, i8)| (r.0, r.1, r.2 as i32))
}

/// The overrides with glyph indices as `usize` and adjustments in 32 bits.
pub open spec fn runtime_overrides(rows: Seq<(u32, u32, i8)>) -> Seq<(usize, usize, i32)> {
    rows.map_values(|r: (u32, u32, i8)| (r.0 as usize, r.1 as usize, r.2 as i32))
}

/// The side bearings of a font that was built ascend by glyph index, as the
/// search at run time needs them.
pub proof fn lemma_built_bearings_sorted(
    font: FontData,
    images: Seq<(CodePoint, GlyphBitmap)>,
    elm: ElmFileData,
    subset: Subset,
)
    requires
        font.built_from(images, elm, subset),
        font.identities().len() <= u32::MAX,
    ensures
        keys_ascend(runtime_bearings(font.glyph_bearings@)),
{
    lemma_bearing_rows_ascend(font.identities(), elm.bearings@);
    let rows = font.glyph_bearings@;
    let fast = runtime_bearings(rows);
    assert forall|i: int, j: int| #![trigger fast[i], fast[j]] 0 <= i <= j < fast.len() implies key_le(
        fast[i].key().0,
        fast[i].key().1,
        fast[j].key().0,
        fast[j].key().1,
    ) by {
        if i < j {
            assert(rows[i].0 < rows[j].0);
        }
    }
}

/// The parts that are encoded from the data of a font fit together as a
/// font asset: what is built can be loaded.
///
/// This holds of a font whose glyphs stand in canonical order and no further
/// down in the atlas than row 255, and that has no glyph for the scalar
/// value zero, which marks ranges and separates ligatures.
pub proof fn lemma_built_asset_fits(data: FontData, font: Font)
    requires
        data.wf(),
        data.drawable(),
        data.glyphs@.len() > 0,
        data.line_height >= 1,
        data.recordable(),
        strictly_ordered(data.identities()),
        !data.glyph_code_points@.contains(RANGE_MARKER),
        forall|j: int|
            0 <= j < data.ligature_code_points@.len() ==> !(
            #[trigger] data.ligature_code_points@[j])@.contains(LIGATURE_MARKER),
        keys_ascend(data.kerning_pairs@),
        keys_ascend(data.kerning_overrides@),
        keys_ascend(runtime_bearings(data.glyph_bearings@)),
        font.atlas@.len() == 16 * data.atlas_height,
        font.glyph_data@ == records_of(data.glyphs@),
        font.glyph_mapping.tokens() == encoded_index(data.glyph_code_points@),
        font.glyph_mapping.substitute_index() == substitute_of(data.glyph_code_points@),
        font.ligatures.data() == encoded_ligatures(ligature_views(data.ligature_code_points@)),
        font.ligatures.offset() == data.glyph_code_points@.len(),
        font.side_bearings.bearings() == runtime_bearings(data.glyph_bearings@),
        font.kerning.pairs() == runtime_pairs(data.kerning_pairs@),
        font.kerning.overrides() == runtime_overrides(data.kerning_overrides@),
        font.line_height == data.line_height,
        font.baseline <= i32::MAX,
    ensures
        font.wf(),
        font.count() == data.glyphs@.len(),
        forall|k: int|
            0 <= k < data.glyph_code_points@.len() ==> font.spec_glyph_index(
                #[trigger] data.glyph_code_points@[k],
            ) == GlyphIndex(k as usize),
        font.ligatures.tokens() == ligature_views(data.ligature_code_points@),
{
    let glyphs = data.glyphs@;
    let singles = data.glyph_code_points@;
    let ligatures = ligature_views(data.ligature_code_points@);
    lemma_records_len(glyphs);
    assert(font.count() == glyphs.len());
    assert forall|k: int| 0 <= k < font.count() implies font.in_atlas(k) by {
        assert(glyphs[k].top + glyphs[k].img.height <= data.atlas_height);
        lemma_glyph_record_round_trip(data, k);
    }
    lemma_strictly_ordered_distinct(data.identities());
    assert forall|i: int, j: int| 0 <= i < singles.len() && 0 <= j < singles.len() && i
        != j implies singles[i] != singles[j] by {
        assert(data.identities()[i] == seq![singles[i]]);
        assert(data.identities()[j] == seq![singles[j]]);
        if singles[i] == singles[j] {
            assert(data.identities()[i] == data.identities()[j]);
        }
    }
    lemma_index_round_trip(singles, RANGE_MARKER);
    lemma_substitute_within(singles);
    assert forall|k: int| 0 <= k < ligatures.len() implies (#[trigger] ligatures[k]).len() > 0
        && !ligatures[k].contains(LIGATURE_MARKER) by {
        assert(ligatures[k] == data.ligature_code_points@[k]@);
    }
    lemma_ligatures_round_trip(ligatures);
    let pairs = data.kerning_pairs@;
    let fast_pairs = runtime_pairs(pairs);
    assert forall|i: int, j: int|
        #![trigger fast_pairs[i], fast_pairs[j]]
        0 <= i <= j < fast_pairs.len() implies key_le(
        fast_pairs[i].key().0,
        fast_pairs[i].key().1,
        fast_pairs[j].key().0,
        fast_pairs[j].key().1,
    ) by {
        assert(key_le(pairs[i].key().0, pairs[i].key().1, pairs[j].key().0, pairs[j].key().1));
    }
    let overrides = data.kerning_overrides@;
    let fast_overrides = runtime_overrides(overrides);
    assert forall|i: int, j: int|
        #![trigger fast_overrides[i], fast_overrides[j]]
        0 <= i <= j < fast_overrides.len() implies key_le(
        fast_overrides[i].key().0,
        fast_overrides[i].key().1,
        fast_overrides[j].key().0,
        fast_overrides[j].key().1,
    ) by {
        assert(key_le(
            overrides[i].key().0,
            overrides[i].key().1,
            overrides[j].key().0,
            overrides[j].key().1,
        ));
    }
}

/// The index of the substitute is that of a glyph, or 0.
pub proof fn lemma_substitute_within(singles: Seq<char>)
    ensures
        0 <= substitute_of(singles),
        singles.len() > 0 ==> substitute_of(singles) < singles.len(),
    decreases singles.len(),
{
    if singles.len() > 0 && singles.last() != crate::font_asset::SUBSTITUTE {
        lemma_substitute_within(singles.drop_last());
    }
}

/// Where there is an override for a pair of glyphs, the spacing between
/// them takes the override and not the adjustment for their classes. This
/// holds of every font and every pair of glyphs, whatever the spacing
/// comes to.
pub proof fn lemma_override_precedes(font: Font, prev: GlyphIndex, next: GlyphIndex, v: i32)
    requires
        font.kerning.spec_override(prev.0, next.0) == Some(v),
    ensures
        font.spec_kerning(prev.0, next.0) == Some(v),
        font.spec_spacing(Some(prev), next) == font.side_bearings.spec_right(prev.0) + v
            + font.side_bearings.spec_left(next.0),
{
}

/// Where there is an override for a pair of glyphs, the adjustments for
/// kerning classes do not enter the spacing between them: two fonts with
/// the same side bearings and the same overrides space the pair alike,
/// whatever their tables of class pairs and the classes of their glyphs.
pub proof fn lemma_class_pairs_ignored(font: Font, other: Font, prev: GlyphIndex, next: GlyphIndex)
    requires
        font.kerning.spec_override(prev.0, next.0) is Some,
        other.kerning.overrides() == font.kerning.overrides(),
        other.side_bearings.bearings() == font.side_bearings.bearings(),
        other.side_bearings.default_bearings() == font.side_bearings.default_bearings(),
    ensures
        other.spec_spacing(Some(prev), next) == font.spec_spacing(Some(prev), next),
{
}

} // verus!
