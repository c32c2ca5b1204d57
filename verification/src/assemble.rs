//! The steps that turn ordered source glyphs into the tables of a font.

use crate::code_point::ident_lt;
use crate::font_data::{
    absent, all_resolvable, bearing_rows, has_single, identities_of, index_of, is_id,
    missing_ascii, printable_ascii, resolvable, resolve, resolver, Glyph,
};
use crate::glyph_set::{ids_of, strictly_ordered, SourceGlyph};
use crate::metrics::{
    class_of, keeps_override, lookup_bearing, lookup_class, takes_override,
};
use crate::source::Subset;
use crate::table::{lemma_first_hit_at, lemma_first_hit_none};
use crate::text::{chars_of, same_chars};
use vstd::prelude::*;
use vstd::slice::slice_to_vec;

verus! {

/// The single scalars and the ligatures of glyphs in canonical order.
pub fn split_identities(sorted: &[SourceGlyph]) -> (r: (Vec<char>, Vec<Vec<char>>))
    requires
        strictly_ordered(ids_of(sorted@)),
        forall|k: int| 0 <= k < sorted@.len() ==> (#[trigger] sorted@[k]).id@.len() >= 1,
    ensures
        identities_of(r.0@, r.1@) == ids_of(sorted@),
        forall|j: int| 0 <= j < r.1@.len() ==> (#[trigger] r.1@[j])@.len() >= 2,
{
    let ghost ids = ids_of(sorted@);
    let mut singles: Vec<char> = Vec::new();
    let mut ligatures: Vec<Vec<char>> = Vec::new();
    let mut k: usize = 0;
    assert(identities_of(singles@, ligatures@) =~= ids.take(0));
    while k < sorted.len()
        invariant
            k <= sorted@.len(),
            ids == ids_of(sorted@),
            strictly_ordered(ids),
            forall|i: int| 0 <= i < sorted@.len() ==> (#[trigger] sorted@[i]).id@.len() >= 1,
            identities_of(singles@, ligatures@) == ids.take(k as int),
            ligatures@.len() > 0 ==> exists|j: int| 0 <= j < k && (#[trigger] ids[j]).len() >= 2,
            forall|j: int| 0 <= j < ligatures@.len() ==> (#[trigger] ligatures@[j])@.len() >= 2,
        decreases sorted@.len() - k,
    {
        let id = &sorted[k].id;
        let ghost before = identities_of(singles@, ligatures@);
        assert(ids[k as int] == id@);
        assert(ids.take(k + 1) =~= ids.take(k as int).push(id@));
        if id.len() == 1 {
            proof {
                if ligatures@.len() > 0 {
                    let j = choose|j: int| 0 <= j < k && (#[trigger] ids[j]).len() >= 2;
                    assert(ident_lt(ids[j], ids[k as int]));
                }
                assert(id@ =~= seq![id@[0]]);
            }
            singles.push(id[0]);
            assert(identities_of(singles@, ligatures@) =~= before.push(id@));
        } else {
            let copy = slice_to_vec(id.as_slice());
            ligatures.push(copy);
            assert(identities_of(singles@, ligatures@) =~= before.push(id@));
        }
        k += 1;
    }
    assert(ids.take(k as int) =~= ids);
    (singles, ligatures)
}

/// The widths of the bitmaps of glyphs, in order.
pub fn widths_of(sorted: &[SourceGlyph]) -> (w: Vec<u32>)
    ensures
        w@.len() == sorted@.len(),
        forall|k: int| 0 <= k < w@.len() ==> #[trigger] w@[k] == sorted@[k].bitmap.width,
{
    let mut w: Vec<u32> = Vec::new();
    let mut k: usize = 0;
    while k < sorted.len()
        invariant
            k <= sorted@.len(),
            w@.len() == k,
            forall|i: int| 0 <= i < k ==> #[trigger] w@[i] == sorted@[i].bitmap.width,
        decreases sorted@.len() - k,
    {
        w.push(sorted[k].bitmap.width);
        k += 1;
    }
    w
}

/// The side-bearing rows of glyphs in canonical order.
pub fn bearing_table(sorted: &[SourceGlyph], table: &[(String, (i8, i8))]) -> (rows: Vec<
    (u32, i8, i8),
>)
    requires
        sorted@.len() <= u32::MAX,
    ensures
        rows@ == bearing_rows(ids_of(sorted@), table@),
{
    let ghost ids = ids_of(sorted@);
    let mut rows: Vec<(u32, i8, i8)> = Vec::new();
    let mut k: usize = 0;
    assert(ids.take(0) =~= Seq::<Seq<char>>::empty());
    while k < sorted.len()
        invariant
            k <= sorted@.len(),
            sorted@.len() <= u32::MAX,
            ids == ids_of(sorted@),
            rows@ == bearing_rows(ids.take(k as int), table@),
        decreases sorted@.len() - k,
    {
        proof {
            let next = ids.take(k + 1);
            assert(next.drop_last() =~= ids.take(k as int));
            assert(next.last() == sorted@[k as int].id@);
        }
        match lookup_bearing(table, sorted[k].id.as_slice()) {
            Some(b) => {
                rows.push((k as u32, b.0, b.1));
            },
            None => {},
        }
        k += 1;
    }
    assert(ids.take(k as int) =~= ids);
    rows
}

/// The glyphs of a font: each source glyph with its place in the atlas and
/// its kerning classes.
pub fn make_glyphs(
    sorted: Vec<SourceGlyph>,
    positions: &[(u32, u32)],
    left_classes: &[(u8, Vec<String>)],
    right_classes: &[(u8, Vec<String>)],
) -> (glyphs: Vec<Glyph>)
    requires
        positions@.len() == sorted@.len(),
    ensures
        glyphs@.len() == sorted@.len(),
        forall|k: int|
            0 <= k < glyphs@.len() ==> {
                let g = #[trigger] glyphs@[k];
                &&& g.img == sorted@[k].bitmap
                &&& g.left == positions@[k].0
                &&& g.top == positions@[k].1
                &&& g.left_kerning_class == class_of(left_classes@, sorted@[k].id@)
                &&& g.right_kerning_class == class_of(right_classes@, sorted@[k].id@)
            },
{
    let ghost all = sorted@;
    let mut glyphs: Vec<Glyph> = Vec::new();
    let mut k: usize = 0;
    for source in it: sorted
        invariant
            it.seq() == all,
            k == it.index(),
            positions@.len() == all.len(),
            glyphs@.len() == k,
            forall|i: int|
                0 <= i < glyphs@.len() ==> {
                    let g = #[trigger] glyphs@[i];
                    &&& g.img == all[i].bitmap
                    &&& g.left == positions@[i].0
                    &&& g.top == positions@[i].1
                    &&& g.left_kerning_class == class_of(left_classes@, all[i].id@)
                    &&& g.right_kerning_class == class_of(right_classes@, all[i].id@)
                },
    {
        let left_kerning_class = lookup_class(left_classes, source.id.as_slice());
        let right_kerning_class = lookup_class(right_classes, source.id.as_slice());
        let position = positions[k];
        glyphs.push(
            Glyph {
                left: position.0,
                top: position.1,
                left_kerning_class,
                right_kerning_class,
                img: source.bitmap,
            },
        );
        k += 1;
    }
    glyphs
}

/// Whether one of the single scalars is `c`.
fn is_single(singles: &[char], c: u32) -> (r: bool)
    ensures
        r == exists|k: int| 0 <= k < singles@.len() && #[trigger] singles@[k] as u32 == c,
{
    let mut k: usize = 0;
    while k < singles.len()
        invariant
            k <= singles@.len(),
            forall|i: int| 0 <= i < k ==> #[trigger] singles@[i] as u32 != c,
        decreases singles@.len() - k,
    {
        if singles[k] as u32 == c {
            return true;
        }
        k += 1;
    }
    false
}

/// The printable ASCII scalar values that are not among the single scalars
/// of a font, ascending.
pub fn missing_printable(singles: &[char], ligatures: &[Vec<char>]) -> (missing: Vec<u32>)
    requires
        forall|j: int| 0 <= j < ligatures@.len() ==> (#[trigger] ligatures@[j])@.len() >= 2,
    ensures
        missing@ == missing_ascii(identities_of(singles@, ligatures@)),
{
    let ghost order = identities_of(singles@, ligatures@);
    let ghost gone = absent(order);
    let mut missing: Vec<u32> = Vec::new();
    let mut c: u32 = 0x20;
    proof {
        printable_ascii().take(0).lemma_filter_len(gone);
        assert(missing@ =~= printable_ascii().take(0).filter(gone));
    }
    while c < 0x7f
        invariant
            0x20 <= c <= 0x7f,
            order == identities_of(singles@, ligatures@),
            gone == absent(order),
            forall|j: int| 0 <= j < ligatures@.len() ==> (#[trigger] ligatures@[j])@.len() >= 2,
            missing@ == printable_ascii().take(c - 0x20).filter(gone),
        decreases 0x7f - c,
    {
        proof {
            let seen = printable_ascii().take(c - 0x20);
            seen.lemma_filter_push(c, gone);
            assert(seen.push(c) =~= printable_ascii().take(c - 0x20 + 1));
        }
        let found = is_single(singles, c);
        proof {
            if found {
                let k = choose|k: int| 0 <= k < singles@.len() && #[trigger] singles@[k] as u32 == c;
                assert(order[k] == seq![singles@[k]]);
                vstd::utf8::char_u32_cast(singles@[k], c);
                assert(has_single(order, c));
            } else if has_single(order, c) {
                let k = choose|k: int| 0 <= k < order.len() && #[trigger] order[k] == seq![c as char];
                if k < singles@.len() {
                    assert(order[k] == seq![singles@[k]]);
                    assert(seq![singles@[k]][0] == seq![c as char][0]);
                    assert(singles@[k] as u32 == c);
                } else {
                    assert(order[k] == ligatures@[k - singles@.len()]@);
                    assert(seq![c as char].len() == 1);
                }
            }
        }
        if !found {
            missing.push(c);
        }
        c += 1;
    }
    assert(printable_ascii().take(95) =~= printable_ascii());
    missing
}

/// The index of the glyph `id` among the glyphs of a font.
pub fn find_glyph(singles: &[char], ligatures: &[Vec<char>], id: &[char]) -> (r: Option<usize>)
    requires
        singles@.len() + ligatures@.len() <= usize::MAX,
    ensures
        match r {
            Some(k) => index_of(identities_of(singles@, ligatures@), id@) == Some(k as int) && k
                < singles@.len() + ligatures@.len(),
            None => index_of(identities_of(singles@, ligatures@), id@) is None,
        },
{
    let ghost order = identities_of(singles@, ligatures@);
    let ghost hit = is_id(id@);
    let mut k: usize = 0;
    while k < singles.len()
        invariant
            k <= singles@.len(),
            order == identities_of(singles@, ligatures@),
            hit == is_id(id@),
            forall|i: int| 0 <= i < k ==> !hit(#[trigger] order[i]),
        decreases singles@.len() - k,
    {
        assert(order[k as int] == seq![singles@[k as int]]);
        if id.len() == 1 && id[0] == singles[k] {
            proof {
                assert(id@ =~= seq![singles@[k as int]]);
                lemma_first_hit_at(order, hit, k as int);
            }
            return Some(k);
        }
        proof {
            if order[k as int] == id@ {
                assert(id@[0] == seq![singles@[k as int]][0]);
            }
        }
        k += 1;
    }
    let mut j: usize = 0;
    while j < ligatures.len()
        invariant
            j <= ligatures@.len(),
            k == singles@.len(),
            singles@.len() + ligatures@.len() <= usize::MAX,
            order == identities_of(singles@, ligatures@),
            hit == is_id(id@),
            forall|i: int| 0 <= i < k + j ==> !hit(#[trigger] order[i]),
        decreases ligatures@.len() - j,
    {
        assert(order[k + j] == ligatures@[j as int]@);
        if same_chars(ligatures[j].as_slice(), id) {
            proof {
                lemma_first_hit_at(order, hit, k + j);
            }
            return Some(k + j);
        }
        j += 1;
    }
    proof {
        lemma_first_hit_none(order, hit);
    }
    None
}

/// The overrides that a subset takes, with their glyphs given by index; none
/// where one of them names a glyph that the font does not have.
pub fn resolve_overrides(
    overrides: &[(String, String, i8)],
    subset: Subset,
    singles: &[char],
    ligatures: &[Vec<char>],
) -> (r: Option<Vec<(u32, u32, i8)>>)
    requires
        singles@.len() + ligatures@.len() <= u32::MAX,
    ensures
        ({
            let order = identities_of(singles@, ligatures@);
            let taken = overrides@.filter(keeps_override(subset));
            match r {
                Some(v) => all_resolvable(order, taken) && v@ == taken.map_values(resolver(order)),
                None => !all_resolvable(order, taken),
            }
        }),
{
    let ghost order = identities_of(singles@, ligatures@);
    let ghost keep = keeps_override(subset);
    let mut v: Vec<(u32, u32, i8)> = Vec::new();
    let mut i: usize = 0;
    proof {
        overrides@.take(0).lemma_filter_len(keep);
        assert(v@ =~= overrides@.take(0).filter(keep).map_values(resolver(order)));
    }
    while i < overrides.len()
        invariant
            i <= overrides@.len(),
            singles@.len() + ligatures@.len() <= u32::MAX,
            order == identities_of(singles@, ligatures@),
            keep == keeps_override(subset),
            all_resolvable(order, overrides@.take(i as int).filter(keep)),
            v@ == overrides@.take(i as int).filter(keep).map_values(resolver(order)),
        decreases overrides@.len() - i,
    {
        let entry = &overrides[i];
        let ghost seen = overrides@.take(i as int);
        let ghost taken = seen.filter(keep);
        proof {
            seen.lemma_filter_push(*entry, keep);
            assert(seen.push(*entry) =~= overrides@.take(i + 1));
        }
        if takes_override(entry, subset) {
            let left_id = chars_of(entry.0.as_str());
            let right_id = chars_of(entry.1.as_str());
            let left = find_glyph(singles, ligatures, left_id.as_slice());
            let right = find_glyph(singles, ligatures, right_id.as_slice());
            match (left, right) {
                (Some(l), Some(r)) => {
                    v.push((l as u32, r as u32, entry.2));
                    proof {
                        let grown = taken.push(*entry);
                        assert(grown.map_values(resolver(order)) =~= taken.map_values(
                            resolver(order),
                        ).push(resolve(order, *entry)));
                        assert forall|j: int| 0 <= j < grown.len() implies resolvable(
                            order,
                            #[trigger] grown[j],
                        ) by {
                            if j < taken.len() {
                                assert(grown[j] == taken[j]);
                            }
                        }
                    }
                },
                _ => {
                    proof {
                        let grown = taken.push(*entry);
                        assert(grown[grown.len() - 1] == *entry);
                        assert(!resolvable(order, grown[grown.len() - 1]));
                        lemma_unresolvable_stays(order, overrides@, keep, i + 1);
                    }
                    return None;
                },
            }
        }
        i += 1;
    }
    assert(overrides@.take(i as int) =~= overrides@);
    Some(v)
}

/// An override that cannot be resolved among the first `n` is still there
/// among all.
proof fn lemma_unresolvable_stays(
    order: Seq<Seq<char>>,
    overrides: Seq<(String, String, i8)>,
    keep: spec_fn((String, String, i8)) -> bool,
    n: int,
)
    requires
        0 <= n <= overrides.len(),
        !all_resolvable(order, overrides.take(n).filter(keep)),
    ensures
        !all_resolvable(order, overrides.filter(keep)),
    decreases overrides.len() - n,
{
    if n < overrides.len() {
        let seen = overrides.take(n);
        seen.lemma_filter_push(overrides[n], keep);
        assert(seen.push(overrides[n]) =~= overrides.take(n + 1));
        let taken = seen.filter(keep);
        let j = choose|j: int| 0 <= j < taken.len() && !resolvable(order, #[trigger] taken[j]);
        let next = overrides.take(n + 1).filter(keep);
        assert(next[j] == taken[j]);
        lemma_unresolvable_stays(order, overrides, keep, n + 1);
    } else {
        assert(overrides.take(n) =~= overrides);
    }
}

} // verus!
