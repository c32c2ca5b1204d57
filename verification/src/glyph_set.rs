//! The glyphs of a font in canonical order.

use crate::code_point::{
    ident_lt, ident_order, ident_precedes, lemma_ident_total, lemma_ident_transitive,
};
use crate::error::FontError;
use crate::glyph_images::GlyphBitmap;
use crate::sorting::{lemma_insert_at, sort_by};
use crate::text::same_chars;
use vstd::prelude::*;
use vstd::seq_lib::{to_multiset_build, to_multiset_contains, to_multiset_insert};

verus! {

/// A glyph as the font's sources give it: its identity, by its scalar values,
/// and its bitmap.
#[derive(Debug)]
pub struct SourceGlyph {
    pub id: Vec<char>,
    pub bitmap: GlyphBitmap,
}

/// The identities of a sequence of glyphs.
pub open spec fn ids_of(glyphs: Seq<SourceGlyph>) -> Seq<Seq<char>> {
    glyphs.map_values(|g: SourceGlyph| g.id@)
}

/// Every identity comes before all that follow it, in canonical order.
pub open spec fn strictly_ordered(ids: Seq<Seq<char>>) -> bool {
    forall|i: int, j: int|
        #![trigger ids[i], ids[j]]
        0 <= i < j < ids.len() ==> ident_lt(ids[i], ids[j])
}

/// In a strictly ordered sequence no identity occurs twice.
pub proof fn lemma_strictly_ordered_distinct(ids: Seq<Seq<char>>)
    requires
        strictly_ordered(ids),
    ensures
        ids.no_duplicates(),
{
    assert forall|i: int, j: int| 0 <= i < ids.len() && 0 <= j < ids.len() && i != j implies ids[i]
        != ids[j] by {
        if i < j {
            assert(ident_lt(ids[i], ids[j]));
            crate::code_point::lemma_ident_asymmetric(ids[i], ids[j]);
        } else {
            assert(ident_lt(ids[j], ids[i]));
            crate::code_point::lemma_ident_asymmetric(ids[j], ids[i]);
        }
    }
}

/// The glyphs in canonical order of their identities, or `DuplicateIdentity`
/// where two of them have one identity.
pub fn canonical_order(source: Vec<SourceGlyph>) -> (r: Result<Vec<SourceGlyph>, FontError>)
    ensures
        match r {
            Ok(sorted) => {
                &&& ids_of(source@).no_duplicates()
                &&& sorted@.to_multiset() == source@.to_multiset()
                &&& ids_of(sorted@) == sort_by(ids_of(source@), ident_order())
                &&& strictly_ordered(ids_of(sorted@))
            },
            Err(e) => e == FontError::DuplicateIdentity && !ids_of(source@).no_duplicates(),
        },
{
    let ghost all = source@;
    let mut sorted: Vec<SourceGlyph> = Vec::new();
    assert(sorted@ =~= all.take(0));
    assert(ids_of(all).take(0) =~= Seq::<Seq<char>>::empty());
    for g in it: source
        invariant
            it.seq() == all,
            sorted@.len() == it.index(),
            sorted@.to_multiset() == all.take(it.index() as int).to_multiset(),
            ids_of(sorted@) == sort_by(ids_of(all).take(it.index() as int), ident_order()),
            strictly_ordered(ids_of(sorted@)),
    {
        let ghost i = it.index() as int;
        let ghost ids = ids_of(sorted@);
        let mut at: usize = sorted.len();
        while at > 0 && ident_precedes(g.id.as_slice(), sorted[at - 1].id.as_slice())
            invariant
                at <= sorted@.len(),
                ids == ids_of(sorted@),
                forall|j: int| at <= j < ids.len() ==> ident_order()(g.id@, #[trigger] ids[j]),
            decreases at,
        {
            at -= 1;
        }
        if at > 0 && same_chars(g.id.as_slice(), sorted[at - 1].id.as_slice()) {
            proof {
                let twin = sorted@[at - 1];
                assert(sorted@.contains(twin));
                to_multiset_contains(sorted@, twin);
                to_multiset_contains(all.take(i), twin);
                assert(all.take(i).contains(twin));
                let k = choose|k: int| 0 <= k < all.take(i).len() && all.take(i)[k] == twin;
                assert(ids_of(all)[k] == g.id@);
                assert(ids_of(all)[i] == g.id@);
            }
            return Err(FontError::DuplicateIdentity);
        }
        proof {
            lemma_insert_at(ids, g.id@, ident_order(), at as int);
            assert(ids_of(all).take(i + 1).drop_last() =~= ids_of(all).take(i));
            assert(ids_of(all).take(i + 1).last() == g.id@);
            assert(ids_of(sorted@.insert(at as int, g)) =~= ids.insert(at as int, g.id@));
            to_multiset_insert(sorted@, at as int, g);
            to_multiset_build(all.take(i), g);
            assert(all.take(i).push(g) =~= all.take(i + 1));
            let new_ids = ids.insert(at as int, g.id@);
            assert forall|a: int, b: int|
                #![trigger new_ids[a], new_ids[b]]
                0 <= a < b < new_ids.len() implies ident_lt(new_ids[a], new_ids[b]) by {
                if a < at && b > at {
                    assert(ident_lt(ids[a], ids[b - 1]));
                } else if a < at && b < at {
                    assert(ident_lt(ids[a], ids[b]));
                } else if a > at {
                    assert(ident_lt(ids[a - 1], ids[b - 1]));
                } else if a == at {
                    assert(ident_order()(g.id@, ids[b - 1]));
                } else {
                    // b == at: the new identity after an earlier one
                    assert(at > 0);
                    lemma_ident_total(g.id@, ids[at - 1]);
                    if a < at - 1 {
                        assert(ident_lt(ids[a], ids[at - 1]));
                        lemma_ident_transitive(ids[a], ids[at - 1], g.id@);
                    }
                }
            }
        }
        sorted.insert(at, g);
    }
    proof {
        assert(all.take(all.len() as int) =~= all);
        assert(ids_of(all).take(all.len() as int) =~= ids_of(all));
        lemma_strictly_ordered_distinct(ids_of(sorted@));
        lemma_permutation_distinct(sorted@, all);
    }
    Ok(sorted)
}

/// Glyphs that are a rearrangement of glyphs with distinct identities have
/// distinct identities too.
proof fn lemma_permutation_distinct(a: Seq<SourceGlyph>, b: Seq<SourceGlyph>)
    requires
        a.to_multiset() == b.to_multiset(),
        ids_of(a).no_duplicates(),
    ensures
        ids_of(b).no_duplicates(),
{
    assert forall|i: int, j: int| 0 <= i < a.len() && 0 <= j < a.len() && i != j implies a[i]
        != a[j] by {
        assert(ids_of(a)[i] != ids_of(a)[j]);
    }
    a.lemma_multiset_has_no_duplicates();
    b.lemma_multiset_has_no_duplicates_conv();
    assert forall|i: int, j: int| 0 <= i < b.len() && 0 <= j < b.len() && i != j implies ids_of(
        b,
    )[i] != ids_of(b)[j] by {
        assert(b.contains(b[i]));
        assert(b.contains(b[j]));
        to_multiset_contains(b, b[i]);
        to_multiset_contains(b, b[j]);
        to_multiset_contains(a, b[i]);
        to_multiset_contains(a, b[j]);
        let p = choose|p: int| 0 <= p < a.len() && a[p] == b[i];
        let q = choose|q: int| 0 <= q < a.len() && a[q] == b[j];
        assert(ids_of(a)[p] == b[i].id@);
        assert(ids_of(a)[q] == b[j].id@);
    }
}

} // verus!
