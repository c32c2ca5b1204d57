//! Looking up the described metrics of a glyph by its identity.

use crate::source::Subset;
use crate::text::{all_ascii, chars_of, is_all_ascii, str_is};
use vstd::prelude::*;

verus! {

/// The bearings that a table gives the glyph `id`: those of its last entry
/// for that glyph.
pub open spec fn bearing_of(table: Seq<(String, (i8, i8))>, id: Seq<char>) -> Option<(i8, i8)>
    decreases table.len(),
{
    if table.len() == 0 {
        None
    } else if table.last().0@ == id {
        Some(table.last().1)
    } else {
        bearing_of(table.drop_last(), id)
    }
}

/// Whether a list of names holds the glyph `id`.
pub open spec fn names(members: Seq<String>, id: Seq<char>) -> bool {
    exists|i: int| 0 <= i < members.len() && (#[trigger] members[i])@ == id
}

/// The kerning class that a table gives the glyph `id`: that of the last
/// entry which names the glyph, or 0 where none does.
pub open spec fn class_of(table: Seq<(u8, Vec<String>)>, id: Seq<char>) -> u8
    decreases table.len(),
{
    if table.len() == 0 {
        0
    } else if names(table.last().1@, id) {
        table.last().0
    } else {
        class_of(table.drop_last(), id)
    }
}

/// Whether a table has an entry for the kerning class `class`.
pub open spec fn class_defined(table: Seq<(u8, Vec<String>)>, class: u8) -> bool {
    exists|i: int| 0 <= i < table.len() && (#[trigger] table[i]).0 == class
}

/// Whether a subset takes a class pair: `All` takes each, `Ascii` those
/// whose classes both have an entry.
pub open spec fn keeps_pair(
    subset: Subset,
    left: Seq<(u8, Vec<String>)>,
    right: Seq<(u8, Vec<String>)>,
) -> spec_fn((u8, u8, i8)) -> bool {
    |p: (u8, u8, i8)| subset == Subset::All || (class_defined(left, p.0) && class_defined(right, p.1))
}

/// Whether a subset takes an override: `All` takes each, `Ascii` those
/// between glyphs whose scalar values are all below 128.
pub open spec fn keeps_override(subset: Subset) -> spec_fn((String, String, i8)) -> bool {
    |o: (String, String, i8)| subset == Subset::All || (all_ascii(o.0@) && all_ascii(o.1@))
}

/// The bearings that a table gives a glyph.
pub fn lookup_bearing(table: &[(String, (i8, i8))], id: &[char]) -> (r: Option<(i8, i8)>)
    ensures
        r == bearing_of(table@, id@),
{
    let mut n: usize = table.len();
    assert(table@.take(n as int) =~= table@);
    while n > 0
        invariant
            n <= table@.len(),
            bearing_of(table@, id@) == bearing_of(table@.take(n as int), id@),
        decreases n,
    {
        let ghost seen = table@.take(n as int);
        assert(seen.last() == table@[n - 1]);
        assert(seen.drop_last() =~= table@.take(n - 1));
        if str_is(table[n - 1].0.as_str(), id) {
            return Some(table[n - 1].1);
        }
        n -= 1;
    }
    None
}

/// Whether a list of names holds a glyph.
pub fn is_named(members: &[String], id: &[char]) -> (r: bool)
    ensures
        r == names(members@, id@),
{
    let mut i: usize = 0;
    while i < members.len()
        invariant
            i <= members@.len(),
            forall|j: int| 0 <= j < i ==> (#[trigger] members@[j])@ != id@,
        decreases members@.len() - i,
    {
        if str_is(members[i].as_str(), id) {
            return true;
        }
        i += 1;
    }
    false
}

/// The kerning class that a table gives a glyph.
pub fn lookup_class(table: &[(u8, Vec<String>)], id: &[char]) -> (r: u8)
    ensures
        r == class_of(table@, id@),
{
    let mut n: usize = table.len();
    assert(table@.take(n as int) =~= table@);
    while n > 0
        invariant
            n <= table@.len(),
            class_of(table@, id@) == class_of(table@.take(n as int), id@),
        decreases n,
    {
        let ghost seen = table@.take(n as int);
        assert(seen.last() == table@[n - 1]);
        assert(seen.drop_last() =~= table@.take(n - 1));
        if is_named(table[n - 1].1.as_slice(), id) {
            return table[n - 1].0;
        }
        n -= 1;
    }
    0
}

/// Whether a table has an entry for a kerning class.
pub fn has_class(table: &[(u8, Vec<String>)], class: u8) -> (r: bool)
    ensures
        r == class_defined(table@, class),
{
    let mut i: usize = 0;
    while i < table.len()
        invariant
            i <= table@.len(),
            forall|j: int| 0 <= j < i ==> (#[trigger] table@[j]).0 != class,
        decreases table@.len() - i,
    {
        if table[i].0 == class {
            return true;
        }
        i += 1;
    }
    false
}

/// The class pairs that a subset takes, in their order.
pub fn kept_pairs(
    pairs: &[(u8, u8, i8)],
    subset: Subset,
    left: &[(u8, Vec<String>)],
    right: &[(u8, Vec<String>)],
) -> (r: Vec<(u8, u8, i8)>)
    ensures
        r@ == pairs@.filter(keeps_pair(subset, left@, right@)),
{
    let ghost keep = keeps_pair(subset, left@, right@);
    let mut r: Vec<(u8, u8, i8)> = Vec::new();
    let mut i: usize = 0;
    proof {
        pairs@.take(0).lemma_filter_len(keep);
        assert(r@ =~= pairs@.take(0).filter(keep));
    }
    while i < pairs.len()
        invariant
            i <= pairs@.len(),
            keep == keeps_pair(subset, left@, right@),
            r@ == pairs@.take(i as int).filter(keep),
        decreases pairs@.len() - i,
    {
        let p = pairs[i];
        proof {
            pairs@.take(i as int).lemma_filter_push(p, keep);
            assert(pairs@.take(i as int).push(p) =~= pairs@.take(i + 1));
        }
        let take = match subset {
            Subset::All => true,
            Subset::Ascii => has_class(left, p.0) && has_class(right, p.1),
        };
        if take {
            r.push(p);
        }
        i += 1;
    }
    assert(pairs@.take(i as int) =~= pairs@);
    r
}

/// Whether a subset takes an override.
pub fn takes_override(entry: &(String, String, i8), subset: Subset) -> (r: bool)
    ensures
        r == keeps_override(subset)(*entry),
{
    match subset {
        Subset::All => true,
        Subset::Ascii => {
            let left = chars_of(entry.0.as_str());
            let right = chars_of(entry.1.as_str());
            is_all_ascii(left.as_slice()) && is_all_ascii(right.as_slice())
        },
    }
}

} // verus!
