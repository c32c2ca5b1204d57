//! Searching the sorted tables of a font.

use vstd::prelude::*;

verus! {

/// The least index of `t` whose entry satisfies `hit`.
pub open spec fn first_hit<T>(t: Seq<T>, hit: spec_fn(T) -> bool) -> Option<int>
    decreases t.len(),
{
    if t.len() == 0 {
        None
    } else if hit(t[0]) {
        Some(0)
    } else {
        match first_hit(t.drop_first(), hit) {
            Some(i) => Some(i + 1),
            None => None,
        }
    }
}

/// `first_hit` finds an entry that satisfies `hit`, with none before it, or
/// there is none at all.
pub proof fn lemma_first_hit_is_first<T>(t: Seq<T>, hit: spec_fn(T) -> bool)
    ensures
        match first_hit(t, hit) {
            Some(i) => 0 <= i < t.len() && hit(t[i]) && forall|j: int|
                0 <= j < i ==> !hit(#[trigger] t[j]),
            None => forall|j: int| 0 <= j < t.len() ==> !hit(#[trigger] t[j]),
        },
    decreases t.len(),
{
    if t.len() > 0 && !hit(t[0]) {
        let rest = t.drop_first();
        lemma_first_hit_is_first(rest, hit);
        match first_hit(rest, hit) {
            Some(i) => {
                assert(rest[i] == t[i + 1]);
                assert forall|j: int| 0 <= j < i + 1 implies !hit(#[trigger] t[j]) by {
                    if j > 0 {
                        assert(rest[j - 1] == t[j]);
                    }
                }
            },
            None => {
                assert forall|j: int| 0 <= j < t.len() implies !hit(#[trigger] t[j]) by {
                    if j > 0 {
                        assert(rest[j - 1] == t[j]);
                    }
                }
            },
        }
    }
}

/// An index that holds a hit, with no hit before it, is what `first_hit` finds.
pub proof fn lemma_first_hit_at<T>(t: Seq<T>, hit: spec_fn(T) -> bool, at: int)
    requires
        0 <= at < t.len(),
        hit(t[at]),
        forall|j: int| 0 <= j < at ==> !hit(#[trigger] t[j]),
    ensures
        first_hit(t, hit) == Some(at),
{
    lemma_first_hit_is_first(t, hit);
}

/// Where no entry is a hit, `first_hit` finds nothing.
pub proof fn lemma_first_hit_none<T>(t: Seq<T>, hit: spec_fn(T) -> bool)
    requires
        forall|j: int| 0 <= j < t.len() ==> !hit(#[trigger] t[j]),
    ensures
        first_hit(t, hit) is None,
{
    lemma_first_hit_is_first(t, hit);
}

/// Lexicographic order of two-part keys.
pub open spec fn key_lt(a0: int, a1: int, b0: int, b1: int) -> bool {
    a0 < b0 || (a0 == b0 && a1 < b1)
}

/// Lexicographic order of two-part keys, equal keys included.
pub open spec fn key_le(a0: int, a1: int, b0: int, b1: int) -> bool {
    a0 < b0 || (a0 == b0 && a1 <= b1)
}

} // verus!
