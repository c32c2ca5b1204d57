//! Stable sorting, stated as a function on sequences.

use vstd::prelude::*;
use vstd::seq_lib::to_multiset_build;

verus! {

/// `s` with `e` put in after the last entry that `e` does not precede.
pub open spec fn insert_by<T>(s: Seq<T>, e: T, lt: spec_fn(T, T) -> bool) -> Seq<T>
    decreases s.len(),
{
    if s.len() == 0 || !lt(e, s.last()) {
        s.push(e)
    } else {
        insert_by(s.drop_last(), e, lt).push(s.last())
    }
}

/// The entries of `s` in the order of `lt`; entries of which neither precedes
/// the other keep the order they had in `s`.
pub open spec fn sort_by<T>(s: Seq<T>, lt: spec_fn(T, T) -> bool) -> Seq<T>
    decreases s.len(),
{
    if s.len() == 0 {
        s
    } else {
        insert_by(sort_by(s.drop_last(), lt), s.last(), lt)
    }
}

/// No entry precedes the entry before it.
pub open spec fn ascending<T>(s: Seq<T>, lt: spec_fn(T, T) -> bool) -> bool {
    forall|i: int| 0 <= i && i + 1 < s.len() ==> !lt(#[trigger] s[i + 1], s[i])
}

/// Of two entries, at most one precedes the other.
pub open spec fn asymmetric<T>(lt: spec_fn(T, T) -> bool) -> bool {
    forall|a: T, b: T| #[trigger] lt(a, b) ==> !lt(b, a)
}

/// Where `e` precedes every entry from `at` on, and not the entry before
/// `at`, `insert_by` puts `e` at `at`.
pub proof fn lemma_insert_at<T>(s: Seq<T>, e: T, lt: spec_fn(T, T) -> bool, at: int)
    requires
        0 <= at <= s.len(),
        forall|j: int| at <= j < s.len() ==> lt(e, #[trigger] s[j]),
        at > 0 ==> !lt(e, s[at - 1]),
    ensures
        insert_by(s, e, lt) == s.insert(at, e),
    decreases s.len(),
{
    if at == s.len() {
        assert(s.insert(at, e) =~= s.push(e));
    } else {
        let init = s.drop_last();
        lemma_insert_at(init, e, lt, at);
        assert(init.insert(at, e).push(s.last()) =~= s.insert(at, e));
    }
}

/// `insert_by` adds one entry and keeps the others.
pub proof fn lemma_insert_permutes<T>(s: Seq<T>, e: T, lt: spec_fn(T, T) -> bool)
    ensures
        insert_by(s, e, lt).len() == s.len() + 1,
        insert_by(s, e, lt).to_multiset() == s.to_multiset().insert(e),
    decreases s.len(),
{
    if s.len() == 0 || !lt(e, s.last()) {
        to_multiset_build(s, e);
    } else {
        let init = s.drop_last();
        lemma_insert_permutes(init, e, lt);
        to_multiset_build(insert_by(init, e, lt), s.last());
        to_multiset_build(init, s.last());
        assert(init.push(s.last()) =~= s);
        assert(init.to_multiset().insert(e).insert(s.last()) =~= init.to_multiset().insert(
            s.last(),
        ).insert(e));
    }
}

/// Sorting keeps every entry, as often as it occurs.
pub proof fn lemma_sort_permutes<T>(s: Seq<T>, lt: spec_fn(T, T) -> bool)
    ensures
        sort_by(s, lt).len() == s.len(),
        sort_by(s, lt).to_multiset() == s.to_multiset(),
    decreases s.len(),
{
    if s.len() > 0 {
        let init = s.drop_last();
        lemma_sort_permutes(init, lt);
        lemma_insert_permutes(sort_by(init, lt), s.last(), lt);
        to_multiset_build(init, s.last());
        assert(init.push(s.last()) =~= s);
    }
}

/// `insert_by` keeps a sequence ascending.
pub proof fn lemma_insert_ascending<T>(s: Seq<T>, e: T, lt: spec_fn(T, T) -> bool)
    requires
        asymmetric(lt),
        ascending(s, lt),
    ensures
        ascending(insert_by(s, e, lt), lt),
        insert_by(s, e, lt).len() == s.len() + 1,
        insert_by(s, e, lt).last() == e || (s.len() > 0 && insert_by(s, e, lt).last() == s.last()
            && lt(e, s.last())),
    decreases s.len(),
{
    let r = insert_by(s, e, lt);
    if s.len() == 0 || !lt(e, s.last()) {
        assert forall|i: int| 0 <= i && i + 1 < r.len() implies !lt(#[trigger] r[i + 1], r[i]) by {
            if i + 1 < s.len() {
                assert(r[i + 1] == s[i + 1] && r[i] == s[i]);
            }
        }
    } else {
        let init = s.drop_last();
        assert forall|i: int| 0 <= i && i + 1 < init.len() implies !lt(
            #[trigger] init[i + 1],
            init[i],
        ) by {
            assert(init[i + 1] == s[i + 1] && init[i] == s[i]);
        }
        lemma_insert_ascending(init, e, lt);
        let q = insert_by(init, e, lt);
        assert forall|i: int| 0 <= i && i + 1 < r.len() implies !lt(#[trigger] r[i + 1], r[i]) by {
            if i + 1 < q.len() {
                assert(r[i + 1] == q[i + 1] && r[i] == q[i]);
            } else {
                assert(r[i + 1] == s.last() && r[i] == q.last());
                if q.last() == e {
                } else {
                    assert(q.last() == init.last());
                    assert(init.last() == s[s.len() - 2]);
                    assert(s.last() == s[(s.len() - 2) + 1]);
                }
            }
        }
    }
}

/// What `sort_by` gives is ascending.
pub proof fn lemma_sort_ascending<T>(s: Seq<T>, lt: spec_fn(T, T) -> bool)
    requires
        asymmetric(lt),
    ensures
        ascending(sort_by(s, lt), lt),
    decreases s.len(),
{
    if s.len() > 0 {
        lemma_sort_ascending(s.drop_last(), lt);
        lemma_insert_ascending(sort_by(s.drop_last(), lt), s.last(), lt);
    }
}

/// Sorting leaves an ascending sequence as it is.
pub proof fn lemma_sort_of_ascending<T>(s: Seq<T>, lt: spec_fn(T, T) -> bool)
    requires
        ascending(s, lt),
    ensures
        sort_by(s, lt) == s,
    decreases s.len(),
{
    if s.len() > 0 {
        let init = s.drop_last();
        assert forall|i: int| 0 <= i && i + 1 < init.len() implies !lt(
            #[trigger] init[i + 1],
            init[i],
        ) by {
            assert(init[i + 1] == s[i + 1] && init[i] == s[i]);
        }
        lemma_sort_of_ascending(init, lt);
        if init.len() > 0 {
            assert(init.last() == s[s.len() - 2]);
            assert(s.last() == s[(s.len() - 2) + 1]);
        }
        assert(init.push(s.last()) =~= s);
    }
}

/// Sorting twice gives what sorting once gives.
pub proof fn lemma_sort_idempotent<T>(s: Seq<T>, lt: spec_fn(T, T) -> bool)
    requires
        asymmetric(lt),
    ensures
        sort_by(sort_by(s, lt), lt) == sort_by(s, lt),
{
    lemma_sort_ascending(s, lt);
    lemma_sort_of_ascending(sort_by(s, lt), lt);
}

} // verus!
