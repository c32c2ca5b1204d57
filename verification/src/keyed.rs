//! Table entries that are ordered by a two-part key.

use crate::sorting::{ascending, lemma_insert_at, lemma_sort_ascending, sort_by};
use crate::table::{first_hit, key_le, key_lt, lemma_first_hit_at, lemma_first_hit_none};
use vstd::prelude::*;

verus! {

/// An entry of a table that is ordered by a key of two numbers.
pub trait Keyed {
    /// The key of the entry.
    spec fn key(&self) -> (int, int);

    /// The key of the entry.
    fn exec_key(&self) -> (k: (u64, u64))
        ensures
            k.0 == self.key().0,
            k.1 == self.key().1,
    ;
}

impl Keyed for (u8, u8, i8) {
    open spec fn key(&self) -> (int, int) {
        (self.0 as int, self.1 as int)
    }

    fn exec_key(&self) -> (k: (u64, u64)) {
        (self.0 as u64, self.1 as u64)
    }
}

impl Keyed for (u32, u32, i8) {
    open spec fn key(&self) -> (int, int) {
        (self.0 as int, self.1 as int)
    }

    fn exec_key(&self) -> (k: (u64, u64)) {
        (self.0 as u64, self.1 as u64)
    }
}

impl Keyed for (u8, u8, i32) {
    open spec fn key(&self) -> (int, int) {
        (self.0 as int, self.1 as int)
    }

    fn exec_key(&self) -> (k: (u64, u64)) {
        (self.0 as u64, self.1 as u64)
    }
}

impl Keyed for (usize, usize, i32) {
    open spec fn key(&self) -> (int, int) {
        (self.0 as int, self.1 as int)
    }

    fn exec_key(&self) -> (k: (u64, u64)) {
        (self.0 as u64, self.1 as u64)
    }
}

/// A side-bearing row has the glyph index for its key.
impl Keyed for (u32, i32, i32) {
    open spec fn key(&self) -> (int, int) {
        (self.0 as int, 0)
    }

    fn exec_key(&self) -> (k: (u64, u64)) {
        (self.0 as u64, 0)
    }
}

/// Whether an entry has the key `key`.
pub open spec fn has_key<T: Keyed>(key: (int, int)) -> spec_fn(T) -> bool {
    |e: T| e.key() == key
}

/// Whether the key of `a` is below the key of `b`.
pub open spec fn entry_lt<T: Keyed>(a: T, b: T) -> bool {
    key_lt(a.key().0, a.key().1, b.key().0, b.key().1)
}

/// The order of entries by key, as `sort_by` takes it.
pub open spec fn key_order<T: Keyed>() -> spec_fn(T, T) -> bool {
    |a: T, b: T| entry_lt(a, b)
}

/// The keys of `s` never go down.
pub open spec fn keys_ascend<T: Keyed>(s: Seq<T>) -> bool {
    forall|i: int, j: int|
        #![trigger s[i], s[j]]
        0 <= i <= j < s.len() ==> key_le(s[i].key().0, s[i].key().1, s[j].key().0, s[j].key().1)
}

/// In a sequence that `key_order` calls ascending, the keys never go down.
pub proof fn lemma_ascending_keys<T: Keyed>(s: Seq<T>)
    requires
        ascending(s, key_order::<T>()),
    ensures
        keys_ascend(s),
{
    assert forall|i: int, j: int| #![trigger s[i], s[j]] 0 <= i <= j < s.len() implies key_le(
        s[i].key().0,
        s[i].key().1,
        s[j].key().0,
        s[j].key().1,
    ) by {
        lemma_ascending_range(s, i, j);
    }
}

proof fn lemma_ascending_range<T: Keyed>(s: Seq<T>, i: int, j: int)
    requires
        ascending(s, key_order::<T>()),
        0 <= i <= j < s.len(),
    ensures
        key_le(s[i].key().0, s[i].key().1, s[j].key().0, s[j].key().1),
    decreases j - i,
{
    if i < j {
        lemma_ascending_range(s, i, j - 1);
        assert(!key_order::<T>()(s[(j - 1) + 1], s[j - 1]));
    }
}

/// A table sorted by key has keys that never go down.
pub proof fn lemma_sorted_keys_ascend<T: Keyed>(s: Seq<T>)
    ensures
        keys_ascend(sort_by(s, key_order::<T>())),
{
    assert forall|a: T, b: T| #[trigger] key_order::<T>()(a, b) implies !key_order::<T>()(b, a) by {
    }
    lemma_sort_ascending(s, key_order::<T>());
    lemma_ascending_keys(sort_by(s, key_order::<T>()));
}

/// Where the first entry with the key `key` stands in a table whose keys
/// never go down.
pub fn search<T: Keyed>(t: &[T], key: (u64, u64)) -> (r: Option<usize>)
    requires
        keys_ascend(t@),
    ensures
        match r {
            Some(i) => i < t@.len() && first_hit(t@, has_key::<T>((key.0 as int, key.1 as int)))
                == Some(i as int),
            None => first_hit(t@, has_key::<T>((key.0 as int, key.1 as int))) is None,
        },
{
    let ghost hit = has_key::<T>((key.0 as int, key.1 as int));
    let mut lo: usize = 0;
    let mut hi: usize = t.len();
    while lo < hi
        invariant
            lo <= hi <= t@.len(),
            keys_ascend(t@),
            forall|i: int|
                0 <= i < lo ==> key_lt(
                    (#[trigger] t@[i]).key().0,
                    t@[i].key().1,
                    key.0 as int,
                    key.1 as int,
                ),
            forall|i: int|
                hi <= i < t@.len() ==> !key_lt(
                    (#[trigger] t@[i]).key().0,
                    t@[i].key().1,
                    key.0 as int,
                    key.1 as int,
                ),
        decreases hi - lo,
    {
        let mid: usize = lo + (hi - lo) / 2;
        if below(t[mid].exec_key(), key) {
            lo = mid + 1;
        } else {
            hi = mid;
        }
    }
    if lo < t.len() {
        let found = t[lo].exec_key();
        if found.0 == key.0 && found.1 == key.1 {
            proof {
                lemma_first_hit_at(t@, hit, lo as int);
            }
            return Some(lo);
        }
    }
    proof {
        assert forall|j: int| 0 <= j < t@.len() implies !hit(#[trigger] t@[j]) by {
            if j > lo {
                assert(key_le(
                    t@[lo as int].key().0,
                    t@[lo as int].key().1,
                    t@[j].key().0,
                    t@[j].key().1,
                ));
            }
        }
        lemma_first_hit_none(t@, hit);
    }
    None
}

/// Whether the keys of a table never go down.
pub fn is_ascending<T: Keyed>(t: &[T]) -> (r: bool)
    ensures
        r == keys_ascend(t@),
{
    let mut i: usize = 1;
    while i < t.len()
        invariant
            1 <= i,
            forall|j: int| 0 <= j && j + 1 < i && j + 1 < t@.len() ==> !entry_lt(#[trigger] t@[j + 1], t@[j]),
        decreases t@.len() - i,
    {
        if below(t[i].exec_key(), t[i - 1].exec_key()) {
            proof {
                assert(!key_le(
                    t@[i - 1].key().0,
                    t@[i - 1].key().1,
                    t@[i as int].key().0,
                    t@[i as int].key().1,
                ));
            }
            return false;
        }
        i += 1;
    }
    proof {
        assert forall|j: int| 0 <= j && j + 1 < t@.len() implies !key_order::<T>()(
            #[trigger] t@[j + 1],
            t@[j],
        ) by {
            assert(!entry_lt(t@[j + 1], t@[j]));
        }
        lemma_ascending_keys(t@);
    }
    true
}

/// Whether the key `a` is below the key `b`.
fn below(a: (u64, u64), b: (u64, u64)) -> (r: bool)
    ensures
        r == key_lt(a.0 as int, a.1 as int, b.0 as int, b.1 as int),
{
    a.0 < b.0 || (a.0 == b.0 && a.1 < b.1)
}

/// The entries of `v` sorted by key; entries with one key keep their order.
pub fn sort_by_key<T: Keyed + Copy>(v: &[T]) -> (r: Vec<T>)
    ensures
        r@ == sort_by(v@, key_order::<T>()),
{
    let mut r: Vec<T> = Vec::new();
    let mut i: usize = 0;
    while i < v.len()
        invariant
            i <= v@.len(),
            r@ == sort_by(v@.take(i as int), key_order::<T>()),
            r@.len() == i,
        decreases v@.len() - i,
    {
        let e: T = v[i];
        let ek = e.exec_key();
        let mut at: usize = r.len();
        while at > 0 && below(ek, r[at - 1].exec_key())
            invariant
                at <= r@.len(),
                ek.0 == e.key().0,
                ek.1 == e.key().1,
                forall|j: int| at <= j < r@.len() ==> key_order::<T>()(e, #[trigger] r@[j]),
            decreases at,
        {
            at -= 1;
        }
        proof {
            lemma_insert_at(r@, e, key_order::<T>(), at as int);
            assert(v@.take(i + 1).drop_last() =~= v@.take(i as int));
            assert(v@.take(i + 1).last() == e);
        }
        r.insert(at, e);
        i += 1;
    }
    assert(v@.take(i as int) =~= v@);
    r
}

} // verus!
