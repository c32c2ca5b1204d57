//! Lists of tokens, stored as one sequence with a separator between them.

use crate::table::{first_hit, lemma_first_hit_at, lemma_first_hit_none};
use vstd::prelude::*;

verus! {

/// A unit of text that can be compared: a byte, or a scalar value.
pub trait Symbol: Sized {
    /// Whether two units are the same.
    fn same(&self, other: &Self) -> (r: bool)
        ensures
            r == (*self == *other),
    ;
}

impl Symbol for u8 {
    fn same(&self, other: &Self) -> (r: bool) {
        *self == *other
    }
}

impl Symbol for char {
    fn same(&self, other: &Self) -> (r: bool) {
        *self == *other
    }
}

/// A token that has come to its end: it counts unless it is empty.
pub open spec fn closed_token<T>(token: Seq<T>) -> Seq<Seq<T>> {
    if token.len() == 0 {
        Seq::empty()
    } else {
        seq![token]
    }
}

/// The tokens that `data` holds behind the begun token `open`.
pub open spec fn tokens_from<T>(data: Seq<T>, sep: T, open: Seq<T>) -> Seq<Seq<T>>
    decreases data.len(),
{
    if data.len() == 0 {
        closed_token(open)
    } else if data[0] == sep {
        closed_token(open) + tokens_from(data.drop_first(), sep, Seq::empty())
    } else {
        tokens_from(data.drop_first(), sep, open.push(data[0]))
    }
}

/// The tokens of `data`: the stretches between separators that are not
/// empty, in order.
pub open spec fn tokens_of<T>(data: Seq<T>, sep: T) -> Seq<Seq<T>> {
    tokens_from(data, sep, Seq::empty())
}

/// Whether a token is what `text` starts with.
pub open spec fn begins<T>(text: Seq<T>) -> spec_fn(Seq<T>) -> bool {
    |token: Seq<T>| token.is_prefix_of(text)
}

/// No more tokens than units, each of them with a unit at least, and none
/// with a separator.
pub proof fn lemma_tokens_from<T>(data: Seq<T>, sep: T, open: Seq<T>)
    requires
        !open.contains(sep),
    ensures
        tokens_from(data, sep, open).len() <= data.len() + 1,
        open.len() == 0 ==> tokens_from(data, sep, open).len() <= data.len(),
        forall|k: int|
            0 <= k < tokens_from(data, sep, open).len() ==> (#[trigger] tokens_from(
                data,
                sep,
                open,
            )[k]).len() > 0 && !tokens_from(data, sep, open)[k].contains(sep),
    decreases data.len(),
{
    if data.len() == 0 {
    } else if data[0] == sep {
        lemma_tokens_from(data.drop_first(), sep, Seq::empty());
    } else {
        let grown = open.push(data[0]);
        assert(!grown.contains(sep)) by {
            if grown.contains(sep) {
                let i = choose|i: int| 0 <= i < grown.len() && grown[i] == sep;
                if i < open.len() {
                    assert(open[i] == sep);
                }
            }
        }
        lemma_tokens_from(data.drop_first(), sep, grown);
    }
}

/// The first token of `data` that `text` starts with: its place among the
/// tokens, and its length.
pub fn find_token<T: Symbol>(data: &[T], sep: &T, text: &[T]) -> (r: Option<(usize, usize)>)
    ensures
        match first_hit(tokens_of(data@, *sep), begins(text@)) {
            Some(k) => r == Some((k as usize, tokens_of(data@, *sep)[k].len() as usize)) && k
                <= usize::MAX && tokens_of(data@, *sep)[k].len() <= text@.len(),
            None => r is None,
        },
{
    let ghost all = tokens_of(data@, *sep);
    let ghost hit = begins(text@);
    let ghost mut done: Seq<Seq<T>> = Seq::empty();
    let mut place: usize = 0;
    let mut start: usize = 0;
    let mut matching: bool = true;
    let mut i: usize = 0;
    proof {
        assert(data@.skip(0) =~= data@);
        assert(data@.subrange(0, 0) =~= Seq::<T>::empty());
        assert(done + tokens_from(data@, *sep, Seq::empty()) =~= all);
    }
    while i < data.len()
        invariant
            start <= i <= data@.len(),
            place == done.len(),
            place <= start,
            all == tokens_of(data@, *sep),
            hit == begins(text@),
            all == done + tokens_from(data@.skip(i as int), *sep, data@.subrange(
                start as int,
                i as int,
            )),
            forall|j: int| 0 <= j < done.len() ==> !hit(#[trigger] done[j]),
            matching == data@.subrange(start as int, i as int).is_prefix_of(text@),
        decreases data@.len() - i,
    {
        let ghost open = data@.subrange(start as int, i as int);
        let ghost rest = data@.skip(i as int);
        proof {
            assert(rest[0] == data@[i as int]);
            assert(rest.drop_first() =~= data@.skip(i + 1));
        }
        if data[i].same(sep) {
            if i > start {
                if matching {
                    proof {
                        let tail = tokens_from(data@.skip(i + 1), *sep, Seq::empty());
                        assert(all =~= done + (seq![open] + tail));
                        assert(all[place as int] == open);
                        assert forall|j: int| 0 <= j < place implies !hit(#[trigger] all[j]) by {
                            assert(all[j] == done[j]);
                        }
                        lemma_first_hit_at(all, hit, place as int);
                    }
                    return Some((place, i - start));
                }
                proof {
                    let tail = tokens_from(data@.skip(i + 1), *sep, Seq::empty());
                    assert(done + (seq![open] + tail) =~= done.push(open) + tail);
                    done = done.push(open);
                }
                place += 1;
            }
            start = i + 1;
            matching = true;
            proof {
                assert(data@.subrange(start as int, i + 1) =~= Seq::<T>::empty());
            }
        } else {
            let at: usize = i - start;
            proof {
                let grown = open.push(data@[i as int]);
                assert(data@.subrange(start as int, i + 1) =~= grown);
                if open.is_prefix_of(text@) && at < text@.len() && text@[at as int] == data@[i as int] {
                    assert(grown =~= text@.subrange(0, grown.len() as int));
                }
                if grown.is_prefix_of(text@) {
                    assert(open =~= text@.subrange(0, open.len() as int));
                    assert(grown[at as int] == text@[at as int]);
                }
            }
            matching = matching && at < text.len() && text[at].same(&data[i]);
        }
        i += 1;
    }
    let ghost open = data@.subrange(start as int, i as int);
    proof {
        assert(data@.skip(i as int).len() == 0);
    }
    if i > start && matching {
        proof {
            assert(all =~= done.push(open));
            assert(all[place as int] == open);
            assert forall|j: int| 0 <= j < place implies !hit(#[trigger] all[j]) by {
                assert(all[j] == done[j]);
            }
            lemma_first_hit_at(all, hit, place as int);
        }
        return Some((place, i - start));
    }
    proof {
        assert forall|j: int| 0 <= j < all.len() implies !hit(#[trigger] all[j]) by {
            if j < done.len() {
                assert(all[j] == done[j]);
            } else {
                assert(all[j] == open);
            }
        }
        lemma_first_hit_none(all, hit);
    }
    None
}

/// Where the tokens of `data` stand: the place of the first unit of each,
/// and of the unit behind its last.
pub fn token_ranges<T: Symbol>(data: &[T], sep: &T) -> (ranges: Vec<(usize, usize)>)
    ensures
        ranges@.len() == tokens_of(data@, *sep).len(),
        forall|k: int|
            0 <= k < ranges@.len() ==> {
                let r = #[trigger] ranges@[k];
                r.0 < r.1 <= data@.len() && data@.subrange(r.0 as int, r.1 as int) == tokens_of(
                    data@,
                    *sep,
                )[k]
            },
        forall|k: int|
            0 <= k < ranges@.len() ==> {
                let r = #[trigger] ranges@[k];
                (r.0 == 0 || data@[r.0 - 1] == *sep) && (r.1 == data@.len() || data@[r.1 as int]
                    == *sep)
            },
        forall|k: int, j: int|
            #![trigger ranges@[k], ranges@[j]]
            0 <= k < j < ranges@.len() ==> ranges@[k].1 < ranges@[j].0,
{
    let ghost all = tokens_of(data@, *sep);
    let ghost mut done: Seq<Seq<T>> = Seq::empty();
    let mut ranges: Vec<(usize, usize)> = Vec::new();
    let mut start: usize = 0;
    let mut i: usize = 0;
    proof {
        assert(data@.skip(0) =~= data@);
        assert(data@.subrange(0, 0) =~= Seq::<T>::empty());
        assert(done + tokens_from(data@, *sep, Seq::empty()) =~= all);
    }
    while i < data.len()
        invariant
            start <= i <= data@.len(),
            ranges@.len() == done.len(),
            all == done + tokens_from(data@.skip(i as int), *sep, data@.subrange(
                start as int,
                i as int,
            )),
            start == 0 || data@[start - 1] == *sep,
            forall|k: int|
                0 <= k < ranges@.len() ==> {
                    let r = #[trigger] ranges@[k];
                    r.0 < r.1 <= data@.len() && data@.subrange(r.0 as int, r.1 as int) == done[k]
                },
            forall|k: int|
                0 <= k < ranges@.len() ==> {
                    let r = #[trigger] ranges@[k];
                    (r.0 == 0 || data@[r.0 - 1] == *sep) && r.1 < start && data@[r.1 as int]
                        == *sep
                },
            forall|k: int, j: int|
                #![trigger ranges@[k], ranges@[j]]
                0 <= k < j < ranges@.len() ==> ranges@[k].1 < ranges@[j].0,
        decreases data@.len() - i,
    {
        let ghost open = data@.subrange(start as int, i as int);
        let ghost rest = data@.skip(i as int);
        proof {
            assert(rest[0] == data@[i as int]);
            assert(rest.drop_first() =~= data@.skip(i + 1));
        }
        if data[i].same(sep) {
            if i > start {
                proof {
                    let tail = tokens_from(data@.skip(i + 1), *sep, Seq::empty());
                    assert(done + (seq![open] + tail) =~= done.push(open) + tail);
                    done = done.push(open);
                }
                ranges.push((start, i));
            }
            start = i + 1;
            proof {
                assert(data@.subrange(start as int, i + 1) =~= Seq::<T>::empty());
            }
        } else {
            proof {
                assert(data@.subrange(start as int, i + 1) =~= open.push(data@[i as int]));
            }
        }
        i += 1;
    }
    let ghost open = data@.subrange(start as int, i as int);
    proof {
        assert(data@.skip(i as int).len() == 0);
    }
    if i > start {
        proof {
            assert(all =~= done.push(open));
            done = done.push(open);
        }
        ranges.push((start, i));
    } else {
        assert(all =~= done);
    }
    ranges
}

} // verus!
