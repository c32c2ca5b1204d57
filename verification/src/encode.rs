//! Encoding the glyph order of a font as strings: the index from scalar
//! values to glyphs, and the list of ligatures.

use crate::codepoint_index::{index_count, lookup, run_len, RANGE_MARKER};
use crate::text::lemma_char_range;
use vstd::prelude::*;

verus! {

/// Whether `b` is the scalar value that follows `a`.
pub open spec fn follows(a: char, b: char) -> bool {
    b as int == a as int + 1
}

/// The length of the longest run of consecutive scalar values that `s`
/// starts with.
pub open spec fn run_length(s: Seq<char>) -> int
    decreases s.len(),
{
    if s.len() <= 1 {
        s.len() as int
    } else if follows(s[0], s[1]) {
        1 + run_length(s.drop_first())
    } else {
        1
    }
}

/// The token for a run from `start` to `end`: the scalar value alone for a
/// run of one, else the marker, the start and the end.
pub open spec fn run_token(start: char, end: char) -> Seq<char> {
    if start == end {
        seq![start]
    } else {
        seq![RANGE_MARKER, start, end]
    }
}

/// The encoded index of scalar values, given in glyph order: one token for
/// each longest run of consecutive values.
pub open spec fn encoded_index(s: Seq<char>) -> Seq<char>
    decreases s.len(),
{
    if s.len() == 0 {
        Seq::empty()
    } else {
        let n = run_length(s);
        if 1 <= n <= s.len() {
            run_token(s[0], s[n - 1]) + encoded_index(s.skip(n))
        } else {
            Seq::empty()
        }
    }
}

/// `s` starts with a run of exactly `n` consecutive values.
pub proof fn lemma_run_length(s: Seq<char>, n: int)
    requires
        1 <= n <= s.len(),
        forall|i: int| 0 <= i < n - 1 ==> follows(#[trigger] s[i], s[i + 1]),
        n == s.len() || !follows(s[n - 1], s[n]),
    ensures
        run_length(s) == n,
    decreases s.len(),
{
    if n > 1 {
        let rest = s.drop_first();
        assert(follows(s[0], s[1]));
        assert forall|i: int| 0 <= i < n - 2 implies follows(#[trigger] rest[i], rest[i + 1]) by {
            assert(follows(s[i + 1], s[i + 1 + 1]));
        }
        lemma_run_length(rest, n - 1);
    }
}

/// The run that `s` starts with: its length, and that it rises by one from
/// value to value.
pub proof fn lemma_run(s: Seq<char>)
    requires
        s.len() > 0,
    ensures
        1 <= run_length(s) <= s.len(),
        forall|i: int| 0 <= i < run_length(s) ==> (#[trigger] s[i]) as int == s[0] as int + i,
        run_length(s) == s.len() || !follows(s[run_length(s) - 1], s[run_length(s)]),
    decreases s.len(),
{
    if s.len() > 1 && follows(s[0], s[1]) {
        let rest = s.drop_first();
        lemma_run(rest);
        assert forall|i: int| 0 <= i < run_length(s) implies (#[trigger] s[i]) as int == s[0] as int
            + i by {
            if i > 0 {
                assert(rest[i - 1] == s[i]);
            }
        }
    }
}

/// The tokens of an index, with `c` looked up behind a first token.
proof fn lemma_lookup_token(start: char, end: char, rest: Seq<char>, base: int, c: char)
    requires
        start <= end,
        start == end ==> start != RANGE_MARKER,
    ensures
        lookup(run_token(start, end) + rest, base, c) == if start <= c <= end {
            Some(base + (c as int - start as int))
        } else {
            lookup(rest, base + run_len(start, end), c)
        },
        index_count(run_token(start, end) + rest) == run_len(start, end) + index_count(rest),
{
    let all = run_token(start, end) + rest;
    if start == end {
        assert(all[0] == start);
        assert(all.skip(1) =~= rest);
    } else {
        assert(all[0] == RANGE_MARKER && all[1] == start && all[2] == end);
        assert(all.skip(3) =~= rest);
    }
}

/// In the encoded index of distinct scalar values, none of them the
/// marker, each value has the index at which it stands.
pub proof fn lemma_encoded_index_finds(s: Seq<char>, base: int, k: int)
    requires
        s.no_duplicates(),
        !s.contains(RANGE_MARKER),
        0 <= k < s.len(),
    ensures
        lookup(encoded_index(s), base, s[k]) == Some(base + k),
    decreases s.len(),
{
    lemma_run(s);
    let n = run_length(s);
    let rest = s.skip(n);
    lemma_char_range(s[0]);
    lemma_char_range(s[n - 1]);
    assert(s.contains(s[0]));
    assert(s[n - 1] as int == s[0] as int + (n - 1));
    lemma_lookup_token(s[0], s[n - 1], encoded_index(rest), base, s[k]);
    if k < n {
        assert(s[k] as int == s[0] as int + k);
    } else {
        if s[0] <= s[k] <= s[n - 1] {
            let j = s[k] as int - s[0] as int;
            assert(s[j] as int == s[0] as int + j);
            assert(s[j] == s[k]);
        }
        assert(rest[k - n] == s[k]);
        assert forall|i: int, j: int| 0 <= i < rest.len() && 0 <= j < rest.len() && i != j implies rest[i]
            != rest[j] by {
            assert(rest[i] == s[i + n] && rest[j] == s[j + n]);
        }
        assert(!rest.contains(RANGE_MARKER)) by {
            if rest.contains(RANGE_MARKER) {
                let i = choose|i: int| 0 <= i < rest.len() && rest[i] == RANGE_MARKER;
                assert(s[i + n] == RANGE_MARKER);
            }
        }
        lemma_encoded_index_finds(rest, base + n, k - n);
    }
}

/// The encoded index of scalar values, none of them the marker, holds no
/// other value, and takes one glyph index for each.
pub proof fn lemma_encoded_index_misses(s: Seq<char>, base: int, c: char)
    requires
        !s.contains(RANGE_MARKER),
        !s.contains(c),
    ensures
        lookup(encoded_index(s), base, c) is None,
    decreases s.len(),
{
    if s.len() > 0 {
        lemma_run(s);
        let n = run_length(s);
        let rest = s.skip(n);
        lemma_char_range(s[0]);
        lemma_char_range(s[n - 1]);
        assert(s.contains(s[0]));
        assert(s[n - 1] as int == s[0] as int + (n - 1));
        lemma_lookup_token(s[0], s[n - 1], encoded_index(rest), base, c);
        if s[0] <= c <= s[n - 1] {
            let j = c as int - s[0] as int;
            assert(s[j] as int == s[0] as int + j);
            assert(s[j] == c);
        }
        assert forall|i: int| 0 <= i < rest.len() implies rest[i] != RANGE_MARKER && rest[i] != c by {
            assert(rest[i] == s[i + n]);
            assert(s.contains(s[i + n]));
        }
        lemma_encoded_index_misses(rest, base + n, c);
    }
}

/// The encoded index of scalar values, none of them the marker, takes one
/// glyph index for each.
pub proof fn lemma_encoded_index_count(s: Seq<char>)
    requires
        !s.contains(RANGE_MARKER),
    ensures
        index_count(encoded_index(s)) == s.len(),
    decreases s.len(),
{
    if s.len() > 0 {
        lemma_run(s);
        let n = run_length(s);
        let rest = s.skip(n);
        lemma_char_range(s[0]);
        lemma_char_range(s[n - 1]);
        assert(s.contains(s[0]));
        assert(s[n - 1] as int == s[0] as int + (n - 1));
        lemma_lookup_token(s[0], s[n - 1], encoded_index(rest), 0, s[0]);
        assert forall|i: int| 0 <= i < rest.len() implies rest[i] != RANGE_MARKER by {
            assert(rest[i] == s[i + n]);
            assert(s.contains(s[i + n]));
        }
        lemma_encoded_index_count(rest);
    }
}

/// Whether `b` is the scalar value that follows `a`.
fn is_next(a: char, b: char) -> (r: bool)
    ensures
        r == follows(a, b),
{
    proof {
        lemma_char_range(a);
        lemma_char_range(b);
    }
    b as u32 == a as u32 + 1
}

/// The encoded index of the scalar values of single-scalar glyphs, given in
/// glyph order.
pub fn encode_index(singles: &[char]) -> (tokens: Vec<char>)
    ensures
        tokens@ == encoded_index(singles@),
{
    let mut tokens: Vec<char> = Vec::new();
    let mut start: usize = 0;
    assert(singles@.skip(0) =~= singles@);
    while start < singles.len()
        invariant
            start <= singles@.len(),
            encoded_index(singles@) == tokens@ + encoded_index(singles@.skip(start as int)),
        decreases singles@.len() - start,
    {
        let ghost rest = singles@.skip(start as int);
        let mut end: usize = start + 1;
        while end < singles.len() && is_next(singles[end - 1], singles[end])
            invariant
                start < end <= singles@.len(),
                rest == singles@.skip(start as int),
                forall|i: int| 0 <= i < end - start - 1 ==> follows(#[trigger] rest[i], rest[i + 1]),
            decreases singles@.len() - end,
        {
            proof {
                lemma_char_range(singles@[end as int]);
                lemma_char_range(singles@[end - 1]);
                assert(rest[end - start] == singles@[end as int]);
                assert(rest[end - start - 1] == singles@[end - 1]);
            }
            end += 1;
        }
        proof {
            if end < singles@.len() {
                lemma_char_range(singles@[end as int]);
                lemma_char_range(singles@[end - 1]);
                assert(rest[end - start] == singles@[end as int]);
                assert(rest[end - start - 1] == singles@[end - 1]);
            }
            lemma_run_length(rest, end - start);
            assert(rest.skip(end - start) =~= singles@.skip(end as int));
            assert(rest[0] == singles@[start as int]);
            assert(rest[end - start - 1] == singles@[end - 1]);
        }
        let ghost before = tokens@;
        if end - start == 1 {
            tokens.push(singles[start]);
            assert(tokens@ =~= before + run_token(singles@[start as int], singles@[end - 1]));
        } else {
            proof {
                if singles@[start as int] == singles@[end - 1] {
                    lemma_run(rest);
                }
            }
            tokens.push(RANGE_MARKER);
            tokens.push(singles[start]);
            tokens.push(singles[end - 1]);
            assert(tokens@ =~= before + run_token(singles@[start as int], singles@[end - 1]));
        }
        assert(tokens@ + encoded_index(singles@.skip(end as int)) =~= before + (run_token(
            singles@[start as int],
            singles@[end - 1],
        ) + encoded_index(singles@.skip(end as int))));
        start = end;
    }
    assert(tokens@ + Seq::<char>::empty() =~= tokens@);
    tokens
}

} // verus!

verus! {

/// The scalar value that stands before each ligature of an encoded list.
pub const LIGATURE_MARKER: char = crate::ligature_substitution::LIGATURE_SEPARATOR;

/// The encoded list of ligatures, given in glyph order: for each in turn,
/// the separator and its scalar values.
pub open spec fn encoded_ligatures(ligatures: Seq<Seq<char>>) -> Seq<char>
    decreases ligatures.len(),
{
    if ligatures.len() == 0 {
        Seq::empty()
    } else {
        encoded_ligatures(ligatures.drop_last()) + seq![LIGATURE_MARKER] + ligatures.last()
    }
}

/// The scalar sequences of ligatures.
pub open spec fn ligature_views(ligatures: Seq<Vec<char>>) -> Seq<Seq<char>> {
    ligatures.map_values(|l: Vec<char>| l@)
}

/// An encoded list starts with its first ligature, behind a separator.
proof fn lemma_encoded_ligatures_front(ligatures: Seq<Seq<char>>)
    requires
        ligatures.len() > 0,
    ensures
        encoded_ligatures(ligatures) == seq![LIGATURE_MARKER] + ligatures[0] + encoded_ligatures(
            ligatures.drop_first(),
        ),
    decreases ligatures.len(),
{
    let init = ligatures.drop_last();
    if init.len() == 0 {
        assert(ligatures.drop_first() =~= Seq::<Seq<char>>::empty());
        assert(encoded_ligatures(init) =~= Seq::<char>::empty());
        assert(encoded_ligatures(ligatures.drop_first()) =~= Seq::<char>::empty());
        assert(ligatures.last() == ligatures[0]);
        assert(encoded_ligatures(ligatures) =~= seq![LIGATURE_MARKER] + ligatures[0]
            + encoded_ligatures(ligatures.drop_first()));
    } else {
        lemma_encoded_ligatures_front(init);
        assert(init.drop_first() =~= ligatures.drop_first().drop_last());
        assert(init[0] == ligatures[0]);
        assert(ligatures.drop_first().last() == ligatures.last());
        assert(encoded_ligatures(ligatures) =~= seq![LIGATURE_MARKER] + ligatures[0]
            + encoded_ligatures(ligatures.drop_first()));
    }
}

/// Units without a separator, read behind a begun token, lengthen that token.
proof fn lemma_tokens_through(token: Seq<char>, rest: Seq<char>, open: Seq<char>)
    requires
        !token.contains(LIGATURE_MARKER),
    ensures
        crate::tokens::tokens_from(token + rest, LIGATURE_MARKER, open)
            == crate::tokens::tokens_from(rest, LIGATURE_MARKER, open + token),
    decreases token.len(),
{
    if token.len() == 0 {
        assert(token + rest =~= rest);
        assert(open + token =~= open);
    } else {
        let all = token + rest;
        assert(all[0] == token[0]);
        assert(token.contains(token[0]));
        assert(all.drop_first() =~= token.drop_first() + rest);
        assert(!token.drop_first().contains(LIGATURE_MARKER)) by {
            if token.drop_first().contains(LIGATURE_MARKER) {
                let i = choose|i: int|
                    0 <= i < token.drop_first().len() && token.drop_first()[i] == LIGATURE_MARKER;
                assert(token[i + 1] == LIGATURE_MARKER);
            }
        }
        lemma_tokens_through(token.drop_first(), rest, open.push(token[0]));
        assert(open.push(token[0]) + token.drop_first() =~= open + token);
    }
}

proof fn lemma_encoded_ligatures_tokens(ligatures: Seq<Seq<char>>, open: Seq<char>)
    requires
        forall|k: int|
            0 <= k < ligatures.len() ==> (#[trigger] ligatures[k]).len() > 0
                && !ligatures[k].contains(LIGATURE_MARKER),
    ensures
        crate::tokens::tokens_from(encoded_ligatures(ligatures), LIGATURE_MARKER, open)
            == crate::tokens::closed_token(open) + ligatures,
    decreases ligatures.len(),
{
    if ligatures.len() == 0 {
        assert(crate::tokens::closed_token(open) + ligatures =~= crate::tokens::closed_token(open));
    } else {
        lemma_encoded_ligatures_front(ligatures);
        let first = ligatures[0];
        let tail = ligatures.drop_first();
        let behind = first + encoded_ligatures(tail);
        let all = encoded_ligatures(ligatures);
        assert(all =~= seq![LIGATURE_MARKER] + behind);
        assert(all[0] == LIGATURE_MARKER);
        assert(all.drop_first() =~= behind);
        lemma_tokens_through(first, encoded_ligatures(tail), Seq::empty());
        assert(Seq::<char>::empty() + first =~= first);
        assert forall|k: int| 0 <= k < tail.len() implies (#[trigger] tail[k]).len() > 0
            && !tail[k].contains(LIGATURE_MARKER) by {
            assert(tail[k] == ligatures[k + 1]);
        }
        lemma_encoded_ligatures_tokens(tail, first);
        assert(crate::tokens::closed_token(open) + (seq![first] + tail)
            =~= crate::tokens::closed_token(open) + ligatures);
    }
}

/// The tokens of an encoded list of ligatures are the ligatures, where each
/// has a scalar value at least and none holds the separator.
pub proof fn lemma_ligatures_round_trip(ligatures: Seq<Seq<char>>)
    requires
        forall|k: int|
            0 <= k < ligatures.len() ==> (#[trigger] ligatures[k]).len() > 0
                && !ligatures[k].contains(LIGATURE_MARKER),
    ensures
        crate::tokens::tokens_of(encoded_ligatures(ligatures), LIGATURE_MARKER) == ligatures,
{
    lemma_encoded_ligatures_tokens(ligatures, Seq::empty());
    assert(crate::tokens::closed_token(Seq::<char>::empty()) + ligatures =~= ligatures);
}

/// The encoded list of ligatures, given in glyph order.
pub fn encode_ligatures(ligatures: &[Vec<char>]) -> (list: Vec<char>)
    ensures
        list@ == encoded_ligatures(ligature_views(ligatures@)),
{
    let ghost views = ligature_views(ligatures@);
    let mut list: Vec<char> = Vec::new();
    let mut k: usize = 0;
    assert(views.take(0) =~= Seq::<Seq<char>>::empty());
    while k < ligatures.len()
        invariant
            k <= ligatures@.len(),
            views == ligature_views(ligatures@),
            list@ == encoded_ligatures(views.take(k as int)),
        decreases ligatures@.len() - k,
    {
        let ligature = &ligatures[k];
        let ghost before = list@;
        list.push(LIGATURE_MARKER);
        let mut i: usize = 0;
        while i < ligature.len()
            invariant
                i <= ligature@.len(),
                list@ == before + seq![LIGATURE_MARKER] + ligature@.take(i as int),
            decreases ligature@.len() - i,
        {
            list.push(ligature[i]);
            assert(ligature@.take(i + 1) =~= ligature@.take(i as int).push(ligature@[i as int]));
            i += 1;
        }
        proof {
            assert(ligature@.take(i as int) =~= ligature@);
            assert(views.take(k + 1).drop_last() =~= views.take(k as int));
            assert(views.take(k + 1).last() == ligature@);
        }
        k += 1;
    }
    assert(views.take(k as int) =~= views);
    list
}

} // verus!
