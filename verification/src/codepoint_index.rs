//! The compact index from scalar values to glyph indices.

use vstd::prelude::*;

verus! {

/// The scalar value that marks a range in an encoded index.
pub const RANGE_MARKER: char = '\0';

/// The number of glyph indices that the range from `start` to `end` takes.
pub open spec fn run_len(start: char, end: char) -> int {
    if start <= end {
        end as int - start as int + 1
    } else {
        0
    }
}

/// The glyph index of `c` in the encoded index `tokens`, whose first token
/// has the index `base`.
///
/// A marker and the two scalar values behind it are a range, which takes
/// one index for each value from its start to its end; any other scalar
/// value is a token of its own and takes one index. The first token that
/// holds `c` decides. A marker with fewer than two values behind it ends
/// the index.
pub open spec fn lookup(tokens: Seq<char>, base: int, c: char) -> Option<int>
    decreases tokens.len(),
{
    if tokens.len() == 0 {
        None
    } else if tokens[0] == RANGE_MARKER {
        if tokens.len() < 3 {
            None
        } else if tokens[1] <= c <= tokens[2] {
            Some(base + (c as int - tokens[1] as int))
        } else {
            lookup(tokens.skip(3), base + run_len(tokens[1], tokens[2]), c)
        }
    } else if tokens[0] == c {
        Some(base)
    } else {
        lookup(tokens.skip(1), base + 1, c)
    }
}

/// The number of glyph indices that an encoded index takes.
pub open spec fn index_count(tokens: Seq<char>) -> int
    decreases tokens.len(),
{
    if tokens.len() == 0 {
        0
    } else if tokens[0] == RANGE_MARKER {
        if tokens.len() < 3 {
            0
        } else {
            run_len(tokens[1], tokens[2]) + index_count(tokens.skip(3))
        }
    } else {
        1 + index_count(tokens.skip(1))
    }
}

/// An index that `lookup` finds is one of those that the tokens take.
pub proof fn lemma_lookup_bounds(tokens: Seq<char>, base: int, c: char)
    ensures
        0 <= index_count(tokens),
        lookup(tokens, base, c) matches Some(i) ==> base <= i < base + index_count(tokens),
    decreases tokens.len(),
{
    if tokens.len() == 0 {
    } else if tokens[0] == RANGE_MARKER {
        if tokens.len() >= 3 {
            lemma_lookup_bounds(tokens.skip(3), base + run_len(tokens[1], tokens[2]), c);
        }
    } else {
        lemma_lookup_bounds(tokens.skip(1), base + 1, c);
    }
}

/// An index from scalar values to glyph indices, encoded as a string, with
/// the glyph that stands in for values that the string does not hold.
#[derive(Debug, Clone, Copy, PartialEq)]
pub struct CodepointIndex<'a> {
    data: &'a str,
    substitute_index: usize,
}

impl<'a> CodepointIndex<'a> {
    /// The encoded index.
    pub closed spec fn tokens(&self) -> Seq<char> {
        self.data@
    }

    /// The index of the substitute glyph.
    pub closed spec fn substitute_index(&self) -> usize {
        self.substitute_index
    }

    /// The glyph indices of the encoded index can be counted in `usize`.
    pub open spec fn wf(&self) -> bool {
        index_count(self.tokens()) <= usize::MAX
    }

    /// The glyph index of `c`: its index in the encoded index, or the
    /// substitute where the index does not hold it.
    pub open spec fn spec_index(&self, c: char) -> int {
        match lookup(self.tokens(), 0, c) {
            Some(i) => i,
            None => self.substitute_index() as int,
        }
    }

    /// An index with the given encoding and substitute.
    pub fn new(data: &'a str, substitute_index: usize) -> (index: Self)
        ensures
            index.tokens() == data@,
            index.substitute_index() == substitute_index,
    {
        Self { data, substitute_index }
    }

    /// The number of glyph indices that the encoded index takes; none where
    /// `usize` does not hold it.
    pub fn glyph_count(&self) -> (r: Option<usize>)
        ensures
            match r {
                Some(n) => n == index_count(self.tokens()),
                None => index_count(self.tokens()) > usize::MAX,
            },
    {
        broadcast use vstd::string::group_string_axioms;

        let ghost tokens = self.data@;
        let mut base: usize = 0;
        let mut state: u8 = 0;
        let mut start: char = RANGE_MARKER;
        proof {
            assert(tokens.skip(0) =~= tokens);
        }
        for t in it: self.data.chars()
            invariant
                it.seq() == tokens,
                tokens == self.data@,
                state <= 2,
                state <= it.index(),
                state == 1 ==> tokens[it.index() - 1] == RANGE_MARKER,
                state == 2 ==> tokens[it.index() - 2] == RANGE_MARKER && tokens[it.index() - 1]
                    == start,
                base + index_count(tokens.skip(it.index() - state)) == index_count(tokens),
        {
            let ghost i = it.index() as int;
            let ghost rest = tokens.skip(i - state);
            proof {
                crate::text::lemma_char_range(t);
                crate::text::lemma_char_range(start);
                assert(rest[0] == tokens[i - state]);
            }
            if state == 0 {
                if t == RANGE_MARKER {
                    state = 1;
                } else {
                    proof {
                        assert(rest.skip(1) =~= tokens.skip(i + 1));
                        lemma_lookup_bounds(tokens.skip(i + 1), 0, t);
                    }
                    if base == usize::MAX {
                        return None;
                    }
                    base += 1;
                }
            } else if state == 1 {
                start = t;
                state = 2;
            } else {
                proof {
                    assert(rest[1] == tokens[i - 1] && rest[2] == tokens[i]);
                    assert(rest.skip(3) =~= tokens.skip(i + 1));
                    lemma_lookup_bounds(tokens.skip(i + 1), 0, t);
                }
                if start <= t {
                    let run: usize = (t as u32 - start as u32) as usize + 1;
                    if run > usize::MAX - base {
                        return None;
                    }
                    base += run;
                }
                state = 0;
            }
        }
        proof {
            let rest = tokens.skip(tokens.len() - state);
            assert(rest.len() == state);
            if state > 0 {
                assert(rest[0] == tokens[tokens.len() - state]);
            }
        }
        Some(base)
    }

    /// The index of the substitute glyph.
    pub fn substitute(&self) -> (r: usize)
        ensures
            r == self.substitute_index(),
    {
        self.substitute_index
    }

    /// The glyph index of a character. Every character has one.
    pub fn index(&self, c: char) -> (r: usize)
        requires
            self.wf(),
        ensures
            r == self.spec_index(c),
    {
        broadcast use vstd::string::group_string_axioms;

        let ghost tokens = self.data@;
        let mut base: usize = 0;
        // 0: at a token; 1: behind a marker; 2: behind the start of a range
        let mut state: u8 = 0;
        let mut start: char = RANGE_MARKER;
        proof {
            assert(tokens.skip(0) =~= tokens);
            lemma_lookup_bounds(tokens, 0, c);
        }
        for t in it: self.data.chars()
            invariant
                it.seq() == tokens,
                tokens == self.data@,
                index_count(tokens) <= usize::MAX,
                state <= 2,
                state <= it.index(),
                state == 1 ==> tokens[it.index() - 1] == RANGE_MARKER,
                state == 2 ==> tokens[it.index() - 2] == RANGE_MARKER && tokens[it.index() - 1]
                    == start,
                lookup(tokens, 0, c) == lookup(tokens.skip(it.index() - state), base as int, c),
                base + index_count(tokens.skip(it.index() - state)) == index_count(tokens),
        {
            let ghost i = it.index() as int;
            let ghost rest = tokens.skip(i - state);
            proof {
                crate::text::lemma_char_range(t);
                crate::text::lemma_char_range(start);
                crate::text::lemma_char_range(c);
                assert(rest[0] == tokens[i - state]);
                lemma_lookup_bounds(rest, base as int, c);
            }
            if state == 0 {
                if t == RANGE_MARKER {
                    state = 1;
                } else if t == c {
                    return base;
                } else {
                    proof {
                        assert(rest.skip(1) =~= tokens.skip(i + 1));
                        lemma_lookup_bounds(tokens.skip(i + 1), base + 1, c);
                    }
                    base += 1;
                }
            } else if state == 1 {
                start = t;
                state = 2;
            } else {
                proof {
                    assert(rest[1] == tokens[i - 1] && rest[2] == tokens[i]);
                    assert(rest.skip(3) =~= tokens.skip(i + 1));
                    lemma_lookup_bounds(tokens.skip(i + 1), base + run_len(start, t), c);
                }
                if start <= c && c <= t {
                    return base + (c as u32 - start as u32) as usize;
                }
                if start <= t {
                    base += (t as u32 - start as u32) as usize + 1;
                }
                state = 0;
            }
        }
        proof {
            let rest = tokens.skip(tokens.len() - state);
            assert(rest.len() == state);
            if state > 0 {
                assert(rest[0] == tokens[tokens.len() - state]);
            }
        }
        self.substitute_index
    }
}

} // verus!
