//! Finding the ligature that a text starts with.

use crate::table::first_hit;
use crate::text::chars_of;
use crate::tokens::{begins, find_token, lemma_tokens_from, token_ranges, tokens_of};
use vstd::prelude::*;
use vstd::slice::slice_subrange;
use vstd::string::StringSliceAdditionalSpecFns;

verus! {

/// The scalar value that separates the ligatures of a list.
pub const LIGATURE_SEPARATOR: char = '\0';

/// The glyph index and the length of the first ligature of `tokens` that
/// `text` starts with, where the first ligature has the index `offset`.
pub open spec fn first_ligature<T>(tokens: Seq<Seq<T>>, offset: int, text: Seq<T>) -> Option<
    (int, int),
> {
    match first_hit(tokens, begins(text)) {
        Some(k) => Some((offset + k, tokens[k].len() as int)),
        None => None,
    }
}

/// The ligatures of a font: their scalar sequences in one string, with a
/// separator before each, in the order of their glyphs, and the glyph index
/// of the first.
#[derive(Debug, Clone, Copy, PartialEq)]
pub struct StrLigatureSubstitution<'a> {
    data: &'a str,
    offset: usize,
}

impl<'a> StrLigatureSubstitution<'a> {
    /// The list of ligatures as it is stored.
    pub closed spec fn data(&self) -> Seq<char> {
        self.data@
    }

    /// The glyph index of the first ligature.
    pub closed spec fn offset(&self) -> usize {
        self.offset
    }

    /// The ligatures, as scalar sequences, in the order of their glyphs.
    pub open spec fn tokens(&self) -> Seq<Seq<char>> {
        tokens_of(self.data(), LIGATURE_SEPARATOR)
    }

    /// The ligatures, as bytes of UTF-8, in the order of their glyphs.
    pub open spec fn byte_tokens(&self) -> Seq<Seq<u8>> {
        tokens_of(vstd::utf8::encode_utf8(self.data()), 0u8)
    }

    /// Each ligature has a glyph index that `usize` holds.
    pub open spec fn wf(&self) -> bool {
        self.offset() + self.tokens().len() <= usize::MAX
    }

    /// Each ligature, counted by the bytes of the list, has a glyph index
    /// that `usize` holds.
    pub open spec fn bytes_wf(&self) -> bool {
        self.offset() + self.byte_tokens().len() <= usize::MAX
    }

    /// The glyph index and the length, in scalar values, of the ligature
    /// that `text` starts with: the first in the list that does.
    pub open spec fn spec_substitute(&self, text: Seq<char>) -> Option<(int, int)> {
        first_ligature(self.tokens(), self.offset() as int, text)
    }

    /// Creates a list of ligatures.
    pub fn new(data: &'a str, offset: usize) -> (s: Self)
        ensures
            s.data() == data@,
            s.offset() == offset,
    {
        Self { data, offset }
    }

    /// The list of ligatures as it is stored.
    pub fn scalars(&self) -> (v: Vec<char>)
        ensures
            v@ == self.data(),
    {
        chars_of(self.data)
    }

    /// The number of ligatures.
    pub fn count(&self) -> (r: usize)
        ensures
            r == self.tokens().len(),
    {
        let list = self.scalars();
        token_ranges(list.as_slice(), &LIGATURE_SEPARATOR).len()
    }

    /// The glyph index of the first ligature.
    pub fn first_index(&self) -> (r: usize)
        ensures
            r == self.offset(),
    {
        self.offset
    }

    /// The ligatures as bytes of UTF-8, in the order of their glyphs.
    pub fn ligatures(&self) -> (r: Vec<&'a [u8]>)
        ensures
            r@.len() == self.byte_tokens().len(),
            forall|k: int| 0 <= k < r@.len() ==> (#[trigger] r@[k])@ == self.byte_tokens()[k],
    {
        let bytes = self.data.as_bytes();
        let ranges = token_ranges(bytes, &0u8);
        let mut r: Vec<&'a [u8]> = Vec::new();
        let mut k: usize = 0;
        while k < ranges.len()
            invariant
                k <= ranges@.len(),
                r@.len() == k,
                bytes@ == vstd::utf8::encode_utf8(self.data()),
                ranges@.len() == self.byte_tokens().len(),
                forall|j: int|
                    0 <= j < ranges@.len() ==> {
                        let range = #[trigger] ranges@[j];
                        range.0 < range.1 <= bytes@.len() && bytes@.subrange(
                            range.0 as int,
                            range.1 as int,
                        ) == self.byte_tokens()[j]
                    },
                forall|j: int| 0 <= j < k ==> (#[trigger] r@[j])@ == self.byte_tokens()[j],
            decreases ranges@.len() - k,
        {
            let range = ranges[k];
            r.push(slice_subrange(bytes, range.0, range.1));
            k += 1;
        }
        r
    }

    /// The glyph index of the ligature that the bytes of `text` start with,
    /// and what of `text` is left behind it; the first ligature of the list
    /// that `text` starts with is taken.
    pub fn substitute(&self, text: &'a [u8]) -> (r: Option<(usize, &'a [u8])>)
        requires
            self.bytes_wf(),
        ensures
            match first_ligature(self.byte_tokens(), self.offset() as int, text@) {
                Some((index, length)) => r matches Some((i, rest)) && i == index && length
                    <= text@.len() && rest@ == text@.skip(length),
                None => r is None,
            },
    {
        let bytes = self.data.as_bytes();
        proof {
            assert(bytes@ == vstd::utf8::encode_utf8(self.data()));
            crate::table::lemma_first_hit_is_first(self.byte_tokens(), begins(text@));
        }
        match find_token(bytes, &0u8, text) {
            Some((place, length)) => {
                proof {
                    assert(text@.subrange(length as int, text@.len() as int) =~= text@.skip(
                        length as int,
                    ));
                }
                Some((self.offset + place, slice_subrange(text, length, text.len())))
            },
            None => None,
        }
    }

    /// The glyph index of the ligature that `text` starts with, and how many
    /// scalar values it takes; the first ligature of the list that `text`
    /// starts with is taken.
    pub fn substitute_chars(&self, text: &[char]) -> (r: Option<(usize, usize)>)
        requires
            self.wf(),
        ensures
            match self.spec_substitute(text@) {
                Some((index, length)) => r == Some((index as usize, length as usize)) && 2
                    <= 1 + length <= text@.len() + 1,
                None => r is None,
            },
    {
        let list = self.scalars();
        match_ligature(list.as_slice(), self.offset, text)
    }
}

/// The glyph index of the ligature of `list` that `text` starts with, and how
/// many scalar values it takes, where the first ligature of the list has the
/// index `offset`.
pub fn match_ligature(list: &[char], offset: usize, text: &[char]) -> (r: Option<(usize, usize)>)
    requires
        offset + tokens_of(list@, LIGATURE_SEPARATOR).len() <= usize::MAX,
    ensures
        match first_ligature(tokens_of(list@, LIGATURE_SEPARATOR), offset as int, text@) {
            Some((index, length)) => r == Some((index as usize, length as usize)) && 1 <= length
                <= text@.len(),
            None => r is None,
        },
{
    proof {
        lemma_tokens_from(list@, LIGATURE_SEPARATOR, Seq::empty());
        crate::table::lemma_first_hit_is_first(
            tokens_of(list@, LIGATURE_SEPARATOR),
            begins(text@),
        );
    }
    match find_token(list, &LIGATURE_SEPARATOR, text) {
        Some((place, length)) => Some((offset + place, length)),
        None => None,
    }
}

} // verus!
