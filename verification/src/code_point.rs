//! Glyph identities and their canonical order.

use crate::text::{chars_of, push_char};
use vstd::prelude::*;

verus! {

/// What a glyph stands for: one scalar value, or a ligature of two or more.
#[derive(Debug, Clone, PartialEq, Eq)]
pub enum CodePoint {
    Single(char),
    Ligature(String),
}

/// Lexicographic order of scalar sequences; a proper prefix comes first.
pub open spec fn lex_lt(a: Seq<char>, b: Seq<char>) -> bool
    decreases a.len(),
{
    if a.len() == 0 || b.len() == 0 {
        a.len() < b.len()
    } else if a[0] != b[0] {
        a[0] < b[0]
    } else {
        lex_lt(a.drop_first(), b.drop_first())
    }
}

/// The canonical order of identities, each given by its scalar values: single
/// scalars first, by value; then ligatures, the longer first, and those of
/// one length lexicographically.
pub open spec fn ident_lt(a: Seq<char>, b: Seq<char>) -> bool {
    if a.len() <= 1 && b.len() <= 1 {
        lex_lt(a, b)
    } else if a.len() <= 1 || b.len() <= 1 {
        a.len() <= 1
    } else {
        a.len() > b.len() || (a.len() == b.len() && lex_lt(a, b))
    }
}

/// `ident_lt` as a value, for sorting.
pub open spec fn ident_order() -> spec_fn(Seq<char>, Seq<char>) -> bool {
    |a: Seq<char>, b: Seq<char>| ident_lt(a, b)
}

/// Of two sequences at most one comes before the other.
pub proof fn lemma_lex_asymmetric(a: Seq<char>, b: Seq<char>)
    requires
        lex_lt(a, b),
    ensures
        !lex_lt(b, a),
    decreases a.len(),
{
    if a.len() > 0 && b.len() > 0 && a[0] == b[0] {
        lemma_lex_asymmetric(a.drop_first(), b.drop_first());
    }
}

/// What comes before a sequence comes before all that the sequence comes before.
pub proof fn lemma_lex_transitive(a: Seq<char>, b: Seq<char>, c: Seq<char>)
    requires
        lex_lt(a, b),
        lex_lt(b, c),
    ensures
        lex_lt(a, c),
    decreases a.len(),
{
    if a.len() > 0 && b.len() > 0 && c.len() > 0 && a[0] == b[0] && b[0] == c[0] {
        lemma_lex_transitive(a.drop_first(), b.drop_first(), c.drop_first());
    }
}

/// Of two different sequences one comes before the other.
pub proof fn lemma_lex_total(a: Seq<char>, b: Seq<char>)
    ensures
        lex_lt(a, b) || lex_lt(b, a) || a == b,
    decreases a.len(),
{
    if a.len() > 0 && b.len() > 0 && a[0] == b[0] {
        lemma_lex_total(a.drop_first(), b.drop_first());
        if a.drop_first() == b.drop_first() {
            assert(a =~= seq![a[0]] + a.drop_first());
            assert(b =~= seq![b[0]] + b.drop_first());
        }
    } else if a.len() == 0 && b.len() == 0 {
        assert(a =~= b);
    }
}

/// Of two identities at most one precedes the other.
pub proof fn lemma_ident_asymmetric(a: Seq<char>, b: Seq<char>)
    requires
        ident_lt(a, b),
    ensures
        !ident_lt(b, a),
{
    if lex_lt(a, b) {
        lemma_lex_asymmetric(a, b);
    }
}

/// The canonical order is transitive.
pub proof fn lemma_ident_transitive(a: Seq<char>, b: Seq<char>, c: Seq<char>)
    requires
        ident_lt(a, b),
        ident_lt(b, c),
    ensures
        ident_lt(a, c),
{
    if lex_lt(a, b) && lex_lt(b, c) {
        lemma_lex_transitive(a, b, c);
    }
}

/// Of two different identities one precedes the other.
pub proof fn lemma_ident_total(a: Seq<char>, b: Seq<char>)
    ensures
        ident_lt(a, b) || ident_lt(b, a) || a == b,
{
    lemma_lex_total(a, b);
}

/// The canonical order, as `sort_by` takes it, is asymmetric.
pub proof fn lemma_ident_order_asymmetric()
    ensures
        crate::sorting::asymmetric(ident_order()),
{
    assert forall|a: Seq<char>, b: Seq<char>| #[trigger] ident_order()(a, b) implies !ident_order()(
        b,
        a,
    ) by {
        lemma_ident_asymmetric(a, b);
    }
}

/// Whether `a` comes before `b` lexicographically.
pub fn lex_precedes(a: &[char], b: &[char]) -> (r: bool)
    ensures
        r == lex_lt(a@, b@),
{
    let mut i: usize = 0;
    assert(a@.skip(0) =~= a@ && b@.skip(0) =~= b@);
    while i < a.len() && i < b.len()
        invariant
            i <= a@.len(),
            i <= b@.len(),
            lex_lt(a@, b@) == lex_lt(a@.skip(i as int), b@.skip(i as int)),
        decreases a@.len() - i,
    {
        let ghost ra = a@.skip(i as int);
        let ghost rb = b@.skip(i as int);
        assert(ra[0] == a@[i as int] && rb[0] == b@[i as int]);
        if a[i] != b[i] {
            return a[i] < b[i];
        }
        assert(ra.drop_first() =~= a@.skip(i + 1));
        assert(rb.drop_first() =~= b@.skip(i + 1));
        i += 1;
    }
    assert(a@.skip(i as int).len() == a@.len() - i);
    assert(b@.skip(i as int).len() == b@.len() - i);
    a.len() < b.len()
}

/// Whether the identity `a` comes before the identity `b` in canonical order.
pub fn ident_precedes(a: &[char], b: &[char]) -> (r: bool)
    ensures
        r == ident_lt(a@, b@),
{
    if a.len() <= 1 && b.len() <= 1 {
        lex_precedes(a, b)
    } else if a.len() <= 1 || b.len() <= 1 {
        a.len() <= 1
    } else {
        a.len() > b.len() || (a.len() == b.len() && lex_precedes(a, b))
    }
}

impl CodePoint {
    /// The scalar values that make up the identity.
    pub open spec fn scalars(&self) -> Seq<char> {
        match self {
            CodePoint::Single(c) => seq![*c],
            CodePoint::Ligature(s) => s@,
        }
    }

    /// A ligature has at least two scalar values.
    pub open spec fn wf(&self) -> bool {
        match self {
            CodePoint::Single(_) => true,
            CodePoint::Ligature(s) => s@.len() >= 2,
        }
    }

    /// Whether a ligature has at least two scalar values.
    pub fn is_wf(&self) -> (r: bool)
        ensures
            r == self.wf(),
    {
        match self {
            CodePoint::Single(_) => true,
            CodePoint::Ligature(s) => s.as_str().unicode_len() >= 2,
        }
    }

    /// Whether `self` comes before `other` in canonical order.
    pub open spec fn spec_precedes(&self, other: &CodePoint) -> bool {
        ident_lt(self.scalars(), other.scalars())
    }

    /// The identity for a sequence of scalar values: none for the empty
    /// sequence, a single for one value, a ligature for more.
    pub fn from_scalars(scalars: &[char]) -> (r: Option<CodePoint>)
        ensures
            r is Some <==> scalars@.len() > 0,
            r matches Some(cp) ==> cp.wf() && cp.scalars() == scalars@ && (cp is Single
                <==> scalars@.len() == 1),
    {
        if scalars.len() == 0 {
            None
        } else if scalars.len() == 1 {
            assert(scalars@ =~= seq![scalars@[0]]);
            Some(CodePoint::Single(scalars[0]))
        } else {
            Some(CodePoint::Ligature(crate::text::string_of(scalars)))
        }
    }

    /// The scalar values that make up the identity.
    pub fn chars(&self) -> (v: Vec<char>)
        ensures
            v@ == self.scalars(),
    {
        match self {
            CodePoint::Single(c) => {
                let mut v: Vec<char> = Vec::new();
                v.push(*c);
                assert(v@ =~= seq![*c]);
                v
            },
            CodePoint::Ligature(s) => chars_of(s.as_str()),
        }
    }

    /// The identity as text.
    pub fn as_string(&self) -> (s: String)
        ensures
            s@ == self.scalars(),
    {
        match self {
            CodePoint::Single(c) => {
                let mut s = String::new();
                push_char(&mut s, *c);
                assert(s@ =~= seq![*c]);
                s
            },
            CodePoint::Ligature(s) => s.clone(),
        }
    }

    /// Whether `self` comes before `other` in canonical order.
    pub fn precedes(&self, other: &CodePoint) -> (r: bool)
        ensures
            r == self.spec_precedes(other),
    {
        let a = self.chars();
        let b = other.chars();
        ident_precedes(a.as_slice(), b.as_slice())
    }
}

/// Every single scalar comes before every ligature.
pub proof fn lemma_single_precedes_ligature(a: CodePoint, b: CodePoint)
    requires
        a is Single,
        b is Ligature,
        b.wf(),
    ensures
        a.spec_precedes(&b),
        !b.spec_precedes(&a),
{
}

/// Single scalars are ordered by value.
pub proof fn lemma_singles_by_value(x: char, y: char)
    ensures
        CodePoint::Single(x).spec_precedes(&CodePoint::Single(y)) <==> x < y,
{
    let a = seq![x];
    let b = seq![y];
    assert(a[0] == x && b[0] == y);
    assert(a.drop_first().len() == 0 && b.drop_first().len() == 0);
    reveal_with_fuel(lex_lt, 2);
}

/// Of two ligatures of different length, the longer comes first.
pub proof fn lemma_longer_ligature_first(a: CodePoint, b: CodePoint)
    requires
        a is Ligature,
        b is Ligature,
        a.wf(),
        b.wf(),
        a.scalars().len() > b.scalars().len(),
    ensures
        a.spec_precedes(&b),
        !b.spec_precedes(&a),
{
}

} // verus!
