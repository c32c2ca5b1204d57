//! Strings as sequences of scalar values.

use vstd::prelude::*;

verus! {

/// A scalar value is at most 0x10FFFF.
pub proof fn lemma_char_range(c: char)
    ensures
        0 <= c as int <= 0x10ffff,
{
}

/// The scalar values of a string, in order.
pub fn chars_of(s: &str) -> (v: Vec<char>)
    ensures
        v@ == s@,
{
    broadcast use vstd::string::group_string_axioms;

    let mut v: Vec<char> = Vec::new();
    for c in it: s.chars()
        invariant
            it.seq() == s@,
            v@ == s@.take(it.index() as int),
    {
        v.push(c);
    }
    v
}

/// Whether the scalar values of `s` are those of `id`.
pub fn str_is(s: &str, id: &[char]) -> (r: bool)
    ensures
        r == (s@ == id@),
{
    broadcast use vstd::string::group_string_axioms;

    let mut same: bool = true;
    let mut n: usize = 0;
    for c in it: s.chars()
        invariant
            it.seq() == s@,
            same ==> n == it.index(),
            same ==> it.index() <= id@.len() && s@.take(it.index() as int) == id@.take(
                it.index() as int,
            ),
            !same ==> s@ != id@,
    {
        let ghost i = it.index() as int;
        if same {
            if n < id.len() && id[n] == c {
                assert(s@.take(i + 1) =~= s@.take(i).push(s@[i]));
                assert(id@.take(i + 1) =~= id@.take(i).push(id@[i]));
                n += 1;
            } else {
                same = false;
            }
        }
    }
    proof {
        assert(s@.take(s@.len() as int) =~= s@);
        if same && s@.len() == id@.len() {
            assert(id@.take(s@.len() as int) =~= id@);
        }
    }
    same && n == id.len()
}

/// `String::push`: the string grows by the one scalar value given.
#[verifier::external_body]
pub(crate) fn push_char(s: &mut String, c: char)
    ensures
        final(s)@ == old(s)@.push(c),
{
    s.push(c)
}

/// The string that holds the scalar values of `v`, in order.
pub fn string_of(v: &[char]) -> (s: String)
    ensures
        s@ == v@,
{
    let mut s = String::new();
    let mut i: usize = 0;
    while i < v.len()
        invariant
            i <= v@.len(),
            s@ == v@.take(i as int),
        decreases v@.len() - i,
    {
        push_char(&mut s, v[i]);
        i += 1;
    }
    s
}

/// Every scalar value of `s` is below 128.
pub open spec fn all_ascii(s: Seq<char>) -> bool {
    forall|i: int| 0 <= i < s.len() ==> (#[trigger] s[i] as u32) < 128
}

/// Whether every scalar value of `v` is below 128.
pub fn is_all_ascii(v: &[char]) -> (r: bool)
    ensures
        r == all_ascii(v@),
{
    let mut i: usize = 0;
    while i < v.len()
        invariant
            i <= v@.len(),
            forall|j: int| 0 <= j < i ==> (#[trigger] v@[j] as u32) < 128,
        decreases v@.len() - i,
    {
        if v[i] as u32 >= 128 {
            return false;
        }
        i += 1;
    }
    true
}

/// Whether two sequences of scalar values are the same.
pub fn same_chars(a: &[char], b: &[char]) -> (r: bool)
    ensures
        r == (a@ == b@),
{
    if a.len() != b.len() {
        return false;
    }
    let mut i: usize = 0;
    while i < a.len()
        invariant
            a@.len() == b@.len(),
            i <= a@.len(),
            forall|j: int| 0 <= j < i ==> a@[j] == b@[j],
        decreases a@.len() - i,
    {
        if a[i] != b[i] {
            return false;
        }
        i += 1;
    }
    assert(a@ =~= b@);
    true
}

} // verus!
