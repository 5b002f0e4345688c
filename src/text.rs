//! Conversions between `str`/`String` and the character buffer the scanner reads.

use vstd::prelude::*;

verus! {

/// The characters of `s`, in order.
pub(crate) fn chars_of(s: &str) -> (r: Vec<char>)
    ensures
        r@ == s@,
{
    let mut v: Vec<char> = Vec::new();
    for c in it: s.chars()
        invariant
            v@ == it.seq().take(it.index() as int),
    {
        v.push(c);
    }
    assert(v@ =~= s@);
    v
}

/// Relies on `String::push`: the character is appended at the end.
#[verifier::external_body]
pub(crate) fn push_char(s: &mut String, c: char)
    ensures
        final(s)@ == old(s)@.push(c),
{
    s.push(c)
}

/// Appends `src[start..end]` to `s`.
pub(crate) fn push_range(s: &mut String, src: &Vec<char>, start: usize, end: usize)
    requires
        start <= end <= src@.len(),
    ensures
        final(s)@ == old(s)@ + src@.subrange(start as int, end as int),
{
    let mut i: usize = start;
    while i < end
        invariant
            start <= i <= end <= src@.len(),
            s@ == old(s)@ + src@.subrange(start as int, i as int),
        decreases end - i,
    {
        push_char(s, src[i]);
        i = i + 1;
        assert(s@ =~= old(s)@ + src@.subrange(start as int, i as int));
    }
}

/// A new string holding `src[start..end]`.
pub(crate) fn string_of(src: &Vec<char>, start: usize, end: usize) -> (r: String)
    requires
        start <= end <= src@.len(),
    ensures
        r@ == src@.subrange(start as int, end as int),
{
    let mut s = String::new();
    push_range(&mut s, src, start, end);
    assert(s@ =~= src@.subrange(start as int, end as int));
    s
}

/// Whether `src[start..end]` spells `word`.
pub(crate) fn word_at(src: &Vec<char>, start: usize, end: usize, word: &str) -> (r: bool)
    requires
        start <= end <= src@.len(),
    ensures
        r == (src@.subrange(start as int, end as int) == word@),
{
    let n = word.unicode_len();
    if end - start != n {
        return false;
    }
    let mut k: usize = 0;
    while k < n
        invariant
            start <= end <= src@.len(),
            end - start == n == word@.len(),
            k <= n,
            forall|j: int| 0 <= j < k ==> src@[start + j] == word@[j],
        decreases n - k,
    {
        if src[start + k] != word.get_char(k) {
            assert(src@.subrange(start as int, end as int)[k as int] != word@[k as int]);
            return false;
        }
        k = k + 1;
    }
    assert(src@.subrange(start as int, end as int) =~= word@);
    true
}

} // verus!
