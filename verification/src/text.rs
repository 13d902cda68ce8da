//! Comparisons of text, character by character.
use vstd::prelude::*;

verus! {

/// `s` with every leading copy of a non-empty `p` removed, as `str::trim_start_matches` does.
pub open spec fn strip_prefix_repeatedly(s: Seq<char>, p: Seq<char>) -> Seq<char>
    decreases s.len(),
{
    if p.len() > 0 && p.is_prefix_of(s) {
        strip_prefix_repeatedly(s.skip(p.len() as int), p)
    } else {
        s
    }
}

/// Whether two pieces of text hold the same characters.
pub fn text_equals(a: &str, b: &str) -> (r: bool)
    ensures
        r == (a@ == b@),
{
    let x = String::from_str(a);
    let y = String::from_str(b);
    x == y
}

/// Whether `text` begins with `prefix`, as `str::starts_with` answers.
pub fn starts_with(text: &str, prefix: &str) -> (r: bool)
    ensures
        r == prefix@.is_prefix_of(text@),
{
    let n = text.unicode_len();
    let m = prefix.unicode_len();
    if m > n {
        return false;
    }
    let mut i: usize = 0;
    while i < m
        invariant
            m <= n,
            n == text@.len(),
            m == prefix@.len(),
            i <= m,
            forall|j: int| 0 <= j < i ==> prefix@[j] == text@[j],
        decreases m - i,
    {
        if prefix.get_char(i) != text.get_char(i) {
            assert(prefix@[i as int] != text@.subrange(0, m as int)[i as int]);
            return false;
        }
        i = i + 1;
    }
    assert(prefix@ =~= text@.subrange(0, m as int));
    true
}

/// `text` with every leading copy of `prefix` removed, as `str::trim_start_matches` returns it.
pub fn trim_start_matches(text: &str, prefix: &str) -> (r: String)
    ensures
        r@ == strip_prefix_repeatedly(text@, prefix@),
{
    let m = prefix.unicode_len();
    let mut rest = String::from_str(text);
    if m == 0 {
        return rest;
    }
    while starts_with(rest.as_str(), prefix)
        invariant
            m == prefix@.len(),
            m > 0,
            strip_prefix_repeatedly(rest@, prefix@) == strip_prefix_repeatedly(text@, prefix@),
        decreases rest@.len(),
    {
        let len = rest.as_str().unicode_len();
        let tail = String::from_str(rest.as_str().substring_char(m, len));
        assert(tail@ =~= rest@.skip(m as int));
        rest = tail;
    }
    rest
}

} // verus!
