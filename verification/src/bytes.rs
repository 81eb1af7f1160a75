//! Searching in byte strings: the names of directory entries and the texts of
//! errors are compared as bytes.

use vstd::prelude::*;

verus! {

/// `pat` stands in `s` from position `at` on.
pub open spec fn occurs_at(s: Seq<u8>, pat: Seq<u8>, at: int) -> bool {
    &&& 0 <= at
    &&& at + pat.len() <= s.len()
    &&& s.subrange(at, at + pat.len()) == pat
}

/// `tail` fills the last `tail.len()` positions of `s`.
pub open spec fn has_suffix(s: Seq<u8>, tail: Seq<u8>) -> bool {
    occurs_at(s, tail, s.len() - tail.len())
}

/// `pat` stands somewhere in `s`.
pub open spec fn has_infix(s: Seq<u8>, pat: Seq<u8>) -> bool {
    exists|at: int| occurs_at(s, pat, at)
}

/// Whether `pat` stands in `s` from position `at` on.
pub fn matches_at(s: &[u8], pat: &[u8], at: usize) -> (r: bool)
    ensures
        r == occurs_at(s@, pat@, at as int),
{
    if at > s.len() || pat.len() > s.len() - at {
        return false;
    }
    let mut i: usize = 0;
    while i < pat.len()
        invariant
            at + pat.len() <= s.len(),
            i <= pat.len(),
            forall|j: int| 0 <= j < i ==> s@[at + j] == pat@[j],
        decreases pat.len() - i,
    {
        if s[at + i] != pat[i] {
            assert(s@.subrange(at as int, at + pat.len())[i as int] != pat@[i as int]);
            return false;
        }
        i += 1;
    }
    assert(s@.subrange(at as int, at + pat.len()) =~= pat@);
    true
}

/// Whether `s` ends with `tail`.
pub fn ends_with(s: &[u8], tail: &[u8]) -> (r: bool)
    ensures
        r == has_suffix(s@, tail@),
{
    if tail.len() > s.len() {
        return false;
    }
    matches_at(s, tail, s.len() - tail.len())
}

/// Whether `pat` stands somewhere in `s`.
pub fn contains_bytes(s: &[u8], pat: &[u8]) -> (r: bool)
    ensures
        r == has_infix(s@, pat@),
{
    if pat.len() > s.len() {
        return false;
    }
    let last: usize = s.len() - pat.len();
    let mut at: usize = 0;
    loop
        invariant
            last + pat.len() == s.len(),
            at <= last,
            forall|k: int| 0 <= k < at ==> !occurs_at(s@, pat@, k),
        decreases last - at,
    {
        if matches_at(s, pat, at) {
            return true;
        }
        if at == last {
            return false;
        }
        at += 1;
    }
}

/// Whether `a` and `b` hold the same bytes.
pub fn same_bytes(a: &[u8], b: &[u8]) -> (r: bool)
    ensures
        r == (a@ == b@),
{
    if a.len() != b.len() {
        return false;
    }
    let r = matches_at(a, b, 0);
    assert(a@.subrange(0, a@.len() as int) =~= a@);
    r
}

} // verus!
