//! Names as rows of characters: prefixes, suffixes and equality.

use vstd::prelude::*;

verus! {

/// The characters of `s`, in order.
pub fn chars_of(s: &str) -> (v: Vec<char>)
    ensures
        v@ == s@,
{
    let mut v: Vec<char> = Vec::new();
    for c in it: s.chars()
        invariant
            v@ == it.seq().take(it.index() as int),
    {
        v.push(c);
    }
    v
}

/// Whether `s` begins with the characters of `p`.
pub fn has_prefix(s: &Vec<char>, p: &Vec<char>) -> (r: bool)
    ensures
        r == p@.is_prefix_of(s@),
{
    if p.len() > s.len() {
        return false;
    }
    let mut i: usize = 0;
    while i < p.len()
        invariant
            i <= p.len() <= s.len(),
            forall|j: int| 0 <= j < i ==> p@[j] == s@[j],
        decreases p.len() - i,
    {
        if p[i] != s[i] {
            return false;
        }
        i += 1;
    }
    true
}

/// Whether `s` ends with the characters of `p`.
pub fn has_suffix(s: &Vec<char>, p: &Vec<char>) -> (r: bool)
    ensures
        r == p@.is_suffix_of(s@),
{
    if p.len() > s.len() {
        return false;
    }
    let shift: usize = s.len() - p.len();
    let mut i: usize = 0;
    while i < p.len()
        invariant
            i <= p.len() <= s.len(),
            shift == s.len() - p.len(),
            forall|j: int| 0 <= j < i ==> p@[j] == s@[shift + j],
        decreases p.len() - i,
    {
        if p[i] != s[shift + i] {
            return false;
        }
        i += 1;
    }
    true
}

/// Whether `a` and `b` hold the same characters.
pub fn same_chars(a: &Vec<char>, b: &Vec<char>) -> (r: bool)
    ensures
        r == (a@ == b@),
{
    if a.len() != b.len() {
        return false;
    }
    let mut i: usize = 0;
    while i < a.len()
        invariant
            i <= a.len(),
            a.len() == b.len(),
            forall|j: int| 0 <= j < i ==> a@[j] == b@[j],
        decreases a.len() - i,
    {
        if a[i] != b[i] {
            return false;
        }
        i += 1;
    }
    assert(a@ =~= b@);
    true
}

/// Whether `a` and `b` are the same text.
pub fn equals(a: &str, b: &str) -> (r: bool)
    ensures
        r == (a@ == b@),
{
    let ac = chars_of(a);
    let bc = chars_of(b);
    same_chars(&ac, &bc)
}

/// Whether `s` ends with one of `suffixes`.
pub open spec fn ends_with_any(s: Seq<char>, suffixes: Seq<&str>) -> bool {
    exists|i: int| 0 <= i < suffixes.len() && (#[trigger] suffixes[i])@.is_suffix_of(s)
}

/// Whether `s` ends with one of the strings in `arr`.
pub fn ends_with(s: &str, arr: &[&str]) -> (r: bool)
    ensures
        r == ends_with_any(s@, arr@),
{
    let sc = chars_of(s);
    let mut i: usize = 0;
    while i < arr.len()
        invariant
            i <= arr.len(),
            sc@ == s@,
            forall|j: int| 0 <= j < i ==> !(#[trigger] arr@[j])@.is_suffix_of(s@),
        decreases arr.len() - i,
    {
        let pc = chars_of(arr[i]);
        if has_suffix(&sc, &pc) {
            return true;
        }
        i += 1;
    }
    false
}

} // verus!
