//! Character-level access to string slices.

use vstd::prelude::*;

verus! {

/// Collects the characters of `s`, in order.
pub fn chars_of(s: &str) -> (chars: Vec<char>)
    ensures
        chars@ == s@,
{
    let mut chars: Vec<char> = Vec::new();
    for c in it: s.chars()
        invariant
            chars@ == it.seq().take(it.index() as int),
            it.seq() == s@,
    {
        chars.push(c);
    }
    chars
}

/// Tells whether `c` occurs among the characters of `chars` from `start` up
/// to `end`.
pub fn has_char(chars: &Vec<char>, start: usize, end: usize, c: char) -> (found: bool)
    requires
        start <= end <= chars.len(),
    ensures
        found == chars@.subrange(start as int, end as int).contains(c),
{
    let ghost part = chars@.subrange(start as int, end as int);
    let mut i: usize = start;
    while i < end
        invariant
            start <= i <= end <= chars.len(),
            part == chars@.subrange(start as int, end as int),
            forall|j: int| 0 <= j < i - start ==> part[j] != c,
        decreases end - i,
    {
        if chars[i] == c {
            assert(part[i - start] == c);
            return true;
        }
        i = i + 1;
    }
    false
}

} // verus!
