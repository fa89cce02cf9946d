//! Decimal digit runs and their values.

use vstd::prelude::*;

verus! {

/// An ASCII decimal digit.
pub open spec fn is_digit(c: char) -> bool {
    '0' <= c && c <= '9'
}

/// The number that the digit `c` stands for.
pub open spec fn digit_value(c: char) -> nat {
    (c as u32 - '0' as u32) as nat
}

/// Every character of `s` is an ASCII decimal digit.
pub open spec fn all_digits(s: Seq<char>) -> bool {
    forall|i: int| 0 <= i < s.len() ==> is_digit(#[trigger] s[i])
}

/// The number written by the digit run `s`, most significant digit first.
/// The empty run stands for zero; leading zeros do not change the value.
pub open spec fn decimal_value(s: Seq<char>) -> nat
    decreases s.len(),
{
    if s.len() == 0 {
        0
    } else {
        10 * decimal_value(s.drop_last()) + digit_value(s.last())
    }
}

/// What a digit run denotes as a `u32`: its value, where the run is not
/// empty, holds digits only and the value fits.
pub open spec fn decimal_u32(s: Seq<char>) -> Option<u32> {
    if s.len() > 0 && all_digits(s) && decimal_value(s) <= u32::MAX {
        Some(decimal_value(s) as u32)
    } else {
        None
    }
}

/// A digit run is worth at least as much as each of its prefixes.
pub proof fn decimal_value_of_prefix(s: Seq<char>, k: int)
    requires
        0 <= k <= s.len(),
    ensures
        decimal_value(s.take(k)) <= decimal_value(s),
    decreases s.len(),
{
    if k == s.len() {
        assert(s.take(k) == s);
    } else {
        assert(s.drop_last().take(k) == s.take(k));
        decimal_value_of_prefix(s.drop_last(), k);
    }
}

/// Leading zeros do not change what a digit run is worth.
pub proof fn leading_zero_does_not_count(s: Seq<char>)
    ensures
        decimal_value(seq!['0'] + s) == decimal_value(s),
    decreases s.len(),
{
    let padded = seq!['0'] + s;
    if s.len() == 0 {
        assert(padded.drop_last() == Seq::<char>::empty());
        assert(decimal_value(padded.drop_last()) == 0);
    } else {
        assert(padded.drop_last() == seq!['0'] + s.drop_last());
        assert(padded.last() == s.last());
        leading_zero_does_not_count(s.drop_last());
    }
}

/// Tells whether `c` is an ASCII decimal digit.
pub fn is_digit_char(c: char) -> (b: bool)
    ensures
        b == is_digit(c),
{
    '0' <= c && c <= '9'
}

/// Reads the characters of `chars` from `start` up to `end` as one decimal
/// number.
pub fn parse_digits(chars: &Vec<char>, start: usize, end: usize) -> (r: Option<u32>)
    requires
        start <= end <= chars.len(),
    ensures
        r == decimal_u32(chars@.subrange(start as int, end as int)),
{
    let ghost run = chars@.subrange(start as int, end as int);
    if start == end {
        return None;
    }
    let mut acc: u32 = 0;
    let mut i: usize = start;
    while i < end
        invariant
            start <= i <= end <= chars.len(),
            run == chars@.subrange(start as int, end as int),
            all_digits(run.take(i - start)),
            acc == decimal_value(run.take(i - start)),
        decreases end - i,
    {
        let c = chars[i];
        assert(c == run[i - start]);
        if !is_digit_char(c) {
            return None;
        }
        let d: u32 = c as u32 - '0' as u32;
        let next: u64 = acc as u64 * 10 + d as u64;
        proof {
            let longer = run.take(i - start + 1);
            assert(longer.drop_last() == run.take(i - start));
            assert(longer.last() == c);
            assert(decimal_value(longer) == next);
            assert forall|j: int| 0 <= j < longer.len() implies is_digit(#[trigger] longer[j]) by {
                if j < i - start {
                    assert(longer[j] == run.take(i - start)[j]);
                }
            }
            decimal_value_of_prefix(run, i - start + 1);
        }
        if next > u32::MAX as u64 {
            return None;
        }
        acc = next as u32;
        i = i + 1;
    }
    assert(run.take(end - start) == run);
    Some(acc)
}

} // verus!
