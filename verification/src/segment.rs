//! Segment numbers in request paths.
//!
//! The path of a segment reads `<dir>/<stem>_<digits>.ts`, on one line: the
//! file's name ends in an underscore, the segment's number in decimal digits
//! and the extension `.ts`, and at least one slash stands before the
//! underscore. `<dir>` and `<stem>` may hold anything but a line break, and
//! either may be empty.

use vstd::prelude::*;
use crate::decimal::{all_digits, decimal_u32, decimal_value, is_digit, is_digit_char, parse_digits};
use crate::text::{chars_of, has_char};

verus! {

/// The extension that every segment file carries.
pub open spec fn segment_extension() -> Seq<char> {
    seq!['.', 't', 's']
}

/// The path ends in the segment extension.
pub open spec fn has_segment_extension(path: Seq<char>) -> bool {
    path.len() >= 3 && path.subrange(path.len() - 3, path.len() as int) == segment_extension()
}

/// `path` reads `dir`, a slash, `stem`, an underscore, `digits` and the
/// segment extension, where `digits` is a run of one or more decimal digits
/// and neither `dir` nor `stem` holds a line break.
pub open spec fn splits_as_segment(
    path: Seq<char>,
    dir: Seq<char>,
    stem: Seq<char>,
    digits: Seq<char>,
) -> bool {
    &&& path == dir + seq!['/'] + stem + seq!['_'] + digits + segment_extension()
    &&& !dir.contains('\n')
    &&& !stem.contains('\n')
    &&& digits.len() > 0
    &&& all_digits(digits)
}

/// `path` names a segment whose number is written `digits`.
pub open spec fn is_segment_path(path: Seq<char>, digits: Seq<char>) -> bool {
    exists|dir: Seq<char>, stem: Seq<char>| splits_as_segment(path, dir, stem, digits)
}

/// The index at which the digit run that ends `s` begins. Where `s` does not
/// end in a digit this is the length of `s`.
pub open spec fn trailing_digits_start(s: Seq<char>) -> int
    decreases s.len(),
{
    if s.len() > 0 && is_digit(s.last()) {
        trailing_digits_start(s.drop_last())
    } else {
        s.len() as int
    }
}

/// The digits of the segment that `path` names, if it names one: the digit
/// run that ends the file name before the extension, provided that an
/// underscore stands before the run, a slash somewhere before the
/// underscore, and no line break anywhere.
pub open spec fn segment_digits(path: Seq<char>) -> Option<Seq<char>> {
    if has_segment_extension(path) {
        let name = path.take(path.len() - 3);
        let start = trailing_digits_start(name);
        if 0 < start < name.len() && name[start - 1] == '_' && name.take(start - 1).contains('/')
            && !path.contains('\n') {
            Some(name.skip(start))
        } else {
            None
        }
    } else {
        None
    }
}

/// The number of the segment that `path` names. It is absent where `path`
/// names no segment, and also where the digits stand for a number that a
/// `u32` cannot hold.
pub open spec fn segment_number(path: Seq<char>) -> Option<u32> {
    match segment_digits(path) {
        Some(digits) => decimal_u32(digits),
        None => None,
    }
}

/// The digit run that ends `pre + digits` begins where `digits` begins,
/// where `pre` does not itself end in a digit.
proof fn trailing_digits_after(pre: Seq<char>, digits: Seq<char>)
    requires
        all_digits(digits),
        pre.len() == 0 || !is_digit(pre.last()),
    ensures
        trailing_digits_start(pre + digits) == pre.len(),
    decreases digits.len(),
{
    if digits.len() == 0 {
        assert(pre + digits == pre);
    } else {
        assert((pre + digits).drop_last() == pre + digits.drop_last());
        assert((pre + digits).last() == digits.last());
        trailing_digits_after(pre, digits.drop_last());
    }
}

/// From where the trailing digit run begins, `s` holds digits only.
proof fn trailing_digits_are_digits(s: Seq<char>)
    ensures
        0 <= trailing_digits_start(s) <= s.len(),
        all_digits(s.skip(trailing_digits_start(s))),
    decreases s.len(),
{
    if s.len() > 0 && is_digit(s.last()) {
        trailing_digits_are_digits(s.drop_last());
        let start = trailing_digits_start(s);
        let run = s.skip(start);
        assert forall|i: int| 0 <= i < run.len() implies is_digit(#[trigger] run[i]) by {
            if i < run.len() - 1 {
                assert(run[i] == s.drop_last().skip(start)[i]);
            }
        }
    }
}

/// A path that splits into directory, stem and digits yields those digits,
/// whichever split is taken.
pub proof fn split_path_gives_digits(
    path: Seq<char>,
    dir: Seq<char>,
    stem: Seq<char>,
    digits: Seq<char>,
)
    requires
        splits_as_segment(path, dir, stem, digits),
    ensures
        segment_digits(path) == Some(digits),
{
    let n = path.len() as int;
    let pre = dir + seq!['/'] + stem + seq!['_'];
    let name = path.take(n - 3);
    assert(path.subrange(n - 3, n) == segment_extension());
    assert(name == pre + digits);
    trailing_digits_after(pre, digits);
    let start = trailing_digits_start(name);
    assert(name.take(start - 1) == dir + seq!['/'] + stem);
    assert(name.take(start - 1)[dir.len() as int] == '/');
    assert(name.skip(start) == digits);
    assert forall|i: int| 0 <= i < path.len() implies path[i] != '\n' by {
        if i < dir.len() {
            assert(dir[i] == path[i]);
        } else if i == dir.len() {
        } else if i < dir.len() + 1 + stem.len() {
            assert(stem[i - dir.len() - 1] == path[i]);
        } else if i == pre.len() - 1 {
        } else if i < name.len() {
            assert(is_digit(digits[i - pre.len()]));
        } else {
            assert(path[i] == segment_extension()[i - name.len()]);
        }
    }
}

/// Digits are found only in a path that splits into directory, stem and
/// those digits.
pub proof fn digits_come_from_split_path(path: Seq<char>)
    requires
        segment_digits(path) is Some,
    ensures
        is_segment_path(path, segment_digits(path)->0),
{
    let n = path.len() as int;
    let name = path.take(n - 3);
    let start = trailing_digits_start(name);
    let digits = name.skip(start);
    let head = name.take(start - 1);
    trailing_digits_are_digits(name);
    let k = choose|k: int| 0 <= k < head.len() && head[k] == '/';
    let dir = head.take(k);
    let stem = head.skip(k + 1);
    assert(path == dir + seq!['/'] + stem + seq!['_'] + digits + segment_extension()) by {
        let joined = dir + seq!['/'] + stem + seq!['_'] + digits + segment_extension();
        assert(path.subrange(n - 3, n) == segment_extension());
        assert(joined.len() == path.len());
        assert forall|i: int| 0 <= i < path.len() implies path[i] == joined[i] by {
            if i < k {
                assert(dir[i] == head[i]);
            } else if i == k {
            } else if i < start - 1 {
                assert(stem[i - k - 1] == head[i]);
            } else if i == start - 1 {
            } else if i < n - 3 {
                assert(digits[i - start] == name[i]);
            } else {
                assert(path.subrange(n - 3, n)[i - (n - 3)] == path[i]);
            }
        }
    }
    assert(!dir.contains('\n')) by {
        if dir.contains('\n') {
            let i = choose|i: int| 0 <= i < dir.len() && dir[i] == '\n';
            assert(path[i] == '\n');
        }
    }
    assert(!stem.contains('\n')) by {
        if stem.contains('\n') {
            let i = choose|i: int| 0 <= i < stem.len() && stem[i] == '\n';
            assert(path[i + k + 1] == '\n');
        }
    }
    assert(splits_as_segment(path, dir, stem, digits));
}

/// A path names one segment at most: however it is split, the digits are
/// the same. Of several digit runs in a file name only the last one, which
/// ends at the extension, counts.
pub proof fn segment_digits_are_unique(path: Seq<char>, digits: Seq<char>, other: Seq<char>)
    requires
        is_segment_path(path, digits),
        is_segment_path(path, other),
    ensures
        digits == other,
{
    let (dir, stem) = choose|dir: Seq<char>, stem: Seq<char>|
        splits_as_segment(path, dir, stem, digits);
    split_path_gives_digits(path, dir, stem, digits);
    let (dir2, stem2) = choose|dir: Seq<char>, stem: Seq<char>|
        splits_as_segment(path, dir, stem, other);
    split_path_gives_digits(path, dir2, stem2, other);
}

/// A split can always cut at the last slash before the underscore: what then
/// stands between slash and underscore is part of the file's own name and
/// holds no slash.
pub proof fn split_can_cut_at_last_slash(
    path: Seq<char>,
    dir: Seq<char>,
    stem: Seq<char>,
    digits: Seq<char>,
)
    requires
        splits_as_segment(path, dir, stem, digits),
    ensures
        exists|parent: Seq<char>, name: Seq<char>|
            splits_as_segment(path, parent, name, digits) && !name.contains('/'),
    decreases stem.len(),
{
    if stem.contains('/') {
        let k = choose|k: int| 0 <= k < stem.len() && stem[k] == '/';
        let parent = dir + seq!['/'] + stem.take(k);
        let name = stem.skip(k + 1);
        assert(parent + seq!['/'] + name == dir + seq!['/'] + stem) by {
            assert(stem == stem.take(k) + seq!['/'] + name);
        }
        assert(path == parent + seq!['/'] + name + seq!['_'] + digits + segment_extension());
        assert(!parent.contains('\n')) by {
            if parent.contains('\n') {
                let i = choose|i: int| 0 <= i < parent.len() && parent[i] == '\n';
                if i < dir.len() {
                    assert(dir[i] == '\n');
                } else {
                    assert(stem[i - dir.len() - 1] == '\n');
                }
            }
        }
        assert(!name.contains('\n')) by {
            if name.contains('\n') {
                let i = choose|i: int| 0 <= i < name.len() && name[i] == '\n';
                assert(stem[i + k + 1] == '\n');
            }
        }
        split_can_cut_at_last_slash(path, parent, name, digits);
    }
}

/// Every path of the form `<dir>/<stem>_<digits>.ts` has the value of
/// `<digits>` as its segment number, as long as a `u32` can hold that value.
pub proof fn segment_path_has_its_number(path: Seq<char>, digits: Seq<char>)
    requires
        is_segment_path(path, digits),
        decimal_value(digits) <= u32::MAX,
    ensures
        segment_number(path) == Some(decimal_value(digits) as u32),
{
    let (dir, stem) = choose|dir: Seq<char>, stem: Seq<char>|
        splits_as_segment(path, dir, stem, digits);
    split_path_gives_digits(path, dir, stem, digits);
}

/// A segment path whose digits stand for more than a `u32` can hold has no
/// segment number.
pub proof fn oversized_number_is_absent(path: Seq<char>, digits: Seq<char>)
    requires
        is_segment_path(path, digits),
        decimal_value(digits) > u32::MAX,
    ensures
        segment_number(path) is None,
{
    let (dir, stem) = choose|dir: Seq<char>, stem: Seq<char>|
        splits_as_segment(path, dir, stem, digits);
    split_path_gives_digits(path, dir, stem, digits);
}

/// A path that is not of the form `<dir>/<stem>_<digits>.ts` has no segment
/// number.
pub proof fn other_path_has_no_number(path: Seq<char>)
    requires
        forall|digits: Seq<char>| !is_segment_path(path, digits),
    ensures
        segment_number(path) is None,
{
    if segment_digits(path) is Some {
        digits_come_from_split_path(path);
    }
}

/// Tells whether the path with the characters `chars` ends in the segment
/// extension.
pub fn ends_in_segment_extension(chars: &Vec<char>) -> (b: bool)
    ensures
        b == has_segment_extension(chars@),
{
    let n = chars.len();
    if n < 3 {
        return false;
    }
    let ghost tail = chars@.subrange(n - 3, n as int);
    assert(tail[0] == chars@[n - 3] && tail[1] == chars@[n - 2] && tail[2] == chars@[n - 1]);
    let b = chars[n - 3] == '.' && chars[n - 2] == 't' && chars[n - 1] == 's';
    assert(b ==> tail == segment_extension());
    b
}

/// Extracts the segment number from the characters of a request path.
pub fn segment_num_of_chars(chars: &Vec<char>) -> (r: Option<u32>)
    ensures
        r == segment_number(chars@),
{
    if !ends_in_segment_extension(chars) {
        return None;
    }
    let n = chars.len();
    let end = n - 3;
    let ghost name = chars@.take(end as int);
    let mut start = end;
    assert(name.take(end as int) == name);
    while start > 0 && is_digit_char(chars[start - 1])
        invariant
            start <= end,
            end + 3 == chars.len(),
            name == chars@.take(end as int),
            trailing_digits_start(name) == trailing_digits_start(name.take(start as int)),
        decreases start,
    {
        assert(name.take(start as int).last() == chars@[start - 1]);
        assert(name.take(start as int).drop_last() == name.take(start - 1));
        start = start - 1;
    }
    assert(trailing_digits_start(name) == start) by {
        if start > 0 {
            assert(name.take(start as int).last() == chars@[start - 1]);
        }
    }
    if start == 0 || start == end || chars[start - 1] != '_' {
        return None;
    }
    assert(name[start - 1] == chars@[start - 1]);
    assert(chars@.subrange(0, start - 1) == name.take(start - 1));
    assert(chars@.subrange(0, n as int) == chars@);
    if !has_char(chars, 0, start - 1, '/') || has_char(chars, 0, n, '\n') {
        return None;
    }
    assert(chars@.subrange(start as int, end as int) == name.skip(start as int));
    parse_digits(chars, start, end)
}

/// Extracts the segment number from a request path: the number that the
/// digits of `<dir>/<stem>_<digits>.ts` stand for. The result is `None` for
/// a path of any other form, and for digits that stand for more than a
/// `u32` can hold.
pub fn get_segment_num(input: &str) -> (r: Option<u32>)
    ensures
        r == segment_number(input@),
        forall|digits: Seq<char>| is_segment_path(input@, digits) ==> r == decimal_u32(digits),
        (forall|digits: Seq<char>| !is_segment_path(input@, digits)) ==> r is None,
{
    proof {
        assert forall|digits: Seq<char>| is_segment_path(input@, digits) implies segment_number(
            input@,
        ) == decimal_u32(digits) by {
            let (dir, stem) = choose|dir: Seq<char>, stem: Seq<char>|
                splits_as_segment(input@, dir, stem, digits);
            split_path_gives_digits(input@, dir, stem, digits);
        }
        if forall|digits: Seq<char>| !is_segment_path(input@, digits) {
            other_path_has_no_number(input@);
        }
    }
    let chars = chars_of(input);
    segment_num_of_chars(&chars)
}

} // verus!
