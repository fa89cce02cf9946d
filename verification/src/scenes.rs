//! The list of cut scenes and the classification of a segment against it.
//!
//! The list arrives as one string of numbers separated by commas, such as
//! `3,10,42`. A segment is a cut scene when its number is on the list.

use vstd::prelude::*;
use crate::decimal::{decimal_u32, parse_digits};
use crate::text::chars_of;

verus! {

/// Why a segment could not be classified.
#[derive(Debug, Clone, Copy, PartialEq, Eq, Structural)]
pub enum ClassifyError {
    /// The configuration holds no scene list.
    KeyMissing,
    /// The token at index `token` of the scene list, counted from zero, is
    /// not a number. It is the first such token.
    ParseFailure { token: usize },
}

/// The tokens of `s`: the stretches between its commas, in order. A string
/// with `n` commas has `n + 1` tokens, some of which may be empty.
pub open spec fn split_commas(s: Seq<char>) -> Seq<Seq<char>>
    decreases s.len(),
{
    if s.len() == 0 {
        seq![Seq::empty()]
    } else {
        let before = split_commas(s.drop_last());
        if s.last() == ',' {
            before.push(Seq::empty())
        } else {
            before.drop_last().push(before.last().push(s.last()))
        }
    }
}

/// The number that a token stands for: a run of decimal digits, which a
/// plus sign may precede, with a value that fits a `u32`. Anything else,
/// the empty token and a token with blanks included, stands for no number.
pub open spec fn token_number(token: Seq<char>) -> Option<u32> {
    if token.len() > 0 && token[0] == '+' {
        decimal_u32(token.skip(1))
    } else {
        decimal_u32(token)
    }
}

/// Every token stands for a number.
pub open spec fn tokens_valid(tokens: Seq<Seq<char>>) -> bool {
    forall|i: int| 0 <= i < tokens.len() ==> token_number(#[trigger] tokens[i]) is Some
}

/// The token at index `i` stands for no number, and every token before it
/// stands for one.
pub open spec fn is_first_bad(tokens: Seq<Seq<char>>, i: int) -> bool {
    &&& 0 <= i < tokens.len()
    &&& token_number(tokens[i]) is None
    &&& forall|j: int| 0 <= j < i ==> token_number(#[trigger] tokens[j]) is Some
}

/// The index of the first token that stands for no number.
pub open spec fn first_bad_token(tokens: Seq<Seq<char>>) -> int {
    choose|i: int| is_first_bad(tokens, i)
}

/// The scene numbers that `raw` lists, in the order in which it lists them;
/// or the failure at the first token that is no number.
pub open spec fn scene_list(raw: Seq<char>) -> Result<Seq<u32>, ClassifyError> {
    let tokens = split_commas(raw);
    if tokens_valid(tokens) {
        Ok(Seq::new(tokens.len(), |i: int| token_number(tokens[i])->0))
    } else {
        Err(ClassifyError::ParseFailure { token: first_bad_token(tokens) as usize })
    }
}

/// Whether `segment` is a cut scene, given the scene list as the
/// configuration holds it (`None` where it holds none). A list that cannot
/// be read in full classifies nothing, even if `segment` stands before the
/// token that fails.
pub open spec fn cut_scene(segment: u32, scenes: Option<Seq<char>>) -> Result<bool, ClassifyError> {
    match scenes {
        None => Err(ClassifyError::KeyMissing),
        Some(raw) => match scene_list(raw) {
            Ok(list) => Ok(list.contains(segment)),
            Err(e) => Err(e),
        },
    }
}

/// At most one token is the first that stands for no number.
pub proof fn first_bad_is_unique(tokens: Seq<Seq<char>>, i: int, j: int)
    requires
        is_first_bad(tokens, i),
        is_first_bad(tokens, j),
    ensures
        i == j,
{
    if i < j {
        assert(token_number(tokens[i]) is Some);
    } else if j < i {
        assert(token_number(tokens[j]) is Some);
    }
}

/// A string has one token more than it has commas: never none, and never
/// more than its length plus one.
pub proof fn split_commas_len(s: Seq<char>)
    ensures
        1 <= split_commas(s).len() <= s.len() + 1,
    decreases s.len(),
{
    if s.len() > 0 {
        split_commas_len(s.drop_last());
    }
}

/// Reading more of a string changes none of its tokens but the last one
/// read so far.
pub proof fn split_commas_of_prefix(s: Seq<char>, k: int)
    requires
        0 <= k <= s.len(),
    ensures
        split_commas(s.take(k)).len() <= split_commas(s).len(),
        forall|j: int|
            0 <= j < split_commas(s.take(k)).len() - 1 ==> split_commas(s.take(k))[j]
                == split_commas(s)[j],
    decreases s.len(),
{
    if k == s.len() {
        assert(s.take(k) == s);
    } else {
        assert(s.drop_last().take(k) == s.take(k));
        split_commas_of_prefix(s.drop_last(), k);
        split_commas_len(s.drop_last());
        split_commas_len(s.take(k));
    }
}

/// The tokens joined again, with one comma between each two.
pub open spec fn join_commas(tokens: Seq<Seq<char>>) -> Seq<char>
    decreases tokens.len(),
{
    if tokens.len() == 0 {
        Seq::empty()
    } else if tokens.len() == 1 {
        tokens[0]
    } else {
        join_commas(tokens.drop_last()) + seq![','] + tokens.last()
    }
}

/// No token holds a comma.
pub open spec fn comma_free(tokens: Seq<Seq<char>>) -> bool {
    forall|i: int| 0 <= i < tokens.len() ==> !(#[trigger] tokens[i]).contains(',')
}

/// Splitting loses nothing: the tokens hold no comma, and joined with
/// commas they give the string back.
pub proof fn split_commas_rejoins(s: Seq<char>)
    ensures
        join_commas(split_commas(s)) == s,
        comma_free(split_commas(s)),
    decreases s.len(),
{
    if s.len() > 0 {
        let before = split_commas(s.drop_last());
        let tokens = split_commas(s);
        let c = s.last();
        split_commas_rejoins(s.drop_last());
        split_commas_len(s.drop_last());
        assert(s == s.drop_last().push(c));
        if c == ',' {
            assert(tokens.drop_last() == before);
            assert(join_commas(tokens) == s);
            assert forall|i: int| 0 <= i < tokens.len() implies !(#[trigger] tokens[i]).contains(
                ',',
            ) by {
                if i < before.len() {
                    assert(tokens[i] == before[i]);
                }
            }
        } else {
            let grown = before.last().push(c);
            assert(!grown.contains(',')) by {
                if grown.contains(',') {
                    let k = choose|k: int| 0 <= k < grown.len() && grown[k] == ',';
                    assert(before.last()[k] == ',');
                }
            }
            if before.len() == 1 {
                assert(join_commas(tokens) == s);
            } else {
                assert(tokens.drop_last() == before.drop_last());
                assert(join_commas(tokens) == join_commas(before.drop_last()) + seq![','] + grown);
                assert(join_commas(tokens) == join_commas(before).push(c));
            }
            assert forall|i: int| 0 <= i < tokens.len() implies !(#[trigger] tokens[i]).contains(
                ',',
            ) by {
                if i < before.len() - 1 {
                    assert(tokens[i] == before[i]);
                }
            }
        }
    }
}

/// Splitting is the only way to cut a string at its commas: a list of
/// tokens that hold no comma and join to `s` is the list of the tokens of
/// `s`.
pub proof fn split_commas_is_unique(s: Seq<char>, tokens: Seq<Seq<char>>)
    requires
        tokens.len() >= 1,
        comma_free(tokens),
        join_commas(tokens) == s,
    ensures
        tokens == split_commas(s),
    decreases s.len(),
{
    let last = tokens.last();
    if tokens.len() >= 2 {
        assert(join_commas(tokens) == join_commas(tokens.drop_last()) + seq![','] + last);
    }
    if s.len() == 0 {
        assert(tokens.len() == 1);
        assert(tokens[0] == Seq::<char>::empty());
        assert(tokens == seq![Seq::<char>::empty()]);
    } else {
        let c = s.last();
        let before = split_commas(s.drop_last());
        if last.len() == 0 {
            assert(tokens.len() >= 2);
            let rest = tokens.drop_last();
            assert(c == ',');
            assert(s.drop_last() == join_commas(rest));
            assert forall|i: int| 0 <= i < rest.len() implies !(#[trigger] rest[i]).contains(
                ',',
            ) by {
                assert(rest[i] == tokens[i]);
            }
            split_commas_is_unique(s.drop_last(), rest);
            assert(last == Seq::<char>::empty());
            assert(tokens == rest.push(last));
        } else {
            assert(c == last.last());
            assert(c != ',') by {
                assert(tokens[tokens.len() - 1].contains(',') ==> false);
                assert(last[last.len() - 1] == c);
            }
            let shorter = tokens.drop_last().push(last.drop_last());
            assert(shorter.drop_last() == tokens.drop_last());
            assert(join_commas(shorter) == s.drop_last()) by {
                if tokens.len() >= 2 {
                    assert(join_commas(shorter) == join_commas(tokens.drop_last()) + seq![',']
                        + last.drop_last());
                }
            }
            assert forall|i: int| 0 <= i < shorter.len() implies !(
            #[trigger] shorter[i]).contains(',') by {
                if i < shorter.len() - 1 {
                    assert(shorter[i] == tokens[i]);
                } else if shorter[i].contains(',') {
                    let k = choose|k: int| 0 <= k < shorter[i].len() && shorter[i][k] == ',';
                    assert(last[k] == ',');
                    assert(tokens[tokens.len() - 1].contains(','));
                }
            }
            split_commas_is_unique(s.drop_last(), shorter);
            assert(last.drop_last().push(c) == last);
            assert(tokens == shorter.drop_last().push(shorter.last().push(c)));
        }
    }
}

/// Where a token stands for no number, some token is the first to do so,
/// at that index or before it.
pub proof fn first_bad_exists(tokens: Seq<Seq<char>>, i: int)
    requires
        0 <= i < tokens.len(),
        token_number(tokens[i]) is None,
    ensures
        is_first_bad(tokens, first_bad_token(tokens)),
        first_bad_token(tokens) <= i,
    decreases i,
{
    if forall|j: int| 0 <= j < i ==> token_number(#[trigger] tokens[j]) is Some {
        assert(is_first_bad(tokens, i));
        first_bad_is_unique(tokens, i, first_bad_token(tokens));
    } else {
        let j = choose|j: int| 0 <= j < i && !(token_number(#[trigger] tokens[j]) is Some);
        first_bad_exists(tokens, j);
    }
}

/// A scene list with a token that is no number classifies no segment: the
/// classification fails at the first such token, whatever the segment and
/// whatever the other tokens hold. No token is skipped.
pub proof fn bad_token_fails_classification(segment: u32, raw: Seq<char>, i: int)
    requires
        raw.len() <= usize::MAX,
        0 <= i < split_commas(raw).len(),
        token_number(split_commas(raw)[i]) is None,
    ensures
        cut_scene(segment, Some(raw)) matches Err(ClassifyError::ParseFailure { token })
            && is_first_bad(split_commas(raw), token as int) && token <= i,
{
    split_commas_len(raw);
    first_bad_exists(split_commas(raw), i);
}

/// A scene list whose tokens all are numbers classifies every segment: as a
/// cut scene where one of the tokens stands for its number, and as none
/// where no token does.
pub proof fn good_list_classifies_by_membership(segment: u32, raw: Seq<char>)
    requires
        tokens_valid(split_commas(raw)),
    ensures
        cut_scene(segment, Some(raw)) == Ok::<bool, ClassifyError>(
            exists|i: int|
                0 <= i < split_commas(raw).len() && token_number(#[trigger] split_commas(raw)[i])
                    == Some(segment),
        ),
{
    let tokens = split_commas(raw);
    let list = Seq::new(tokens.len(), |i: int| token_number(tokens[i])->0);
    if list.contains(segment) {
        let k = choose|k: int| 0 <= k < list.len() && list[k] == segment;
        assert(token_number(tokens[k]) == Some(segment));
    }
    if exists|i: int| 0 <= i < tokens.len() && token_number(#[trigger] tokens[i]) == Some(segment) {
        let k = choose|i: int|
            0 <= i < tokens.len() && token_number(#[trigger] tokens[i]) == Some(segment);
        assert(list[k] == segment);
    }
}

/// Classification depends on the segment and on the scene list alone: asked
/// again with both unchanged, it answers as before.
pub proof fn classification_is_repeatable(
    segment: u32,
    scenes: Option<Seq<char>>,
    first: Result<bool, ClassifyError>,
    second: Result<bool, ClassifyError>,
)
    requires
        first == cut_scene(segment, scenes),
        second == cut_scene(segment, scenes),
    ensures
        first == second,
{
}

/// Reads the characters of `chars` from `start` up to `end` as one token.
fn parse_token(chars: &Vec<char>, start: usize, end: usize) -> (r: Option<u32>)
    requires
        start <= end <= chars.len(),
    ensures
        r == token_number(chars@.subrange(start as int, end as int)),
{
    let ghost token = chars@.subrange(start as int, end as int);
    if start < end && chars[start] == '+' {
        assert(token[0] == chars@[start as int]);
        assert(token.skip(1) == chars@.subrange(start + 1, end as int));
        parse_digits(chars, start + 1, end)
    } else {
        assert(start < end ==> token[0] == chars@[start as int]);
        parse_digits(chars, start, end)
    }
}

/// Reads a scene list.
pub fn parse_scene_list(raw: &str) -> (r: Result<Vec<u32>, ClassifyError>)
    ensures
        match r {
            Ok(list) => scene_list(raw@) == Ok::<Seq<u32>, ClassifyError>(list@),
            Err(e) => scene_list(raw@) == Err::<Seq<u32>, ClassifyError>(e),
        },
{
    let chars = chars_of(raw);
    let n = chars.len();
    let ghost all = split_commas(raw@);
    let mut list: Vec<u32> = Vec::new();
    let mut start: usize = 0;
    let mut i: usize = 0;
    while i < n
        invariant
            start <= i <= n,
            n == chars.len(),
            chars@ == raw@,
            all == split_commas(raw@),
            list.len() <= start,
            split_commas(chars@.take(i as int)).len() == list.len() + 1,
            split_commas(chars@.take(i as int)).last() == chars@.subrange(start as int, i as int),
            forall|j: int|
                0 <= j < list.len() ==> token_number(
                    #[trigger] split_commas(chars@.take(i as int))[j],
                ) == Some(list[j]),
        decreases n - i,
    {
        let ghost before = split_commas(chars@.take(i as int));
        let ghost after = split_commas(chars@.take(i + 1));
        assert(chars@.take(i + 1).drop_last() == chars@.take(i as int));
        assert(chars@.take(i + 1).last() == chars@[i as int]);
        if chars[i] == ',' {
            assert(after == before.push(Seq::empty()));
            match parse_token(&chars, start, i) {
                Some(number) => {
                    list.push(number);
                    start = i + 1;
                    assert(chars@.subrange(start as int, i + 1) == Seq::<char>::empty());
                    assert forall|j: int| 0 <= j < list.len() implies token_number(
                        #[trigger] after[j],
                    ) == Some(list[j]) by {
                        assert(after[j] == before[j]);
                    }
                },
                None => {
                    proof {
                        let t = list.len() as int;
                        split_commas_of_prefix(raw@, i + 1);
                        assert(chars@.take(i + 1) == raw@.take(i + 1));
                        assert(after[t] == before[t]);
                        assert(all[t] == after[t]);
                        assert forall|j: int| 0 <= j < t implies token_number(
                            #[trigger] all[j],
                        ) is Some by {
                            assert(all[j] == after[j]);
                            assert(after[j] == before[j]);
                        }
                        assert(is_first_bad(all, t));
                        first_bad_is_unique(all, t, first_bad_token(all));
                    }
                    return Err(ClassifyError::ParseFailure { token: list.len() });
                },
            }
        } else {
            assert(after == before.drop_last().push(before.last().push(chars@[i as int])));
            assert(chars@.subrange(start as int, i + 1) == chars@.subrange(
                start as int,
                i as int,
            ).push(chars@[i as int]));
            assert forall|j: int| 0 <= j < list.len() implies token_number(
                #[trigger] after[j],
            ) == Some(list[j]) by {
                assert(after[j] == before[j]);
            }
        }
        i = i + 1;
    }
    assert(chars@.take(n as int) == raw@);
    match parse_token(&chars, start, n) {
        Some(number) => {
            list.push(number);
            proof {
                assert forall|j: int| 0 <= j < all.len() implies token_number(
                    #[trigger] all[j],
                ) is Some by {
                    assert(token_number(all[j]) == Some(list[j]));
                }
                assert(list@ == Seq::new(all.len(), |i: int| token_number(all[i])->0));
            }
            Ok(list)
        },
        None => {
            proof {
                let t = list.len() as int;
                assert(is_first_bad(all, t));
                first_bad_is_unique(all, t, first_bad_token(all));
            }
            Err(ClassifyError::ParseFailure { token: list.len() })
        },
    }
}

/// Tells whether the segment `seg_num` is a cut scene. `scenes` is the scene
/// list as the configuration holds it, `None` where it holds none.
pub fn is_segment_cut_scene(seg_num: u32, scenes: Option<&str>) -> (r: Result<bool, ClassifyError>)
    ensures
        r == cut_scene(
            seg_num,
            match scenes {
                Some(raw) => Some(raw@),
                None => None,
            },
        ),
{
    let raw = match scenes {
        Some(raw) => raw,
        None => {
            return Err(ClassifyError::KeyMissing);
        },
    };
    let list = match parse_scene_list(raw) {
        Ok(list) => list,
        Err(e) => {
            return Err(e);
        },
    };
    let mut i: usize = 0;
    while i < list.len()
        invariant
            i <= list.len(),
            scene_list(raw@) == Ok::<Seq<u32>, ClassifyError>(list@),
            scenes == Some(raw),
            forall|j: int| 0 <= j < i ==> list@[j] != seg_num,
        decreases list.len() - i,
    {
        if list[i] == seg_num {
            assert(list@[i as int] == seg_num);
            return Ok(true);
        }
        i = i + 1;
    }
    Ok(false)
}

} // verus!
