//! Small operations on text: reversal, counting a pattern, random case.

use vstd::prelude::*;
use crate::chars::{
    characters, first_lowercase, first_uppercase, is_alphabetic, is_whitespace, push_char,
    to_first_lowercase, to_first_uppercase, unicode_alphabetic, unicode_whitespace,
};
use crate::sampler::Rand;

verus! {

/// The characters of `input` in reverse order.
pub fn rev_str(input: &str) -> (reversed: String)
    ensures
        reversed@ == input@.reverse(),
{
    let list = characters(input);
    let mut reversed = String::new();
    let mut k: usize = list.len();
    while k > 0
        invariant
            k <= list.len(),
            reversed@ == list@.reverse().take(list.len() - k),
        decreases k,
    {
        k -= 1;
        push_char(&mut reversed, list[k]);
        proof {
            let done = list.len() - 1 - k;
            let target = list@.reverse();
            assert(target[done] == list@[k as int]);
            assert(target.take(done + 1) == target.take(done).push(target[done]));
        }
    }
    proof {
        assert(list@.reverse().take(list.len() as int) == list@.reverse());
    }
    reversed
}

/// What is taken away at the ends of a text.
#[derive(Clone, Copy, Debug, PartialEq, Eq, Structural)]
pub enum Margin {
    /// White space.
    WhiteSpace,
    /// Everything that is no letter.
    NonLetters,
}

impl Margin {
    /// Whether `c` is taken away.
    pub open spec fn holds(self, c: char) -> bool {
        match self {
            Margin::WhiteSpace => unicode_whitespace(c),
            Margin::NonLetters => !unicode_alphabetic(c),
        }
    }

    /// Whether `c` is taken away.
    pub fn test(self, c: char) -> (answer: bool)
        ensures
            answer == self.holds(c),
    {
        match self {
            Margin::WhiteSpace => is_whitespace(c),
            Margin::NonLetters => !is_alphabetic(c),
        }
    }
}

/// `text` without the margin at its start.
pub open spec fn trim_start(text: Seq<char>, margin: Margin) -> Seq<char>
    decreases text.len(),
{
    if text.len() > 0 && margin.holds(text[0]) {
        trim_start(text.skip(1), margin)
    } else {
        text
    }
}

/// `text` without the margin at its end.
pub open spec fn trim_end(text: Seq<char>, margin: Margin) -> Seq<char>
    decreases text.len(),
{
    if text.len() > 0 && margin.holds(text.last()) {
        trim_end(text.drop_last(), margin)
    } else {
        text
    }
}

/// `text` without the margin at its start and at its end.
pub open spec fn trimmed(text: Seq<char>, margin: Margin) -> Seq<char> {
    trim_end(trim_start(text, margin), margin)
}

/// Whether `pattern` stands in `text` at position `at`.
pub open spec fn occurs_at(text: Seq<char>, pattern: Seq<char>, at: int) -> bool {
    0 <= at && at + pattern.len() <= text.len() && text.subrange(at, at + pattern.len())
        == pattern
}

/// The number of occurrences of `pattern` in `text` from position `from`
/// on, found from left to right, each search starting behind the occurrence
/// before it. The empty pattern occurs once at every position, the end
/// included.
pub open spec fn count_matches(text: Seq<char>, pattern: Seq<char>, from: int) -> nat
    decreases text.len() + 1 - from,
{
    if from < 0 || from + pattern.len() > text.len() {
        0
    } else if occurs_at(text, pattern, from) {
        1 + count_matches(
            text,
            pattern,
            from + if pattern.len() == 0 {
                1
            } else {
                pattern.len() as int
            },
        )
    } else {
        count_matches(text, pattern, from + 1)
    }
}

/// The part of `list` that is left when the margin at both ends is taken
/// away.
pub fn trim(list: &Vec<char>, margin: Margin) -> (kept: Vec<char>)
    ensures
        kept@ == trimmed(list@, margin),
{
    let mut start: usize = 0;
    proof {
        assert(list@.skip(0) == list@);
    }
    while start < list.len() && margin.test(list[start])
        invariant
            start <= list.len(),
            trim_start(list@, margin) == trim_start(list@.skip(start as int), margin),
        decreases list.len() - start,
    {
        proof {
            assert(list@.skip(start as int).skip(1) == list@.skip(start + 1));
        }
        start += 1;
    }
    let ghost inner = list@.skip(start as int);
    assert(trim_start(list@, margin) == inner);
    let mut end: usize = list.len();
    proof {
        assert(list@.skip(start as int) == list@.subrange(start as int, list.len() as int));
    }
    while end > start && margin.test(list[end - 1])
        invariant
            start <= end <= list.len(),
            inner == list@.skip(start as int),
            trim_end(inner, margin) == trim_end(
                list@.subrange(start as int, end as int),
                margin,
            ),
        decreases end,
    {
        proof {
            assert(list@.subrange(start as int, end as int).drop_last() == list@.subrange(
                start as int,
                end - 1,
            ));
        }
        end -= 1;
    }
    let mut kept: Vec<char> = Vec::new();
    let mut i: usize = start;
    while i < end
        invariant
            start <= i <= end <= list.len(),
            kept@ == list@.subrange(start as int, i as int),
        decreases end - i,
    {
        kept.push(list[i]);
        i += 1;
    }
    kept
}

/// Whether `pattern` stands in `text` at position `at`.
fn matches_at(text: &Vec<char>, pattern: &Vec<char>, at: usize) -> (found: bool)
    requires
        at + pattern@.len() <= text@.len(),
    ensures
        found == occurs_at(text@, pattern@, at as int),
{
    let mut j: usize = 0;
    let size = text.len();
    while j < pattern.len()
        invariant
            j <= pattern.len(),
            size == text@.len(),
            at + pattern@.len() <= size,
            text@.subrange(at as int, at + j) == pattern@.take(j as int),
        decreases pattern.len() - j,
    {
        if text[at + j] != pattern[j] {
            proof {
                let part = text@.subrange(at as int, at + pattern@.len());
                assert(part[j as int] != pattern@[j as int]);
            }
            return false;
        }
        proof {
            assert(text@.subrange(at as int, at + j + 1) == text@.subrange(
                at as int,
                at + j,
            ).push(text@[at + j]));
            assert(pattern@.take(j + 1) == pattern@.take(j as int).push(pattern@[j as int]));
        }
        j += 1;
    }
    proof {
        assert(pattern@.take(j as int) == pattern@);
    }
    true
}

/// How often `substr` occurs in `input`, after white space at both ends of
/// each is taken away. The count is cut down to 32 bits.
pub fn substr_in_str(input: &str, substr: &str) -> (count: u32)
    ensures
        count == count_matches(
            trimmed(input@, Margin::WhiteSpace),
            trimmed(substr@, Margin::WhiteSpace),
            0,
        ) % 0x1_0000_0000,
{
    let text = trim(&characters(input), Margin::WhiteSpace);
    let pattern = trim(&characters(substr), Margin::WhiteSpace);
    let size = text.len() as u128;
    let width = pattern.len() as u128;
    let advance: u128 = if width == 0 {
        1
    } else {
        width
    };
    let mut found: u128 = 0;
    let mut from: u128 = 0;
    while from + width <= size
        invariant
            size == text@.len(),
            width == pattern@.len(),
            size <= usize::MAX,
            width <= usize::MAX,
            from <= size + 1,
            advance == if width == 0 {
                1
            } else {
                width as int
            },
            found <= from,
            count_matches(text@, pattern@, 0) == found + count_matches(
                text@,
                pattern@,
                from as int,
            ),
        decreases size + 1 - from,
    {
        if matches_at(&text, &pattern, from as usize) {
            found += 1;
            from += advance;
        } else {
            from += 1;
        }
    }
    (found % 0x1_0000_0000) as u32
}

/// Each character of `text` in upper case where its draw is even and in
/// lower case where it is odd.
pub open spec fn random_case(text: Seq<char>, draws: Seq<usize>) -> Seq<char> {
    Seq::new(
        text.len(),
        |i: int|
            if draws[i] % 2 == 0 {
                first_uppercase(text[i])
            } else {
                first_lowercase(text[i])
            },
    )
}

/// Puts each character of `input` in upper or lower case as the draws
/// decide, one draw for each character. Returns `None` if there are fewer
/// draws than characters.
pub fn rand_uppercase(input: &str, draws: &[usize]) -> (text: Option<String>)
    ensures
        match text {
            Some(t) => draws@.len() >= input@.len() && t@ == random_case(input@, draws@),
            None => draws@.len() < input@.len(),
        },
{
    let list = characters(input);
    if draws.len() < list.len() {
        return None;
    }
    let rng = Rand::new(true);
    let mut text = String::new();
    let mut i: usize = 0;
    while i < list.len()
        invariant
            i <= list.len() <= draws@.len(),
            text@ == random_case(list@, draws@).take(i as int),
        decreases list.len() - i,
    {
        let choice = rng.next_index(draws[i], 2);
        let c = if choice == 0 {
            to_first_uppercase(list[i])
        } else {
            to_first_lowercase(list[i])
        };
        push_char(&mut text, c);
        proof {
            let target = random_case(list@, draws@);
            assert(target.take(i + 1) == target.take(i as int).push(target[i as int]));
        }
        i += 1;
    }
    proof {
        assert(random_case(list@, draws@).take(i as int) == random_case(list@, draws@));
    }
    Some(text)
}

} // verus!
