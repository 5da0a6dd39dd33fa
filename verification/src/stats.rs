//! Figures about a text: how many characters, bytes, words and lines it
//! has, and how many of its characters and words are different.

use vstd::prelude::*;
use vstd::string::StringSliceAdditionalSpecFns;
use vstd::utf8::encode_utf8;
use crate::chars::{
    characters, count_distinct, is_whitespace, lowercase_text, text_of, to_lowercase,
    unicode_whitespace,
};
use crate::text::{trim, trimmed, Margin};

verus! {

/// Figures about a text, each cut down to 32 bits.
#[derive(Clone, Copy, Debug, PartialEq, Eq, Structural)]
pub struct StringInfo {
    /// The number of characters.
    pub length: u32,
    /// The number of bytes of the text in UTF-8.
    pub bytes: u32,
    /// The number of words: runs of characters between white space.
    pub words: u32,
    /// The number of different characters.
    pub unique_chars: u32,
    /// The number of different words, where words are compared in lower
    /// case and without what stands before their first and behind their
    /// last letter.
    pub unique_words: u32,
    /// The number of lines.
    pub lines: u32,
}

/// `n` cut down to 32 bits.
pub open spec fn low32(n: nat) -> u32 {
    (n % 0x1_0000_0000) as u32
}

/// The words of `text`: the longest runs of characters that are no white
/// space, in order.
pub open spec fn words_of(text: Seq<char>) -> Seq<Seq<char>>
    decreases text.len(),
{
    if text.len() == 0 {
        Seq::empty()
    } else if unicode_whitespace(text.last()) {
        words_of(text.drop_last())
    } else {
        let before = words_of(text.drop_last());
        if text.len() > 1 && !unicode_whitespace(text[text.len() - 2]) && before.len() > 0 {
            before.drop_last().push(before.last().push(text.last()))
        } else {
            before.push(seq![text.last()])
        }
    }
}

/// The form in which words are compared: without what stands before the
/// first and behind the last letter, and in lower case.
pub open spec fn normal_word(word: Seq<char>) -> Seq<char> {
    lowercase_text(trimmed(word, Margin::NonLetters))
}

/// The number of line feeds in `text`.
pub open spec fn line_feeds(text: Seq<char>) -> nat
    decreases text.len(),
{
    if text.len() == 0 {
        0
    } else {
        line_feeds(text.drop_last()) + if text.last() == '\n' {
            1nat
        } else {
            0nat
        }
    }
}

/// The number of lines of `text`: every line feed ends a line, and what
/// stands behind the last line feed is a line if it is not empty.
pub open spec fn line_count(text: Seq<char>) -> nat {
    line_feeds(text) + if text.len() > 0 && text.last() != '\n' {
        1nat
    } else {
        0nat
    }
}

/// The figures about `text`.
pub open spec fn info_of(text: Seq<char>) -> StringInfo {
    StringInfo {
        length: low32(text.len()),
        bytes: low32(encode_utf8(text).len()),
        words: low32(words_of(text).len()),
        unique_chars: low32(text.to_set().len()),
        unique_words: low32(
            words_of(text).map_values(|word: Seq<char>| normal_word(word)).to_set().len(),
        ),
        lines: low32(line_count(text)),
    }
}

/// The views of a list of words.
pub open spec fn views(list: Seq<Vec<char>>) -> Seq<Seq<char>> {
    list.map_values(|word: Vec<char>| word@)
}

/// `n` cut down to 32 bits.
fn to_low32(n: usize) -> (low: u32)
    ensures
        low == low32(n as nat),
{
    ((n as u64) % 0x1_0000_0000) as u32
}

/// Splits `list` into its words.
pub fn split_words(list: &Vec<char>) -> (words: Vec<Vec<char>>)
    ensures
        views(words@) == words_of(list@),
{
    let mut words: Vec<Vec<char>> = Vec::new();
    let mut current: Vec<char> = Vec::new();
    let mut inside = false;
    let mut i: usize = 0;
    proof {
        assert(views(words@) == Seq::<Seq<char>>::empty());
    }
    while i < list.len()
        invariant
            i <= list.len(),
            inside == (i > 0 && !unicode_whitespace(list@[i - 1])),
            inside ==> current@.len() > 0,
            words_of(list@.take(i as int)) == if inside {
                views(words@).push(current@)
            } else {
                views(words@)
            },
        decreases list.len() - i,
    {
        let c = list[i];
        proof {
            let longer = list@.take(i + 1);
            assert(longer.drop_last() == list@.take(i as int));
            assert(longer.last() == c);
            if i > 0 {
                assert(longer[longer.len() - 2] == list@[i - 1]);
            }
        }
        if is_whitespace(c) {
            if inside {
                proof {
                    words@.lemma_push_map_commute(|word: Vec<char>| word@, current);
                }
                words.push(current);
                current = Vec::new();
                inside = false;
            }
        } else {
            if inside {
                proof {
                    let before = views(words@).push(current@);
                    assert(before.drop_last() == views(words@));
                }
                current.push(c);
            } else {
                current = Vec::new();
                current.push(c);
                inside = true;
                proof {
                    assert(current@ == seq![c]);
                }
            }
        }
        i += 1;
    }
    proof {
        assert(list@.take(i as int) == list@);
    }
    if inside {
        proof {
            words@.lemma_push_map_commute(|word: Vec<char>| word@, current);
        }
        words.push(current);
    }
    words
}

/// Whether two lists hold the same characters.
fn same_word(a: &Vec<char>, b: &Vec<char>) -> (same: bool)
    ensures
        same == (a@ == b@),
{
    if a.len() != b.len() {
        return false;
    }
    let mut i: usize = 0;
    while i < a.len()
        invariant
            i <= a.len(),
            a.len() == b.len(),
            a@.take(i as int) == b@.take(i as int),
        decreases a.len() - i,
    {
        if a[i] != b[i] {
            return false;
        }
        proof {
            a@.lemma_take_succ_push(i as int);
            b@.lemma_take_succ_push(i as int);
        }
        i += 1;
    }
    proof {
        assert(a@.take(i as int) == a@);
        assert(b@.take(i as int) == b@);
    }
    true
}

/// The number of different words in `list`.
pub fn count_distinct_words(list: &Vec<Vec<char>>) -> (count: usize)
    ensures
        count == views(list@).to_set().len(),
{
    let ghost all = views(list@);
    let ghost mut seen: Seq<Seq<char>> = Seq::empty();
    let mut count: usize = 0;
    let mut i: usize = 0;
    while i < list.len()
        invariant
            i <= list.len(),
            all == views(list@),
            count == seen.len(),
            count <= i,
            seen.no_duplicates(),
            seen.to_set() == all.take(i as int).to_set(),
        decreases list.len() - i,
    {
        let mut known = false;
        let mut j: usize = 0;
        while j < i
            invariant
                j <= i < list.len(),
                all == views(list@),
                known == all.take(j as int).contains(all[i as int]),
            decreases i - j,
        {
            proof {
                all.lemma_take_succ_push(j as int);
                vstd::seq_lib::lemma_seq_contains_after_push(
                    all.take(j as int),
                    all[j as int],
                    all[i as int],
                );
            }
            if same_word(&list[j], &list[i]) {
                known = true;
            }
            j += 1;
        }
        proof {
            let word = all[i as int];
            all.lemma_take_succ_push(i as int);
            all.take(i as int).lemma_push_to_set_commute(word);
            if known {
                assert(all.take(i as int).to_set().contains(word));
                assert(all.take(i as int).to_set().insert(word) == all.take(i as int).to_set());
            } else {
                assert(!seen.to_set().contains(word));
                seen.lemma_push_to_set_commute(word);
                seen = seen.push(word);
            }
        }
        if !known {
            count += 1;
        }
        i += 1;
    }
    proof {
        assert(all.take(i as int) == all);
        seen.unique_seq_to_set();
    }
    count
}

/// The number of lines of `list`.
fn count_lines(list: &Vec<char>) -> (count: u128)
    ensures
        count == line_count(list@),
{
    let mut feeds: u128 = 0;
    let mut i: usize = 0;
    while i < list.len()
        invariant
            i <= list.len(),
            feeds <= i,
            feeds == line_feeds(list@.take(i as int)),
        decreases list.len() - i,
    {
        proof {
            assert(list@.take(i + 1).drop_last() == list@.take(i as int));
        }
        if list[i] == '\n' {
            feeds += 1;
        }
        i += 1;
    }
    proof {
        assert(list@.take(i as int) == list@);
    }
    if list.len() > 0 && list[list.len() - 1] != '\n' {
        feeds + 1
    } else {
        feeds
    }
}

/// Gathers the figures about `input`.
pub fn get_string(input: &str) -> (info: StringInfo)
    ensures
        info == info_of(input@),
{
    let list = characters(input);
    let words = split_words(&list);
    let mut normal: Vec<Vec<char>> = Vec::new();
    let mut i: usize = 0;
    while i < words.len()
        invariant
            i <= words.len(),
            views(normal@) == views(words@).take(i as int).map_values(
                |word: Seq<char>| normal_word(word),
            ),
        decreases words.len() - i,
    {
        let core = trim(&words[i], Margin::NonLetters);
        let lower = characters(to_lowercase(text_of(&core).as_str()).as_str());
        proof {
            let source = views(words@);
            source.lemma_take_succ_push(i as int);
            source.take(i as int).lemma_push_map_commute(
                |word: Seq<char>| normal_word(word),
                source[i as int],
            );
            normal@.lemma_push_map_commute(|word: Vec<char>| word@, lower);
        }
        normal.push(lower);
        i += 1;
    }
    proof {
        assert(views(words@).take(i as int) == views(words@));
    }
    let lines = count_lines(&list);
    let size = input.as_bytes().len();
    StringInfo {
        length: to_low32(list.len()),
        bytes: to_low32(size),
        words: to_low32(words.len()),
        unique_chars: to_low32(count_distinct(&list)),
        unique_words: to_low32(count_distinct_words(&normal)),
        lines: (lines % 0x1_0000_0000) as u32,
    }
}

} // verus!
