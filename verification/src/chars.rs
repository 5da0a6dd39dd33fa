//! Contracts for the character and string primitives of the standard
//! library that the rest of the crate builds on.

use vstd::prelude::*;
use vstd::utf8::{decode_utf8, valid_utf8};

verus! {

/// `String::push`: appends `c` to the end of `text`. Stated as the standard
/// library documents it, not proved.
#[verifier::external_body]
pub(crate) fn push_char(text: &mut String, c: char)
    ensures
        final(text)@ == old(text)@.push(c),
{
    text.push(c);
}

/// `String::from_utf8`, with `FromUtf8Error::into_bytes` on its error: bytes
/// that are valid UTF-8 come back as the text that they encode, any others
/// come back unchanged. Stated as the standard library documents it, not
/// proved.
#[verifier::external_body]
pub(crate) fn text_from_utf8(bytes: Vec<u8>) -> (result: Result<String, Vec<u8>>)
    ensures
        match result {
            Ok(text) => valid_utf8(bytes@) && text@ == decode_utf8(bytes@),
            Err(rejected) => !valid_utf8(bytes@) && rejected@ == bytes@,
        },
{
    match String::from_utf8(bytes) {
        Ok(text) => Ok(text),
        Err(error) => Err(error.into_bytes()),
    }
}

/// Whether `c` is an upper-case character, as `char::is_uppercase` tells it.
pub uninterp spec fn unicode_uppercase(c: char) -> bool;

/// Whether `c` is a lower-case character, as `char::is_lowercase` tells it.
pub uninterp spec fn unicode_lowercase(c: char) -> bool;

/// Whether `c` is a letter or a number, as `char::is_alphanumeric` tells it.
pub uninterp spec fn unicode_alphanumeric(c: char) -> bool;

/// `char::is_uppercase`. The answer is read from the Unicode tables of the
/// standard library and depends on `c` alone; the contract only names it.
#[verifier::external_body]
pub(crate) fn is_uppercase(c: char) -> (answer: bool)
    ensures
        answer == unicode_uppercase(c),
{
    c.is_uppercase()
}

/// `char::is_lowercase`. The answer is read from the Unicode tables of the
/// standard library and depends on `c` alone; the contract only names it.
#[verifier::external_body]
pub(crate) fn is_lowercase(c: char) -> (answer: bool)
    ensures
        answer == unicode_lowercase(c),
{
    c.is_lowercase()
}

/// `char::is_alphanumeric`. The answer is read from the Unicode tables of
/// the standard library and depends on `c` alone; the contract only names it.
#[verifier::external_body]
pub(crate) fn is_alphanumeric(c: char) -> (answer: bool)
    ensures
        answer == unicode_alphanumeric(c),
{
    c.is_alphanumeric()
}

/// Whether `c` is white space, as `char::is_whitespace` tells it.
pub uninterp spec fn unicode_whitespace(c: char) -> bool;

/// The first character of the upper-case form of `c`, as `char::to_uppercase`
/// gives it.
pub uninterp spec fn first_uppercase(c: char) -> char;

/// The first character of the lower-case form of `c`, as `char::to_lowercase`
/// gives it.
pub uninterp spec fn first_lowercase(c: char) -> char;

/// Whether `c` is a letter, as `char::is_alphabetic` tells it.
pub uninterp spec fn unicode_alphabetic(c: char) -> bool;

/// The lower-case form of `text`, as `str::to_lowercase` gives it.
pub uninterp spec fn lowercase_text(text: Seq<char>) -> Seq<char>;

/// `char::is_alphabetic`. The answer is read from the Unicode tables of the
/// standard library and depends on `c` alone; the contract only names it.
#[verifier::external_body]
pub(crate) fn is_alphabetic(c: char) -> (answer: bool)
    ensures
        answer == unicode_alphabetic(c),
{
    c.is_alphabetic()
}

/// `str::to_lowercase`. The result follows the Unicode tables of the
/// standard library and depends on the text alone; the contract only names
/// it.
#[verifier::external_body]
pub(crate) fn to_lowercase(text: &str) -> (lower: String)
    ensures
        lower@ == lowercase_text(text@),
{
    text.to_lowercase()
}

/// `char::is_whitespace`. The answer is read from the Unicode tables of the
/// standard library and depends on `c` alone; the contract only names it.
#[verifier::external_body]
pub(crate) fn is_whitespace(c: char) -> (answer: bool)
    ensures
        answer == unicode_whitespace(c),
{
    c.is_whitespace()
}

/// `char::to_uppercase`, of which the first character is taken: the mapping
/// yields one to three characters. The result is read from the Unicode
/// tables of the standard library and depends on `c` alone; the contract
/// only names it.
#[verifier::external_body]
pub(crate) fn to_first_uppercase(c: char) -> (upper: char)
    ensures
        upper == first_uppercase(c),
{
    c.to_uppercase().next().unwrap()
}

/// `char::to_lowercase`, of which the first character is taken: the mapping
/// yields one to three characters. The result is read from the Unicode
/// tables of the standard library and depends on `c` alone; the contract
/// only names it.
#[verifier::external_body]
pub(crate) fn to_first_lowercase(c: char) -> (lower: char)
    ensures
        lower == first_lowercase(c),
{
    c.to_lowercase().next().unwrap()
}

/// Whether `c` is one of the decimal digits `0` to `9`.
pub open spec fn decimal_digit(c: char) -> bool {
    '0' <= c <= '9'
}

/// Whether `c` is one of the decimal digits `0` to `9`.
pub fn is_decimal_digit(c: char) -> (answer: bool)
    ensures
        answer == decimal_digit(c),
{
    '0' <= c && c <= '9'
}

/// Some character of `text` satisfies `p`.
pub open spec fn any_char(text: Seq<char>, p: spec_fn(char) -> bool) -> bool {
    exists|k: int| 0 <= k < text.len() && p(#[trigger] text[k])
}

/// A character at the end adds its own answer to that of the text before it.
pub proof fn lemma_any_char_push(text: Seq<char>, c: char, p: spec_fn(char) -> bool)
    ensures
        any_char(text.push(c), p) == (any_char(text, p) || p(c)),
{
    let longer = text.push(c);
    if any_char(text, p) {
        let k = choose|k: int| 0 <= k < text.len() && p(#[trigger] text[k]);
        assert(longer[k] == text[k]);
    }
    if p(c) {
        assert(longer[text.len() as int] == c);
    }
    if any_char(longer, p) {
        let k = choose|k: int| 0 <= k < longer.len() && p(#[trigger] longer[k]);
        if k < text.len() {
            assert(text[k] == longer[k]);
        }
    }
}

/// The number of different characters in `list`.
pub fn count_distinct(list: &Vec<char>) -> (count: usize)
    ensures
        count == list@.to_set().len(),
{
    let mut seen: Vec<char> = Vec::new();
    let mut i: usize = 0;
    while i < list.len()
        invariant
            i <= list.len(),
            seen.len() <= i,
            seen@.no_duplicates(),
            seen@.to_set() == list@.take(i as int).to_set(),
        decreases list.len() - i,
    {
        let c = list[i];
        let mut known = false;
        let mut j: usize = 0;
        while j < seen.len()
            invariant
                j <= seen.len(),
                known == seen@.take(j as int).contains(c),
            decreases seen.len() - j,
        {
            proof {
                seen@.lemma_take_succ_push(j as int);
                vstd::seq_lib::lemma_seq_contains_after_push(seen@.take(j as int), seen@[j as int], c);
            }
            if seen[j] == c {
                known = true;
            }
            j += 1;
        }
        proof {
            assert(seen@.take(j as int) == seen@);
            list@.lemma_take_succ_push(i as int);
            list@.take(i as int).lemma_push_to_set_commute(c);
            if known {
                assert(list@.take(i as int).to_set().contains(c));
                assert(list@.take(i as int).to_set().insert(c) == list@.take(i as int).to_set());
            } else {
                seen@.lemma_push_to_set_commute(c);
            }
        }
        if !known {
            seen.push(c);
        }
        i += 1;
    }
    proof {
        assert(list@.take(i as int) == list@);
        seen@.unique_seq_to_set();
    }
    seen.len()
}

/// The text that the characters of `list` make.
pub fn text_of(list: &Vec<char>) -> (text: String)
    ensures
        text@ == list@,
{
    let mut text = String::new();
    let mut i: usize = 0;
    while i < list.len()
        invariant
            i <= list.len(),
            text@ == list@.take(i as int),
        decreases list.len() - i,
    {
        push_char(&mut text, list[i]);
        proof {
            list@.lemma_take_succ_push(i as int);
        }
        i += 1;
    }
    proof {
        assert(list@.take(i as int) == list@);
    }
    text
}

/// The characters of `text`, in order.
pub fn characters(text: &str) -> (list: Vec<char>)
    ensures
        list@ == text@,
{
    let mut list: Vec<char> = Vec::new();
    for c in it: text.chars()
        invariant
            list@ == it.seq().take(it.index()),
            it.seq() == text@,
    {
        list.push(c);
    }
    list
}

} // verus!
