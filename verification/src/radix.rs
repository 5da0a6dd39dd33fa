//! Text as hexadecimal or binary digits, and back.

use vstd::prelude::*;
use vstd::arithmetic::power::{lemma_pow_increases, pow};
use vstd::string::StringSliceAdditionalSpecFns;
use vstd::utf8::{decode_utf8, encode_utf8, is_char_boundary, valid_utf8};
use crate::chars::{characters, push_char, text_from_utf8};

verus! {

/// Why digits could not be turned back into text.
#[derive(Debug, PartialEq, Eq)]
pub enum DecodeError {
    /// The group of digits that starts at byte `offset` ends inside a
    /// character.
    SplitCharacter { offset: usize },
    /// The group of digits that starts at byte `offset` is no number.
    InvalidDigit { offset: usize },
    /// The decoded bytes, held here, are not UTF-8 text.
    InvalidUtf8 { bytes: Vec<u8> },
}

/// A `DecodeError` as a mathematical value.
pub enum DecodeFault {
    SplitCharacter { offset: nat },
    InvalidDigit { offset: nat },
    InvalidUtf8 { bytes: Seq<u8> },
}

impl View for DecodeError {
    type V = DecodeFault;

    open spec fn view(&self) -> DecodeFault {
        match self {
            DecodeError::SplitCharacter { offset } => DecodeFault::SplitCharacter {
                offset: *offset as nat,
            },
            DecodeError::InvalidDigit { offset } => DecodeFault::InvalidDigit {
                offset: *offset as nat,
            },
            DecodeError::InvalidUtf8 { bytes } => DecodeFault::InvalidUtf8 { bytes: bytes@ },
        }
    }
}

/// The character for a digit below 36: `0` to `9`, then `a` to `z`.
pub open spec fn digit_char(digit: nat) -> char {
    if digit < 10 {
        ('0' as nat + digit) as char
    } else {
        ('a' as nat + digit - 10) as char
    }
}

/// The digits of `value` in base `radix`, most significant first, without
/// leading zeros.
pub open spec fn radix_digits(value: nat, radix: nat) -> Seq<char>
    decreases value,
    via radix_digits_decreases
{
    if radix < 2 || value < radix {
        seq![digit_char(value)]
    } else {
        radix_digits(value / radix, radix).push(digit_char(value % radix))
    }
}

#[via_fn]
proof fn radix_digits_decreases(value: nat, radix: nat) {
    assert(radix >= 2 && value >= radix ==> value / radix < value) by (nonlinear_arith);
}

/// `digits` with zeros in front up to a length of `width`.
pub open spec fn zero_padded(digits: Seq<char>, width: nat) -> Seq<char> {
    if digits.len() >= width {
        digits
    } else {
        Seq::new((width - digits.len()) as nat, |i: int| '0') + digits
    }
}

/// Each character of `text` as the digits of its code point in base
/// `radix`, padded with zeros to `width` digits, one after the other.
pub open spec fn digits_of_text(text: Seq<char>, radix: nat, width: nat) -> Seq<char>
    decreases text.len(),
{
    if text.len() == 0 {
        Seq::empty()
    } else {
        digits_of_text(text.drop_last(), radix, width) + zero_padded(
            radix_digits(text.last() as u32 as nat, radix),
            width,
        )
    }
}

/// The value of a digit in base `radix`: `0` to `9`, then the letters in
/// either case; `None` for any other byte and for a digit that the base
/// does not have.
pub open spec fn digit_value(byte: u8, radix: nat) -> Option<nat> {
    let value: Option<nat> = if '0' as u8 <= byte <= '9' as u8 {
        Some((byte - '0' as u8) as nat)
    } else if 'a' as u8 <= byte <= 'z' as u8 {
        Some((byte - 'a' as u8 + 10) as nat)
    } else if 'A' as u8 <= byte <= 'Z' as u8 {
        Some((byte - 'A' as u8 + 10) as nat)
    } else {
        None
    };
    match value {
        Some(v) if v < radix => Some(v),
        _ => None,
    }
}

/// The number that `digits` write in base `radix`, if all of them are
/// digits.
pub open spec fn number(digits: Seq<u8>, radix: nat) -> Option<nat>
    decreases digits.len(),
{
    if digits.len() == 0 {
        Some(0)
    } else {
        match (number(digits.drop_last(), radix), digit_value(digits.last(), radix)) {
            (Some(n), Some(d)) => Some(n * radix + d),
            _ => None,
        }
    }
}

/// The number that a group writes: an optional `+`, then at least one digit
/// and nothing else.
pub open spec fn group_value(group: Seq<u8>, radix: nat) -> Option<nat> {
    let digits = if group.len() > 0 && group[0] == '+' as u8 {
        group.skip(1)
    } else {
        group
    };
    if digits.len() == 0 {
        None
    } else {
        number(digits, radix)
    }
}

/// The bytes that the first `count` groups of `width` bytes write, or the
/// first fault met: groups are read in order, and of each it is asked first
/// whether it ends between two characters, then whether it is a number.
pub open spec fn decoded_groups(bytes: Seq<u8>, radix: nat, width: nat, count: nat) -> Result<
    Seq<u8>,
    DecodeFault,
>
    decreases count,
{
    if count == 0 {
        Ok(Seq::empty())
    } else {
        let start = (count - 1) * width;
        match decoded_groups(bytes, radix, width, (count - 1) as nat) {
            Err(fault) => Err(fault),
            Ok(decoded) => if !is_char_boundary(bytes, start + width) {
                Err(DecodeFault::SplitCharacter { offset: start as nat })
            } else {
                match group_value(bytes.subrange(start, start + width), radix) {
                    None => Err(DecodeFault::InvalidDigit { offset: start as nat }),
                    Some(value) => Ok(decoded.push(value as u8)),
                }
            },
        }
    }
}

/// The text that `bytes` write in groups of `width` digits in base `radix`.
/// Bytes behind the last full group are not looked at.
pub open spec fn text_of_digits(bytes: Seq<u8>, radix: nat, width: nat) -> Result<
    Seq<char>,
    DecodeFault,
> {
    match decoded_groups(bytes, radix, width, bytes.len() / width) {
        Err(fault) => Err(fault),
        Ok(decoded) => if valid_utf8(decoded) {
            Ok(decode_utf8(decoded))
        } else {
            Err(DecodeFault::InvalidUtf8 { bytes: decoded })
        },
    }
}

/// A fault in the first groups is the fault of the whole text.
pub proof fn lemma_fault_persists(
    bytes: Seq<u8>,
    radix: nat,
    width: nat,
    count: nat,
    more: nat,
)
    requires
        decoded_groups(bytes, radix, width, count) is Err,
        count <= more,
    ensures
        decoded_groups(bytes, radix, width, more) == decoded_groups(bytes, radix, width, count),
    decreases more,
{
    if count < more {
        lemma_fault_persists(bytes, radix, width, count, (more - 1) as nat);
    }
}

/// The character for a digit below 36.
fn digit_for(digit: u32) -> (c: char)
    requires
        digit < 36,
    ensures
        c == digit_char(digit as nat),
{
    if digit < 10 {
        (48 + digit as u8) as char
    } else {
        (87 + digit as u8) as char
    }
}

/// Appends the digits of `value` in base `radix`, with zeros in front up to
/// `width` digits.
fn push_digits(out: &mut String, value: u32, radix: u32, width: usize)
    requires
        2 <= radix <= 36,
    ensures
        final(out)@ == old(out)@ + zero_padded(
            radix_digits(value as nat, radix as nat),
            width as nat,
        ),
{
    let ghost before = out@;
    let mut low: Vec<char> = Vec::new();
    let mut rest = value;
    while rest >= radix
        invariant
            2 <= radix <= 36,
            radix_digits(value as nat, radix as nat) == radix_digits(rest as nat, radix as nat)
                + low@.reverse(),
        decreases rest,
    {
        let d = digit_for(rest % radix);
        proof {
            let high = radix_digits((rest / radix) as nat, radix as nat);
            assert(radix_digits(rest as nat, radix as nat) == high.push(d));
            assert(low@.push(d).reverse() == seq![d] + low@.reverse());
            assert(high.push(d) + low@.reverse() == high + (seq![d] + low@.reverse()));
        }
        low.push(d);
        rest = rest / radix;
    }
    let d = digit_for(rest);
    proof {
        assert(low@.push(d).reverse() == seq![d] + low@.reverse());
    }
    low.push(d);
    let ghost digits = low@.reverse();
    assert(digits == radix_digits(value as nat, radix as nat));
    let mut filled: usize = low.len();
    while filled < width
        invariant
            low.len() <= filled,
            filled <= width || filled == low.len(),
            out@ == before + Seq::new((filled - low.len()) as nat, |i: int| '0'),
        decreases width - filled,
    {
        push_char(out, '0');
        filled += 1;
    }
    let ghost padded = out@;
    let mut k: usize = low.len();
    while k > 0
        invariant
            k <= low.len(),
            digits == low@.reverse(),
            out@ == padded + digits.take(low.len() - k),
        decreases k,
    {
        k -= 1;
        push_char(out, low[k]);
        proof {
            let done = low.len() - 1 - k;
            assert(digits[done] == low@[k as int]);
            assert(digits.take(done + 1) == digits.take(done).push(digits[done]));
        }
    }
    proof {
        assert(digits.take(low.len() as int) == digits);
        assert(out@ == before + zero_padded(digits, width as nat));
    }
}

/// Writes each character of `input` as its code point in base `radix`.
fn text_to_digits(input: &str, radix: u32, width: usize) -> (digits: String)
    requires
        2 <= radix <= 36,
    ensures
        digits@ == digits_of_text(input@, radix as nat, width as nat),
{
    let list = characters(input);
    let mut digits = String::new();
    let mut i: usize = 0;
    while i < list.len()
        invariant
            i <= list.len(),
            2 <= radix <= 36,
            digits@ == digits_of_text(list@.take(i as int), radix as nat, width as nat),
        decreases list.len() - i,
    {
        let c: char = list[i];
        proof {
            assert(list@.take(i + 1).drop_last() == list@.take(i as int));
            assert(list@.take(i + 1).last() == c);
        }
        push_digits(&mut digits, c as u32, radix, width);
        i += 1;
    }
    proof {
        assert(list@.take(i as int) == list@);
    }
    digits
}

/// Writes each character of `input` as its code point in hexadecimal, in
/// lower case and with at least two digits.
pub fn str_to_hex(input: &str) -> (digits: String)
    ensures
        digits@ == digits_of_text(input@, 16, 2),
{
    text_to_digits(input, 16, 2)
}

/// Writes each character of `input` as its code point in binary, with at
/// least eight digits.
pub fn str_to_bin(input: &str) -> (digits: String)
    ensures
        digits@ == digits_of_text(input@, 2, 8),
{
    text_to_digits(input, 2, 8)
}

/// The value of one digit.
fn digit_of(byte: u8, radix: u32) -> (value: Option<u32>)
    requires
        radix <= 36,
    ensures
        match value {
            Some(v) => digit_value(byte, radix as nat) == Some(v as nat),
            None => digit_value(byte, radix as nat) is None,
        },
{
    let value: u32 = if 48 <= byte && byte <= 57 {
        (byte - 48) as u32
    } else if 97 <= byte && byte <= 122 {
        (byte - 97 + 10) as u32
    } else if 65 <= byte && byte <= 90 {
        (byte - 65 + 10) as u32
    } else {
        return None;
    };
    if value < radix {
        Some(value)
    } else {
        None
    }
}

/// Reads the group of `width` bytes that starts at `start` as a number.
fn group_number(bytes: &[u8], start: usize, width: usize, radix: u32) -> (value: Option<u8>)
    requires
        2 <= radix <= 36,
        start + width <= bytes@.len(),
        pow(radix as int, width as nat) <= 256,
    ensures
        match value {
            Some(v) => group_value(
                bytes@.subrange(start as int, start + width),
                radix as nat,
            ) == Some(v as nat),
            None => group_value(bytes@.subrange(start as int, start + width), radix as nat)
                is None,
        },
{
    let len = bytes.len();
    let ghost group = bytes@.subrange(start as int, start + width);
    let signed = width > 0 && bytes[start] == 43;
    let skip: usize = if signed {
        1
    } else {
        0
    };
    let ghost digits = if signed {
        group.skip(1)
    } else {
        group
    };
    if skip == width {
        return None;
    }
    let mut value: u32 = 0;
    let mut k: usize = skip;
    proof {
        reveal(pow);
        assert(digits.take(0) == Seq::<u8>::empty());
        assert(group.len() == width);
        assert(group[0] == bytes@[start as int]);
        assert(group.skip(0) == group);
        assert(group_value(group, radix as nat) == number(digits, radix as nat));
    }
    while k < width
        invariant
            skip <= k <= width,
            2 <= radix <= 36,
            start + width <= len,
            len == bytes@.len(),
            digits == group.skip(skip as int),
            group == bytes@.subrange(start as int, start + width),
            group_value(group, radix as nat) == number(digits, radix as nat),
            number(digits.take(k - skip), radix as nat) == Some(value as nat),
            value < pow(radix as int, (k - skip) as nat),
            pow(radix as int, width as nat) <= 256,
        decreases width - k,
    {
        let ghost read = (k - skip) as nat;
        proof {
            assert(digits.take(read as int + 1).drop_last() == digits.take(read as int));
            assert(digits.take(read as int + 1).last() == bytes@[start + k]);
            lemma_pow_increases(radix as nat, read, width as nat);
            lemma_pow_increases(radix as nat, read + 1, width as nat);
            reveal(pow);
            let earlier = pow(radix as int, read);
            assert(pow(radix as int, read + 1) == radix * earlier);
            assert(value < earlier ==> value * radix + radix <= radix * earlier)
                by (nonlinear_arith);
        }
        match digit_of(bytes[start + k], radix) {
            None => {
                proof {
                    assert(number(digits.take(read as int + 1), radix as nat) is None);
                    lemma_bad_digit_spoils(digits, radix as nat, read + 1);
                }
                return None;
            },
            Some(d) => {
                value = value * radix + d;
            },
        }
        k += 1;
    }
    proof {
        assert(digits.take(width - skip) == digits);
        lemma_pow_increases(radix as nat, (width - skip) as nat, width as nat);
    }
    Some(value as u8)
}

/// Digits that are no number at some length are no number at full length.
pub proof fn lemma_bad_digit_spoils(digits: Seq<u8>, radix: nat, read: nat)
    requires
        read <= digits.len(),
        number(digits.take(read as int), radix) is None,
    ensures
        number(digits, radix) is None,
    decreases digits.len(),
{
    if read < digits.len() {
        assert(digits.drop_last().take(read as int) == digits.take(read as int));
        lemma_bad_digit_spoils(digits.drop_last(), radix, read);
    } else {
        assert(digits.take(read as int) == digits);
    }
}

/// Reads `input` in groups of `width` digits and returns the text that the
/// numbers encode.
fn digits_to_text(input: &str, radix: u32, width: usize) -> (text: Result<String, DecodeError>)
    requires
        2 <= radix <= 36,
        width >= 1,
        pow(radix as int, width as nat) <= 256,
    ensures
        match text {
            Ok(t) => text_of_digits(encode_utf8(input@), radix as nat, width as nat) == Ok::<
                Seq<char>,
                DecodeFault,
            >(t@),
            Err(e) => text_of_digits(encode_utf8(input@), radix as nat, width as nat) == Err::<
                Seq<char>,
                DecodeFault,
            >(e@),
        },
{
    let bytes = input.as_bytes();
    let len = bytes.len();
    let groups = len / width;
    let mut decoded: Vec<u8> = Vec::new();
    let mut k: usize = 0;
    let mut start: usize = 0;
    while k < groups
        invariant
            k <= groups,
            len == bytes@.len(),
            groups == len / width,
            start == k * width,
            bytes@ == input.spec_bytes(),
            2 <= radix <= 36,
            width >= 1,
            pow(radix as int, width as nat) <= 256,
            decoded_groups(bytes@, radix as nat, width as nat, k as nat) == Ok::<
                Seq<u8>,
                DecodeFault,
            >(decoded@),
        decreases groups - k,
    {
        proof {
            assert(start + width <= len && (k + 1) * width == start + width) by (nonlinear_arith)
                requires
                    start == k * width,
                    k + 1 <= len / width,
                    width >= 1,
            ;
        }
        if !input.is_char_boundary(start + width) {
            proof {
                let fault = DecodeFault::SplitCharacter { offset: start as nat };
                assert(decoded_groups(bytes@, radix as nat, width as nat, (k + 1) as nat) == Err::<
                    Seq<u8>,
                    DecodeFault,
                >(fault));
                lemma_fault_persists(
                    bytes@,
                    radix as nat,
                    width as nat,
                    (k + 1) as nat,
                    groups as nat,
                );
            }
            return Err(DecodeError::SplitCharacter { offset: start });
        }
        match group_number(bytes, start, width, radix) {
            None => {
                proof {
                    let fault = DecodeFault::InvalidDigit { offset: start as nat };
                    assert(decoded_groups(bytes@, radix as nat, width as nat, (k + 1) as nat)
                        == Err::<Seq<u8>, DecodeFault>(fault));
                    lemma_fault_persists(
                        bytes@,
                        radix as nat,
                        width as nat,
                        (k + 1) as nat,
                        groups as nat,
                    );
                }
                return Err(DecodeError::InvalidDigit { offset: start });
            },
            Some(value) => {
                decoded.push(value);
            },
        }
        k += 1;
        start += width;
    }
    match text_from_utf8(decoded) {
        Ok(text) => Ok(text),
        Err(rejected) => Err(DecodeError::InvalidUtf8 { bytes: rejected }),
    }
}

/// Reads `input` as pairs of hexadecimal digits, one byte each, and returns
/// the UTF-8 text that the bytes encode.
pub fn hex_to_str(input: &str) -> (text: Result<String, DecodeError>)
    ensures
        match text {
            Ok(t) => text_of_digits(encode_utf8(input@), 16, 2) == Ok::<Seq<char>, DecodeFault>(
                t@,
            ),
            Err(e) => text_of_digits(encode_utf8(input@), 16, 2) == Err::<Seq<char>, DecodeFault>(
                e@,
            ),
        },
{
    proof {
        reveal_with_fuel(pow, 3);
    }
    digits_to_text(input, 16, 2)
}

/// Reads `input` as groups of eight binary digits, one byte each, and
/// returns the UTF-8 text that the bytes encode.
pub fn bin_to_str(input: &str) -> (text: Result<String, DecodeError>)
    ensures
        match text {
            Ok(t) => text_of_digits(encode_utf8(input@), 2, 8) == Ok::<Seq<char>, DecodeFault>(
                t@,
            ),
            Err(e) => text_of_digits(encode_utf8(input@), 2, 8) == Err::<Seq<char>, DecodeFault>(
                e@,
            ),
        },
{
    proof {
        reveal_with_fuel(pow, 9);
    }
    digits_to_text(input, 2, 8)
}

} // verus!
