//! Password strength: a heuristic label computed from the length of a
//! password and the variety of its characters.

use vstd::prelude::*;
use vstd::arithmetic::power::{lemma0_pow, lemma1_pow, lemma_pow_increases, pow};
use vstd::arithmetic::power2::{lemma2_to64, lemma_pow2_adds, pow2};
use std::collections::HashSet;
use crate::chars::{
    any_char, characters, decimal_digit, is_alphanumeric, is_decimal_digit,
    is_lowercase, is_uppercase, lemma_any_char_push, unicode_alphanumeric, unicode_lowercase,
    unicode_uppercase,
};

verus! {

/// How strong a password is judged to be, from weakest to strongest.
#[derive(Clone, Copy, Debug, PartialEq, Eq, Structural)]
pub enum StrengthLabel {
    Weak,
    Medium,
    Strong,
    VeryStrong,
}

impl StrengthLabel {
    /// The position of the label in the order from weakest to strongest.
    pub open spec fn rank_spec(self) -> nat {
        match self {
            StrengthLabel::Weak => 0,
            StrengthLabel::Medium => 1,
            StrengthLabel::Strong => 2,
            StrengthLabel::VeryStrong => 3,
        }
    }

    /// The label as text.
    pub open spec fn text(self) -> Seq<char> {
        match self {
            StrengthLabel::Weak => "Weak"@,
            StrengthLabel::Medium => "Medium"@,
            StrengthLabel::Strong => "Strong"@,
            StrengthLabel::VeryStrong => "Very Strong"@,
        }
    }

    /// The position of the label in the order from weakest to strongest.
    pub fn rank(self) -> (rank: u8)
        ensures
            rank == self.rank_spec(),
    {
        match self {
            StrengthLabel::Weak => 0,
            StrengthLabel::Medium => 1,
            StrengthLabel::Strong => 2,
            StrengthLabel::VeryStrong => 3,
        }
    }

    /// The label as text: `Weak`, `Medium`, `Strong` or `Very Strong`.
    pub fn as_str(self) -> (text: &'static str)
        ensures
            text@ == self.text(),
    {
        match self {
            StrengthLabel::Weak => "Weak",
            StrengthLabel::Medium => "Medium",
            StrengthLabel::Strong => "Strong",
            StrengthLabel::VeryStrong => "Very Strong",
        }
    }
}

/// Two to the power of thirty times the score of a password, where the score
/// is `length * (log2(distinct) + bonus) / 30`.
pub open spec fn strength_weight(length: nat, distinct: nat, bonus: nat) -> int {
    pow((distinct * pow2(bonus)) as int, length)
}

/// Whether the score `length * (log2(distinct) + bonus) / 30` is at least
/// `level`, decided in whole numbers.
pub open spec fn score_reaches(length: nat, distinct: nat, bonus: nat, level: nat) -> bool {
    strength_weight(length, distinct, bonus) >= pow2(30 * level)
}

/// The label for the score cut down to a whole number: 0 is weak, 1 medium,
/// 2 strong, and anything above very strong.
pub open spec fn strength_for(length: nat, distinct: nat, bonus: nat) -> StrengthLabel {
    if !score_reaches(length, distinct, bonus, 1) {
        StrengthLabel::Weak
    } else if !score_reaches(length, distinct, bonus, 2) {
        StrengthLabel::Medium
    } else if !score_reaches(length, distinct, bonus, 3) {
        StrengthLabel::Strong
    } else {
        StrengthLabel::VeryStrong
    }
}

/// What the strength of a password is computed from.
#[derive(Clone, Copy, Debug, PartialEq, Eq, Structural)]
pub struct PasswordTraits {
    /// The length of the password: the number of its characters.
    pub length: usize,
    /// The number of different characters in it.
    pub distinct: usize,
    /// It holds a decimal digit and a character that is none.
    pub mixes_digits: bool,
    /// It holds an upper-case and a lower-case character.
    pub mixes_case: bool,
    /// It holds a character that is neither a letter nor a number.
    pub has_symbol: bool,
}

impl PasswordTraits {
    /// The number of bonus points: one for each of the three findings.
    pub open spec fn bonus(self) -> nat {
        ((if self.mixes_digits {
            1nat
        } else {
            0nat
        }) + (if self.mixes_case {
            1nat
        } else {
            0nat
        }) + (if self.has_symbol {
            1nat
        } else {
            0nat
        })) as nat
    }

    /// The label that these traits earn.
    pub open spec fn label(self) -> StrengthLabel {
        strength_for(self.length as nat, self.distinct as nat, self.bonus())
    }

    /// The label that these traits earn. An empty password is weak.
    pub fn strength(&self) -> (label: StrengthLabel)
        ensures
            label == self.label(),
    {
        let mut bonus_factor: u128 = 1;
        if self.mixes_digits {
            bonus_factor = bonus_factor * 2;
        }
        if self.mixes_case {
            bonus_factor = bonus_factor * 2;
        }
        if self.has_symbol {
            bonus_factor = bonus_factor * 2;
        }
        let factor: u128 = (self.distinct as u128) * bonus_factor;
        let medium: u128 = 0x4000_0000;
        let strong: u128 = 0x1000_0000_0000_0000;
        let cap: u128 = 0x400_0000_0000_0000_0000_0000;
        let ghost length = self.length as nat;
        proof {
            lemma2_to64();
            lemma_pow2_adds(30, 30);
            lemma_pow2_adds(60, 30);
            assert(bonus_factor == pow2(self.bonus()));
            assert(medium == pow2(30 * 1));
            assert(strong == pow2(30 * 2));
            assert(cap == pow2(30 * 3));
            assert(strength_weight(length, self.distinct as nat, self.bonus()) == pow(
                factor as int,
                length,
            ));
        }
        if factor <= 1 {
            proof {
                if factor == 1 {
                    lemma1_pow(length);
                } else if length > 0 {
                    lemma0_pow(length);
                } else {
                    reveal(pow);
                }
            }
            return StrengthLabel::Weak;
        }
        let mut weight: u128 = 1;
        let mut i: usize = 0;
        proof {
            reveal(pow);
        }
        while i < self.length && weight < cap
            invariant
                i <= self.length,
                factor >= 2,
                weight <= cap,
                cap == 0x400_0000_0000_0000_0000_0000,
                weight < cap ==> weight == pow(factor as int, i as nat),
                weight == cap ==> pow(factor as int, i as nat) >= cap,
            decreases self.length - i,
        {
            proof {
                reveal(pow);
                let earlier = pow(factor as int, i as nat);
                assert(pow(factor as int, (i + 1) as nat) == factor * earlier);
                assert(factor * earlier == earlier * factor) by (nonlinear_arith);
            }
            weight = match weight.checked_mul(factor) {
                Some(product) => if product < cap {
                    product
                } else {
                    cap
                },
                None => cap,
            };
            i += 1;
        }
        proof {
            if weight == cap {
                lemma_pow_increases(factor as nat, i as nat, length);
            }
        }
        if weight < medium {
            StrengthLabel::Weak
        } else if weight < strong {
            StrengthLabel::Medium
        } else if weight < cap {
            StrengthLabel::Strong
        } else {
            StrengthLabel::VeryStrong
        }
    }
}

/// The traits of a password.
pub open spec fn traits_of(password: Seq<char>) -> PasswordTraits {
    PasswordTraits {
        length: password.len() as usize,
        distinct: password.to_set().len() as usize,
        mixes_digits: any_char(password, |c: char| decimal_digit(c)) && any_char(
            password,
            |c: char| !decimal_digit(c),
        ),
        mixes_case: any_char(password, |c: char| unicode_uppercase(c)) && any_char(
            password,
            |c: char| unicode_lowercase(c),
        ),
        has_symbol: any_char(password, |c: char| !unicode_alphanumeric(c)),
    }
}

/// The number of different characters in `list`, counted with a hash set of
/// their code points.
pub fn distinct_characters(list: &Vec<char>) -> (count: usize)
    ensures
        count == list@.to_set().len(),
{
    broadcast use vstd::std_specs::hash::group_hash_axioms;

    let ghost code = |c: char| c as u32;
    let mut seen: HashSet<u32> = HashSet::new();
    let mut i: usize = 0;
    proof {
        assert(list@.take(0).to_set() == Set::<char>::empty());
        assert(Set::<char>::empty().map(code) == Set::<u32>::empty());
    }
    while i < list.len()
        invariant
            i <= list.len(),
            code == |c: char| c as u32,
            seen@ == list@.take(i as int).to_set().map(code),
        decreases list.len() - i,
    {
        let c: char = list[i];
        proof {
            let before = list@.take(i as int);
            list@.lemma_take_succ_push(i as int);
            before.lemma_push_to_set_commute(c);
            before.to_set().lemma_set_map_insert_commute(c, code);
        }
        seen.insert(c as u32);
        i += 1;
    }
    proof {
        assert(list@.take(i as int) == list@);
        let all = list@.to_set();
        vstd::seq_lib::seq_to_set_is_finite(list@);
        assert(vstd::relations::injective_on(code, all)) by {
            assert forall|a: char, b: char|
                all.contains(a) && all.contains(b) && #[trigger] code(a) == #[trigger] code(
                    b,
                ) implies a == b by {
                vstd::utf8::char_u32_cast(a, a as u32);
                vstd::utf8::char_u32_cast(b, b as u32);
            }
        }
        vstd::set_lib::lemma_map_size(all, seen@, code);
    }
    seen.len()
}

/// Finds the traits of a password.
pub fn password_traits(password: &str) -> (traits: PasswordTraits)
    ensures
        traits == traits_of(password@),
{
    let list = characters(password);
    let mut digit = false;
    let mut other = false;
    let mut upper = false;
    let mut lower = false;
    let mut symbol = false;
    let mut i: usize = 0;
    while i < list.len()
        invariant
            i <= list.len(),
            digit == any_char(list@.take(i as int), |c: char| decimal_digit(c)),
            other == any_char(list@.take(i as int), |c: char| !decimal_digit(c)),
            upper == any_char(list@.take(i as int), |c: char| unicode_uppercase(c)),
            lower == any_char(list@.take(i as int), |c: char| unicode_lowercase(c)),
            symbol == any_char(list@.take(i as int), |c: char| !unicode_alphanumeric(c)),
        decreases list.len() - i,
    {
        let c = list[i];
        proof {
            let before = list@.take(i as int);
            list@.lemma_take_succ_push(i as int);
            lemma_any_char_push(before, c, |c: char| decimal_digit(c));
            lemma_any_char_push(before, c, |c: char| !decimal_digit(c));
            lemma_any_char_push(before, c, |c: char| unicode_uppercase(c));
            lemma_any_char_push(before, c, |c: char| unicode_lowercase(c));
            lemma_any_char_push(before, c, |c: char| !unicode_alphanumeric(c));
        }
        if is_decimal_digit(c) {
            digit = true;
        } else {
            other = true;
        }
        if is_uppercase(c) {
            upper = true;
        }
        if is_lowercase(c) {
            lower = true;
        }
        if !is_alphanumeric(c) {
            symbol = true;
        }
        i += 1;
    }
    proof {
        assert(list@.take(i as int) == list@);
    }
    PasswordTraits {
        length: list.len(),
        distinct: distinct_characters(&list),
        mixes_digits: digit && other,
        mixes_case: upper && lower,
        has_symbol: symbol,
    }
}

/// Judges the strength of a password and returns the label as text.
pub fn check_password_strength(password: &str) -> (text: &'static str)
    ensures
        text@ == traits_of(password@).label().text(),
{
    password_traits(password).strength().as_str()
}

/// Judges the strength of a password and returns the label as an owned
/// string.
pub fn get_pass_strength(password: &str) -> (text: String)
    ensures
        text@ == traits_of(password@).label().text(),
{
    check_password_strength(password).to_owned()
}

} // verus!
