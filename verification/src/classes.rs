//! The four character classes a password is built from.

use vstd::prelude::*;

verus! {

/// A class of password characters: a fixed, ordered set of ASCII bytes.
#[derive(Clone, Copy, Debug, PartialEq, Eq, Structural)]
pub enum CharacterClass {
    Special,
    Upper,
    Lower,
    Digit,
}

impl CharacterClass {
    /// The bytes of the class, in their fixed order.
    pub open spec fn characters(self) -> Seq<u8> {
        match self {
            CharacterClass::Special => seq![
                '!' as u8,
                '@' as u8,
                '#' as u8,
                '$' as u8,
                '%' as u8,
                '&' as u8,
                '*' as u8,
                '^' as u8,
            ],
            CharacterClass::Upper => Seq::new(26, |i: int| ('A' as u8 + i) as u8),
            CharacterClass::Lower => Seq::new(26, |i: int| ('a' as u8 + i) as u8),
            CharacterClass::Digit => Seq::new(10, |i: int| ('0' as u8 + i) as u8),
        }
    }

    /// Whether `byte` belongs to the class.
    pub open spec fn holds(self, byte: u8) -> bool {
        match self {
            CharacterClass::Special => byte == '!' as u8 || byte == '@' as u8 || byte == '#' as u8
                || byte == '$' as u8 || byte == '%' as u8 || byte == '&' as u8 || byte == '*' as u8
                || byte == '^' as u8,
            CharacterClass::Upper => 'A' as u8 <= byte <= 'Z' as u8,
            CharacterClass::Lower => 'a' as u8 <= byte <= 'z' as u8,
            CharacterClass::Digit => '0' as u8 <= byte <= '9' as u8,
        }
    }

    /// The class that a selection in `0..4` stands for: `Special`, `Upper`,
    /// `Lower`, `Digit`, in that order.
    pub open spec fn from_selection(selection: int) -> CharacterClass {
        if selection == 0 {
            CharacterClass::Special
        } else if selection == 1 {
            CharacterClass::Upper
        } else if selection == 2 {
            CharacterClass::Lower
        } else {
            CharacterClass::Digit
        }
    }

    /// `holds` is membership in `characters`.
    pub proof fn lemma_holds_iff_listed(self, byte: u8)
        ensures
            self.holds(byte) <==> self.characters().contains(byte),
    {
        let s = self.characters();
        if self.holds(byte) {
            match self {
                CharacterClass::Special => {
                    let k: int = if byte == '!' as u8 {
                        0
                    } else if byte == '@' as u8 {
                        1
                    } else if byte == '#' as u8 {
                        2
                    } else if byte == '$' as u8 {
                        3
                    } else if byte == '%' as u8 {
                        4
                    } else if byte == '&' as u8 {
                        5
                    } else if byte == '*' as u8 {
                        6
                    } else {
                        7
                    };
                    assert(s[k] == byte);
                },
                CharacterClass::Upper => {
                    assert(s[byte - 'A' as u8] == byte);
                },
                CharacterClass::Lower => {
                    assert(s[byte - 'a' as u8] == byte);
                },
                CharacterClass::Digit => {
                    assert(s[byte - '0' as u8] == byte);
                },
            }
        }
        if s.contains(byte) {
            let k = choose|k: int| 0 <= k < s.len() && s[k] == byte;
            assert(self.holds(s[k]));
        }
    }

    /// The number of characters in the class.
    pub fn size(self) -> (n: usize)
        ensures
            n == self.characters().len(),
            n > 0,
    {
        match self {
            CharacterClass::Special => 8,
            CharacterClass::Upper => 26,
            CharacterClass::Lower => 26,
            CharacterClass::Digit => 10,
        }
    }

    /// The character at `index` in the class.
    pub fn character(self, index: usize) -> (byte: u8)
        requires
            index < self.characters().len(),
        ensures
            byte == self.characters()[index as int],
            self.holds(byte),
    {
        let offset: u8 = index as u8;
        match self {
            CharacterClass::Special => {
                if index == 0 {
                    33
                } else if index == 1 {
                    64
                } else if index == 2 {
                    35
                } else if index == 3 {
                    36
                } else if index == 4 {
                    37
                } else if index == 5 {
                    38
                } else if index == 6 {
                    42
                } else {
                    94
                }
            },
            CharacterClass::Upper => 65 + offset,
            CharacterClass::Lower => 97 + offset,
            CharacterClass::Digit => 48 + offset,
        }
    }

    /// The class for a selection in `0..4`.
    pub fn select(selection: usize) -> (class: CharacterClass)
        ensures
            class == CharacterClass::from_selection(selection as int),
    {
        if selection == 0 {
            CharacterClass::Special
        } else if selection == 1 {
            CharacterClass::Upper
        } else if selection == 2 {
            CharacterClass::Lower
        } else {
            CharacterClass::Digit
        }
    }
}

/// Whether `byte` belongs to one of the four classes.
pub open spec fn is_password_byte(byte: u8) -> bool {
    CharacterClass::Special.holds(byte) || CharacterClass::Upper.holds(byte)
        || CharacterClass::Lower.holds(byte) || CharacterClass::Digit.holds(byte)
}

} // verus!
