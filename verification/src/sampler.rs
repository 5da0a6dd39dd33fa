//! Turning raw random draws into bounded indices and character choices.

use vstd::prelude::*;
use crate::classes::CharacterClass;

verus! {

/// The class that a raw draw selects, or `None` where the draw selects
/// `Special` while special characters are not allowed and has to be repeated.
pub open spec fn class_for_draw(special: bool, raw: usize) -> Option<CharacterClass> {
    if !special && raw % 4 == 0 {
        None
    } else {
        Some(CharacterClass::from_selection(raw as int % 4))
    }
}

/// The character that a raw draw picks within a class.
pub open spec fn character_for_draw(class: CharacterClass, raw: usize) -> u8 {
    class.characters()[raw as int % class.characters().len() as int]
}

/// What one raw draw does to a sampler that is producing a character: the
/// class it holds afterwards, and the character it hands out, if any.
pub open spec fn character_step(
    special: bool,
    pending: Option<CharacterClass>,
    raw: usize,
) -> (Option<CharacterClass>, Option<u8>) {
    match pending {
        None => (class_for_draw(special, raw), None),
        Some(class) => (None, Some(character_for_draw(class, raw))),
    }
}

/// Converts raw random draws into indices, classes and characters. It holds
/// the policy on special characters and, between two draws of one character,
/// the class that the first draw chose.
pub struct Rand {
    special: bool,
    pending: Option<CharacterClass>,
}

impl Rand {
    /// Whether special characters may be chosen.
    pub closed spec fn special(&self) -> bool {
        self.special
    }

    /// The class chosen for the character under way, if its first draw was made.
    pub closed spec fn pending(&self) -> Option<CharacterClass> {
        self.pending
    }

    /// A class is pending only if the policy allows it.
    pub open spec fn well_formed(&self) -> bool {
        self.pending() == Some(CharacterClass::Special) ==> self.special()
    }

    pub fn new(special: bool) -> (rand: Rand)
        ensures
            rand.special() == special,
            rand.pending().is_none(),
            rand.well_formed(),
    {
        Rand { special, pending: None }
    }

    /// Whether special characters may be chosen.
    pub fn allows_special(&self) -> (allowed: bool)
        ensures
            allowed == self.special(),
    {
        self.special
    }

    /// Reduces a raw draw to an index below `range`.
    pub fn next_index(&self, raw: usize, range: usize) -> (index: usize)
        requires
            range > 0,
        ensures
            index == raw % range,
            index < range,
    {
        raw % range
    }

    /// The class that a raw draw selects; `None` asks for another draw. With
    /// special characters not allowed, `Special` is never selected.
    pub fn next_class(&self, raw: usize) -> (class: Option<CharacterClass>)
        ensures
            class == class_for_draw(self.special(), raw),
            !self.special() ==> class != Some(CharacterClass::Special),
    {
        let selection = self.next_index(raw, 4);
        if !self.special && selection == 0 {
            None
        } else {
            Some(CharacterClass::select(selection))
        }
    }

    /// Feeds one raw draw into the character under way. The first accepted
    /// draw fixes its class, the draw after that picks the character within
    /// the class and hands it out.
    pub fn next_char(&mut self, raw: usize) -> (byte: Option<u8>)
        requires
            old(self).well_formed(),
        ensures
            final(self).special() == old(self).special(),
            (final(self).pending(), byte) == character_step(
                old(self).special(),
                old(self).pending(),
                raw,
            ),
            final(self).well_formed(),
            byte matches Some(b) ==> old(self).pending() matches Some(class) && class.holds(b),
    {
        match self.pending {
            None => {
                self.pending = self.next_class(raw);
                None
            },
            Some(class) => {
                let index = self.next_index(raw, class.size());
                self.pending = None;
                Some(class.character(index))
            },
        }
    }
}

} // verus!
