//! The password builder: a state machine that is fed one raw random draw at
//! a time. It first fills the password, slot by slot, then shuffles it.

use vstd::prelude::*;
use crate::classes::{is_password_byte, CharacterClass};
use crate::sampler::{character_for_draw, character_step, Rand};

verus! {

/// What the builder does with the next draw.
#[derive(Clone, Copy, Debug, PartialEq, Eq, Structural)]
pub enum Stage {
    /// The next draw goes into the character that is appended next.
    Fill,
    /// The next draw picks the partner of position `index` in pass number
    /// `pass` of the shuffle.
    Shuffle { pass: u128, index: usize },
    /// The password is finished; no draw is needed.
    Complete,
}

/// The builder as a mathematical value.
pub struct BuilderState {
    pub length: nat,
    pub special: bool,
    pub pending: Option<CharacterClass>,
    pub bytes: Seq<u8>,
    pub stage: Stage,
}

/// The class that the template fixes for a slot, or `None` where the class is
/// drawn: the first eight slots are special, upper, digit, special, upper,
/// digit, lower, lower; with special characters not allowed, slots 0 and 3
/// are drawn like those from 8 on.
pub open spec fn slot_class(slot: int, special: bool) -> Option<CharacterClass> {
    if slot == 0 || slot == 3 {
        if special {
            Some(CharacterClass::Special)
        } else {
            None
        }
    } else if slot == 1 || slot == 4 {
        Some(CharacterClass::Upper)
    } else if slot == 2 || slot == 5 {
        Some(CharacterClass::Digit)
    } else if slot == 6 || slot == 7 {
        Some(CharacterClass::Lower)
    } else {
        None
    }
}

/// The state before the first draw.
pub open spec fn initial_state(length: nat, special: bool) -> BuilderState {
    BuilderState {
        length,
        special,
        pending: None,
        bytes: Seq::empty(),
        stage: if length == 0 {
            Stage::Complete
        } else {
            Stage::Fill
        },
    }
}

/// The stage once `filled` characters are there.
pub open spec fn stage_after_fill(length: nat, filled: nat) -> Stage {
    if filled < length {
        Stage::Fill
    } else if length >= 2 {
        Stage::Shuffle { pass: 0, index: (length - 1) as usize }
    } else {
        Stage::Complete
    }
}

/// The stage after the swap at `index` in pass `pass`: a pass runs from the
/// last position down to position 1, and there are twice as many passes as
/// the password has characters.
pub open spec fn stage_after_swap(length: nat, pass: u128, index: usize) -> Stage {
    if index > 1 {
        Stage::Shuffle { pass, index: (index - 1) as usize }
    } else if pass + 1 < 2 * length {
        Stage::Shuffle { pass: (pass + 1) as u128, index: (length - 1) as usize }
    } else {
        Stage::Complete
    }
}

/// `bytes` with the values at `i` and `j` exchanged.
pub open spec fn swapped(bytes: Seq<u8>, i: int, j: int) -> Seq<u8> {
    bytes.update(i, bytes[j]).update(j, bytes[i])
}

/// The state after one draw.
pub open spec fn step(s: BuilderState, raw: usize) -> BuilderState {
    match s.stage {
        Stage::Complete => s,
        Stage::Fill => {
            let (pending, byte) = match slot_class(s.bytes.len() as int, s.special) {
                Some(class) => (s.pending, Some(character_for_draw(class, raw))),
                None => character_step(s.special, s.pending, raw),
            };
            match byte {
                None => BuilderState { pending, ..s },
                Some(b) => BuilderState {
                    pending,
                    bytes: s.bytes.push(b),
                    stage: stage_after_fill(s.length, s.bytes.len() + 1),
                    ..s
                },
            }
        },
        Stage::Shuffle { pass, index } => BuilderState {
            bytes: swapped(s.bytes, index as int, raw as int % (index + 1)),
            stage: stage_after_swap(s.length, pass, index),
            ..s
        },
    }
}

/// The state after a sequence of draws, fed in order.
pub open spec fn run(s: BuilderState, draws: Seq<usize>) -> BuilderState
    decreases draws.len(),
{
    if draws.len() == 0 {
        s
    } else {
        step(run(s, draws.drop_last()), draws.last())
    }
}

/// Every character so far stands in the class that the template fixes for
/// its slot.
pub open spec fn follows_template(bytes: Seq<u8>, special: bool) -> bool {
    forall|k: int|
        0 <= k < bytes.len() ==> (#[trigger] slot_class(k, special) matches Some(class)
            ==> class.holds(bytes[k]))
}

/// Every byte belongs to one of the four classes.
pub open spec fn all_password_bytes(bytes: Seq<u8>) -> bool {
    forall|k: int| 0 <= k < bytes.len() ==> is_password_byte(#[trigger] bytes[k])
}

/// No byte is a special character.
pub open spec fn no_special_bytes(bytes: Seq<u8>) -> bool {
    forall|k: int| 0 <= k < bytes.len() ==> !CharacterClass::Special.holds(#[trigger] bytes[k])
}

/// No swap has been made yet.
pub open spec fn unshuffled(s: BuilderState) -> bool {
    match s.stage {
        Stage::Fill => true,
        Stage::Shuffle { pass, index } => pass == 0 && index == s.length - 1,
        Stage::Complete => s.length <= 1,
    }
}

/// What holds of every state that the builder reaches.
pub open spec fn state_ok(s: BuilderState) -> bool {
    &&& s.length <= usize::MAX
    &&& s.bytes.len() <= s.length
    &&& all_password_bytes(s.bytes)
    &&& !s.special ==> no_special_bytes(s.bytes)
    &&& s.pending == Some(CharacterClass::Special) ==> s.special
    &&& match s.stage {
        Stage::Fill => s.bytes.len() < s.length && (slot_class(s.bytes.len() as int, s.special)
            is Some ==> s.pending is None),
        Stage::Shuffle { pass, index } => s.bytes.len() == s.length && 1 <= index < s.length
            && pass < 2 * s.length && s.pending is None,
        Stage::Complete => s.bytes.len() == s.length && s.pending is None,
    }
    &&& unshuffled(s) ==> follows_template(s.bytes, s.special)
}

/// A draw takes a reachable state to a reachable state.
pub proof fn lemma_step_keeps_state_ok(s: BuilderState, raw: usize)
    requires
        state_ok(s),
    ensures
        state_ok(step(s, raw)),
{
    let t = step(s, raw);
    match s.stage {
        Stage::Complete => {},
        Stage::Fill => {
            let slot = s.bytes.len() as int;
            match slot_class(slot, s.special) {
                Some(class) => {
                    let b = character_for_draw(class, raw);
                    class.lemma_holds_iff_listed(b);
                    assert(class.holds(b));
                    assert(t.bytes == s.bytes.push(b));
                    assert(follows_template(t.bytes, t.special));
                },
                None => {
                    match s.pending {
                        None => {},
                        Some(class) => {
                            let b = character_for_draw(class, raw);
                            class.lemma_holds_iff_listed(b);
                            assert(class.holds(b));
                            assert(t.bytes == s.bytes.push(b));
                            assert(follows_template(t.bytes, t.special));
                        },
                    }
                },
            }
        },
        Stage::Shuffle { pass, index } => {
            let j = raw as int % (index + 1);
            assert(0 <= j <= index);
            assert(t.bytes == swapped(s.bytes, index as int, j));
            assert forall|k: int| 0 <= k < t.bytes.len() implies is_password_byte(
                #[trigger] t.bytes[k],
            ) by {
                if k == j {
                    assert(t.bytes[k] == s.bytes[index as int]);
                } else if k == index {
                    assert(t.bytes[k] == s.bytes[j]);
                } else {
                    assert(t.bytes[k] == s.bytes[k]);
                }
            }
            if !s.special {
                assert forall|k: int| 0 <= k < t.bytes.len() implies !CharacterClass::Special.holds(
                    #[trigger] t.bytes[k],
                ) by {
                    if k == j {
                        assert(t.bytes[k] == s.bytes[index as int]);
                    } else if k == index {
                        assert(t.bytes[k] == s.bytes[j]);
                    } else {
                        assert(t.bytes[k] == s.bytes[k]);
                    }
                }
            }
        },
    }
}

/// Any sequence of draws takes a reachable state to a reachable state, for
/// the same length and the same policy on special characters.
pub proof fn lemma_run_keeps_state_ok(s: BuilderState, draws: Seq<usize>)
    requires
        state_ok(s),
    ensures
        state_ok(run(s, draws)),
        run(s, draws).length == s.length,
        run(s, draws).special == s.special,
    decreases draws.len(),
{
    if draws.len() > 0 {
        lemma_run_keeps_state_ok(s, draws.drop_last());
        lemma_step_keeps_state_ok(run(s, draws.drop_last()), draws.last());
    }
}

/// The class that the template fixes for a slot, if any.
pub fn template_class(slot: usize, special: bool) -> (class: Option<CharacterClass>)
    ensures
        class == slot_class(slot as int, special),
{
    if slot == 0 || slot == 3 {
        if special {
            Some(CharacterClass::Special)
        } else {
            None
        }
    } else if slot == 1 || slot == 4 {
        Some(CharacterClass::Upper)
    } else if slot == 2 || slot == 5 {
        Some(CharacterClass::Digit)
    } else if slot == 6 || slot == 7 {
        Some(CharacterClass::Lower)
    } else {
        None
    }
}

/// Builds one password from raw random draws that its owner feeds in, one
/// at a time, until the builder is complete.
pub struct PasswordBuilder {
    length: usize,
    rng: Rand,
    bytes: Vec<u8>,
    stage: Stage,
}

impl View for PasswordBuilder {
    type V = BuilderState;

    closed spec fn view(&self) -> BuilderState {
        BuilderState {
            length: self.length as nat,
            special: self.rng.special(),
            pending: self.rng.pending(),
            bytes: self.bytes@,
            stage: self.stage,
        }
    }
}

impl PasswordBuilder {
    /// The builder is in a state that `new` and `feed` can leave it in.
    pub open spec fn well_formed(&self) -> bool {
        state_ok(self@)
    }

    /// A builder for a password of `length` characters. For length 0 it is
    /// complete at once.
    pub fn new(length: usize, special: bool) -> (builder: PasswordBuilder)
        ensures
            builder@ == initial_state(length as nat, special),
            builder.well_formed(),
    {
        let stage = if length == 0 {
            Stage::Complete
        } else {
            Stage::Fill
        };
        PasswordBuilder { length, rng: Rand::new(special), bytes: Vec::new(), stage }
    }

    /// Whether the password is finished.
    pub fn is_complete(&self) -> (complete: bool)
        ensures
            complete == (self@.stage is Complete),
    {
        match self.stage {
            Stage::Complete => true,
            _ => false,
        }
    }

    /// Whether no swap of the shuffle has been made yet: the characters so
    /// far stand where the template put them.
    pub fn is_unshuffled(&self) -> (unshuffled: bool)
        requires
            self.well_formed(),
        ensures
            unshuffled == self::unshuffled(self@),
            unshuffled ==> follows_template(self@.bytes, self@.special),
    {
        match self.stage {
            Stage::Fill => true,
            Stage::Shuffle { pass, index } => pass == 0 && index == self.length - 1,
            Stage::Complete => self.length <= 1,
        }
    }

    /// The characters so far.
    pub fn bytes(&self) -> (bytes: &Vec<u8>)
        ensures
            bytes@ == self@.bytes,
    {
        &self.bytes
    }

    /// The finished password, or `None` while draws are still needed.
    pub fn into_password(self) -> (password: Option<Vec<u8>>)
        ensures
            password is Some <==> self@.stage is Complete,
            password matches Some(p) ==> p@ == self@.bytes,
    {
        match self.stage {
            Stage::Complete => Some(self.bytes),
            _ => None,
        }
    }

    /// Feeds one raw draw. A complete builder ignores it.
    pub fn feed(&mut self, raw: usize)
        requires
            old(self).well_formed(),
        ensures
            final(self)@ == step(old(self)@, raw),
            final(self).well_formed(),
    {
        proof {
            lemma_step_keeps_state_ok(self@, raw);
        }
        match self.stage {
            Stage::Complete => {},
            Stage::Fill => {
                let slot = self.bytes.len();
                let byte = match template_class(slot, self.rng.allows_special()) {
                    Some(class) => {
                        let index = self.rng.next_index(raw, class.size());
                        Some(class.character(index))
                    },
                    None => self.rng.next_char(raw),
                };
                if let Some(b) = byte {
                    self.bytes.push(b);
                    let filled = self.bytes.len();
                    self.stage = if filled < self.length {
                        Stage::Fill
                    } else if self.length >= 2 {
                        Stage::Shuffle { pass: 0, index: self.length - 1 }
                    } else {
                        Stage::Complete
                    };
                }
            },
            Stage::Shuffle { pass, index } => {
                let partner = self.rng.next_index(raw, index + 1);
                let moved = self.bytes[index];
                let other = self.bytes[partner];
                self.bytes.set(index, other);
                self.bytes.set(partner, moved);
                self.stage = if index > 1 {
                    Stage::Shuffle { pass, index: index - 1 }
                } else if pass + 1 < 2 * (self.length as u128) {
                    Stage::Shuffle { pass: pass + 1, index: self.length - 1 }
                } else {
                    Stage::Complete
                };
            },
        }
    }
}

} // verus!
