//! Whole passwords from a finite supply of raw draws, and what holds of
//! every password that the builder produces.

use vstd::prelude::*;
use crate::builder::{
    all_password_bytes, follows_template, initial_state, lemma_run_keeps_state_ok,
    no_special_bytes, run, slot_class, state_ok, step, swapped, unshuffled, BuilderState,
    PasswordBuilder, Stage,
};
use crate::chars::push_char;
use crate::classes::CharacterClass;

verus! {

/// The password that `draws` produce, or `None` if they run out before the
/// builder is complete. Draws beyond the last one needed are not looked at.
pub open spec fn generated(length: nat, special: bool, draws: Seq<usize>) -> Option<Seq<u8>> {
    let end = run(initial_state(length, special), draws);
    if end.stage is Complete {
        Some(end.bytes)
    } else {
        None
    }
}

/// The characters of the bytes of a password.
pub open spec fn as_text(bytes: Seq<u8>) -> Seq<char> {
    bytes.map_values(|b: u8| b as char)
}

/// A complete builder stays as it is, whatever is drawn.
pub proof fn lemma_complete_is_final(s: BuilderState, draws: Seq<usize>)
    requires
        s.stage is Complete,
    ensures
        run(s, draws) == s,
    decreases draws.len(),
{
    if draws.len() > 0 {
        lemma_complete_is_final(s, draws.drop_last());
    }
}

/// Feeding `first` and then `second` is feeding their concatenation.
pub proof fn lemma_run_concat(s: BuilderState, first: Seq<usize>, second: Seq<usize>)
    ensures
        run(s, first + second) == run(run(s, first), second),
    decreases second.len(),
{
    if second.len() == 0 {
        assert(first + second == first);
    } else {
        lemma_run_concat(s, first, second.drop_last());
        assert((first + second).drop_last() == first + second.drop_last());
        assert((first + second).last() == second.last());
    }
}

/// The password depends on the draws alone, and only on those that are
/// needed: once a supply of draws yields a password, the same supply with
/// more draws behind it yields the same password.
pub proof fn lemma_surplus_draws_ignored(
    length: nat,
    special: bool,
    draws: Seq<usize>,
    surplus: Seq<usize>,
)
    requires
        generated(length, special, draws) is Some,
    ensures
        generated(length, special, draws + surplus) == generated(length, special, draws),
{
    let s = initial_state(length, special);
    lemma_run_concat(s, draws, surplus);
    lemma_complete_is_final(run(s, draws), surplus);
}

/// A password of length 0 is empty and needs no draw.
pub proof fn lemma_empty_password_needs_no_draw(special: bool, draws: Seq<usize>)
    ensures
        generated(0, special, draws) == Some(Seq::<u8>::empty()),
{
    lemma_complete_is_final(initial_state(0, special), draws);
}

/// Every generated password has the length asked for and consists of
/// characters of the four classes; with special characters not allowed it
/// holds none.
pub proof fn lemma_generated_is_valid(length: nat, special: bool, draws: Seq<usize>)
    requires
        length <= usize::MAX,
    ensures
        generated(length, special, draws) matches Some(p) ==> {
            &&& p.len() == length
            &&& all_password_bytes(p)
            &&& !special ==> no_special_bytes(p)
        },
{
    lemma_run_keeps_state_ok(initial_state(length, special), draws);
}

/// Until the first swap of the shuffle, every character stands in the class
/// that the template fixes for its slot. With special characters allowed,
/// slots 0 and 3 hold special characters; in any case slots 1 and 4 hold
/// upper-case letters, slots 2 and 5 digits, and slots 6 and 7 lower-case
/// letters.
pub proof fn lemma_template_before_shuffle(
    length: nat,
    special: bool,
    draws: Seq<usize>,
    slot: int,
)
    requires
        length <= usize::MAX,
        unshuffled(run(initial_state(length, special), draws)),
        0 <= slot < run(initial_state(length, special), draws).bytes.len(),
    ensures
        follows_template(run(initial_state(length, special), draws).bytes, special),
        special && (slot == 0 || slot == 3) ==> CharacterClass::Special.holds(
            run(initial_state(length, special), draws).bytes[slot],
        ),
        slot == 1 || slot == 4 ==> CharacterClass::Upper.holds(
            run(initial_state(length, special), draws).bytes[slot],
        ),
        slot == 2 || slot == 5 ==> CharacterClass::Digit.holds(
            run(initial_state(length, special), draws).bytes[slot],
        ),
        slot == 6 || slot == 7 ==> CharacterClass::Lower.holds(
            run(initial_state(length, special), draws).bytes[slot],
        ),
{
    lemma_run_keeps_state_ok(initial_state(length, special), draws);
    assert(slot_class(slot, special) is Some ==> slot_class(slot, special)->0.holds(
        run(initial_state(length, special), draws).bytes[slot],
    ));
}

/// Exchanging two positions keeps what a sequence holds.
pub proof fn lemma_swap_rearranges(bytes: Seq<u8>, i: int, j: int)
    requires
        0 <= i < bytes.len(),
        0 <= j < bytes.len(),
    ensures
        swapped(bytes, i, j).to_multiset() == bytes.to_multiset(),
{
    broadcast use vstd::multiset::group_multiset_axioms;

    let first = bytes.update(i, bytes[j]);
    vstd::seq_lib::to_multiset_update(bytes, i, bytes[j]);
    vstd::seq_lib::to_multiset_update(first, j, bytes[i]);
    vstd::seq_lib::to_multiset_contains(bytes, bytes[i]);
    vstd::seq_lib::to_multiset_contains(bytes, bytes[j]);
    assert(first[j] == bytes[j]);
    assert(swapped(bytes, i, j).to_multiset() =~= bytes.to_multiset());
}

/// Once the password is filled, draws only rearrange it: the shuffle keeps
/// every character, as often as it occurs.
pub proof fn lemma_shuffle_rearranges(s: BuilderState, draws: Seq<usize>)
    requires
        state_ok(s),
        !(s.stage is Fill),
    ensures
        !(run(s, draws).stage is Fill),
        run(s, draws).bytes.to_multiset() == s.bytes.to_multiset(),
    decreases draws.len(),
{
    if draws.len() > 0 {
        lemma_shuffle_rearranges(s, draws.drop_last());
        lemma_run_keeps_state_ok(s, draws.drop_last());
        let before = run(s, draws.drop_last());
        match before.stage {
            Stage::Shuffle { pass, index } => {
                lemma_swap_rearranges(
                    before.bytes,
                    index as int,
                    draws.last() as int % (index + 1),
                );
            },
            _ => {},
        }
    }
}

/// The number of draws that a password of `length` characters takes while
/// special characters are allowed: one for each of the first eight
/// characters, two for each one behind them, and one for each swap of the
/// shuffle, which makes `2 * length` passes of `length - 1` swaps.
pub open spec fn draws_needed(length: nat) -> nat {
    fill_draws(length) + if length >= 2 {
        (2 * length * (length - 1)) as nat
    } else {
        0nat
    }
}

/// The number of draws that the first `filled` characters take while
/// special characters are allowed.
pub open spec fn fill_draws(filled: nat) -> nat {
    if filled <= 8 {
        filled
    } else {
        (2 * filled - 8) as nat
    }
}

/// The number of draws that a builder which allows special characters still
/// takes.
pub open spec fn draws_left(s: BuilderState) -> int {
    match s.stage {
        Stage::Complete => 0,
        Stage::Fill => draws_needed(s.length) - fill_draws(s.bytes.len()) - if s.pending
            is Some {
            1int
        } else {
            0int
        },
        Stage::Shuffle { pass, index } => index + (2 * s.length - pass - 1) * (s.length - 1),
    }
}

/// While special characters are allowed, every draw brings an unfinished
/// builder one draw closer to the end.
pub proof fn lemma_draw_counts(s: BuilderState, raw: usize)
    requires
        state_ok(s),
        s.special,
        !(s.stage is Complete),
    ensures
        draws_left(s) >= 1,
        draws_left(step(s, raw)) == draws_left(s) - 1,
{
    let length = s.length as int;
    match s.stage {
        Stage::Complete => {},
        Stage::Fill => {
            assert(2 * length * (length - 1) == (length - 1) + (2 * length - 0 - 1) * (length
                - 1)) by (nonlinear_arith);
            assert(length >= 2 ==> 2 * length * (length - 1) >= 0) by (nonlinear_arith);
        },
        Stage::Shuffle { pass, index } => {
            let p = pass as int;
            assert((2 * length - p - 1) * (length - 1) == (length - 1) + (2 * length - (p + 1)
                - 1) * (length - 1)) by (nonlinear_arith);
            assert((2 * length - p - 1) * (length - 1) >= 0) by (nonlinear_arith)
                requires
                    p < 2 * length,
                    length >= 1,
            ;
            assert(p + 1 == 2 * length ==> (2 * length - p - 1) * (length - 1) == 0)
                by (nonlinear_arith);
        },
    }
}

/// While special characters are allowed, a supply of draws leaves as many
/// draws to take as it falls short of the number needed.
pub proof fn lemma_draws_left_after(s: BuilderState, draws: Seq<usize>)
    requires
        state_ok(s),
        s.special,
    ensures
        draws_left(run(s, draws)) == if draws.len() <= draws_left(s) {
            draws_left(s) - draws.len()
        } else {
            0
        },
        draws_left(run(s, draws)) == 0 <==> run(s, draws).stage is Complete,
    decreases draws.len(),
{
    if draws.len() > 0 {
        let before = run(s, draws.drop_last());
        lemma_draws_left_after(s, draws.drop_last());
        lemma_run_keeps_state_ok(s, draws.drop_last());
        if !(before.stage is Complete) {
            lemma_draw_counts(before, draws.last());
        }
        lemma_run_keeps_state_ok(s, draws);
        if !(run(s, draws).stage is Complete) {
            lemma_draw_counts(run(s, draws), 0);
        }
    } else {
        if !(s.stage is Complete) {
            lemma_draw_counts(s, 0);
        }
    }
}

/// While special characters are allowed, a password is generated if and
/// only if there are `draws_needed(length)` draws or more.
pub proof fn lemma_enough_draws(length: nat, draws: Seq<usize>)
    requires
        length <= usize::MAX,
    ensures
        generated(length, true, draws) is Some <==> draws.len() >= draws_needed(length),
{
    let s = initial_state(length, true);
    lemma_draws_left_after(s, draws);
    assert(length >= 2 ==> 2 * length * (length - 1) >= 0) by (nonlinear_arith);
}

/// Generates a password of `length` characters from `draws`, which are used
/// in order, one for each random choice. Returns `None` if they run out
/// before the password is finished.
pub fn generate_password(length: usize, special: bool, draws: &[usize]) -> (password: Option<
    Vec<u8>,
>)
    ensures
        match password {
            Some(p) => generated(length as nat, special, draws@) == Some(p@),
            None => generated(length as nat, special, draws@) is None,
        },
        password matches Some(p) ==> {
            &&& p@.len() == length
            &&& all_password_bytes(p@)
            &&& !special ==> no_special_bytes(p@)
        },
        length == 0 ==> (password matches Some(p) && p@.len() == 0),
        special ==> (password is Some <==> draws@.len() >= draws_needed(length as nat)),
{
    let ghost start = initial_state(length as nat, special);
    let mut builder = PasswordBuilder::new(length, special);
    let mut used: usize = 0;
    while used < draws.len() && !builder.is_complete()
        invariant
            used <= draws.len(),
            builder.well_formed(),
            builder@ == run(start, draws@.take(used as int)),
        decreases draws.len() - used,
    {
        builder.feed(draws[used]);
        proof {
            assert(draws@.take(used + 1).drop_last() == draws@.take(used as int));
        }
        used += 1;
    }
    proof {
        if length == 0 {
            lemma_empty_password_needs_no_draw(special, draws@);
        }
        assert(draws@ == draws@.take(used as int) + draws@.skip(used as int));
        lemma_run_concat(start, draws@.take(used as int), draws@.skip(used as int));
        if builder@.stage is Complete {
            lemma_complete_is_final(builder@, draws@.skip(used as int));
        } else {
            assert(draws@.take(used as int) == draws@);
        }
        lemma_generated_is_valid(length as nat, special, draws@);
        if special {
            lemma_enough_draws(length as nat, draws@);
        }
    }
    builder.into_password()
}

/// Generates a password as text: the characters of the bytes that
/// `generate_password` returns, which are all ASCII.
pub fn get_pass(length: usize, special: bool, draws: &[usize]) -> (text: Option<String>)
    ensures
        match text {
            Some(t) => generated(length as nat, special, draws@) matches Some(p) && t@ == as_text(
                p,
            ) && all_password_bytes(p) && (!special ==> no_special_bytes(p)),
            None => generated(length as nat, special, draws@) is None,
        },
        text matches Some(t) ==> t@.len() == length,
        length == 0 ==> (text matches Some(t) && t@.len() == 0),
        special ==> (text is Some <==> draws@.len() >= draws_needed(length as nat)),
{
    match generate_password(length, special, draws) {
        None => None,
        Some(bytes) => {
            let mut text = String::new();
            let mut i: usize = 0;
            while i < bytes.len()
                invariant
                    i <= bytes.len(),
                    text@ == as_text(bytes@.take(i as int)),
                decreases bytes.len() - i,
            {
                push_char(&mut text, bytes[i] as char);
                proof {
                    assert(bytes@.take(i + 1) == bytes@.take(i as int).push(bytes@[i as int]));
                }
                i += 1;
            }
            proof {
                assert(bytes@.take(i as int) == bytes@);
            }
            Some(text)
        },
    }
}

} // verus!
