use textkit::builder::{template_class, PasswordBuilder};
use textkit::classes::CharacterClass;
use textkit::generate::{generate_password, get_pass};
use textkit::sampler::Rand;

const SPECIAL: &[u8] = b"!@#$%&*^";

/// A fixed stream of raw draws.
fn stream(seed: usize, count: usize) -> Vec<usize> {
    let mut draws = Vec::with_capacity(count);
    let mut x = seed;
    for _ in 0..count {
        x = (x * 1103515245 + 12345) % (1 << 31);
        draws.push(x);
    }
    draws
}

fn is_password_byte(byte: u8) -> bool {
    SPECIAL.contains(&byte) || byte.is_ascii_alphanumeric()
}

/// Feeds draws until the password is filled and returns what was filled in
/// and how many draws that took.
fn template(length: usize, special: bool, draws: &[usize]) -> (Vec<u8>, usize) {
    let mut builder = PasswordBuilder::new(length, special);
    let mut used = 0;
    while builder.bytes().len() < length {
        builder.feed(draws[used]);
        used += 1;
    }
    assert!(builder.is_unshuffled());
    (builder.bytes().clone(), used)
}

#[test]
fn empty_password_needs_no_draws() {
    assert_eq!(generate_password(0, true, &[]), Some(Vec::new()));
    assert_eq!(generate_password(0, false, &[7, 8, 9]), Some(Vec::new()));
    assert_eq!(get_pass(0, true, &[]), Some(String::new()));
    assert!(PasswordBuilder::new(0, false).is_complete());
    assert_eq!(PasswordBuilder::new(0, true).into_password(), Some(Vec::new()));
}

#[test]
fn two_characters_by_hand() {
    // '@' is special character 9 % 8, 'B' is upper-case letter 27 % 26; the
    // four passes of the shuffle swap position 1 with 0, 0, 1 and 1.
    assert_eq!(generate_password(2, true, &[9, 27, 0, 0, 1, 1]), Some(b"@B".to_vec()));
    assert_eq!(generate_password(2, true, &[9, 27, 0, 1, 1, 1]), Some(b"B@".to_vec()));
    assert_eq!(generate_password(2, true, &[9, 27, 0, 0, 1]), None);
}

#[test]
fn known_streams_give_known_passwords() {
    let draws = stream(1, 5000);
    assert_eq!(get_pass(8, true, &draws), Some("*a&F4z9Y".to_string()));
    assert_eq!(get_pass(8, false, &draws), Some("5zA1fohA".to_string()));
    let draws = stream(7, 5000);
    assert_eq!(get_pass(12, true, &draws), Some("r%Co$1@f&nX8".to_string()));
    assert_eq!(get_pass(12, false, &draws), Some("600nuFPKO0UE".to_string()));
    assert_eq!(get_pass(3, true, &stream(5, 100)), Some("#0R".to_string()));
    assert_eq!(get_pass(1, false, &stream(9, 100)), Some("d".to_string()));
    assert_eq!(get_pass(2, true, &stream(3, 100)), Some("!L".to_string()));
    assert_eq!(get_pass(10, false, &stream(42, 5000)), Some("6LJC26c64r".to_string()));
}

#[test]
fn template_before_the_shuffle() {
    assert_eq!(template(8, true, &stream(1, 100)), (b"*F4&Y9az".to_vec(), 8));
    assert_eq!(template(8, false, &stream(1, 100)), (b"fA1zA5oh".to_vec(), 10));
    assert_eq!(template(12, true, &stream(7, 100)), (b"%X8$C1of&r@n".to_vec(), 16));
    assert_eq!(template(12, false, &stream(7, 100)), (b"UP0OF6nu0K0E".to_vec(), 19));
    assert_eq!(template(3, true, &stream(5, 100)), (b"#R0".to_vec(), 3));
}

#[test]
fn slots_zero_and_three_are_special_before_the_shuffle() {
    for seed in 0..50 {
        for length in 8..20 {
            let (filled, _) = template(length, true, &stream(seed, 200));
            assert!(SPECIAL.contains(&filled[0]));
            assert!(SPECIAL.contains(&filled[3]));
            assert!(filled[1].is_ascii_uppercase() && filled[4].is_ascii_uppercase());
            assert!(filled[2].is_ascii_digit() && filled[5].is_ascii_digit());
            assert!(filled[6].is_ascii_lowercase() && filled[7].is_ascii_lowercase());
        }
    }
}

#[test]
fn a_short_length_cuts_the_template() {
    for length in 1..8 {
        let (filled, used) = template(length, true, &stream(11, 100));
        assert_eq!(filled.len(), length);
        assert_eq!(used, length);
        assert!(SPECIAL.contains(&filled[0]));
        if length > 1 {
            assert!(filled[1].is_ascii_uppercase());
        }
        if length > 2 {
            assert!(filled[2].is_ascii_digit());
        }
    }
}

#[test]
fn rejected_draws_are_repeated() {
    // Without special characters slot 0 is drawn: 0, 4 and 8 select the
    // special class and are thrown away, 1 selects upper case and 5 picks
    // 'F'. At slot 8 the draws 27 and 28 select digits and pick '8'.
    let mut draws = vec![0, 4, 8, 1, 5, 0, 0, 0, 2, 3, 1, 1, 2, 7, 27, 28, 0, 3, 9];
    draws.extend(std::iter::repeat(1).take(144));
    // slots:   0 ('F')       1    2    3 ('d')     4    5    6    7    8 ('8')
    assert_eq!(template(9, false, &draws), (b"FA0dB1ch8".to_vec(), 16));
}

#[test]
fn passwords_have_the_length_and_the_characters() {
    for seed in 0..20 {
        let draws = stream(seed, 20000);
        for length in 0..40 {
            for special in [true, false] {
                let password = generate_password(length, special, &draws).unwrap();
                assert_eq!(password.len(), length);
                assert!(password.iter().all(|byte| is_password_byte(*byte)));
                assert!(password.is_ascii());
                if !special {
                    assert!(password.iter().all(|byte| !SPECIAL.contains(byte)));
                }
                if special && length >= 8 {
                    assert!(password.iter().any(|byte| SPECIAL.contains(byte)));
                    assert!(password.iter().any(|byte| byte.is_ascii_uppercase()));
                    assert!(password.iter().any(|byte| byte.is_ascii_lowercase()));
                    assert!(password.iter().any(|byte| byte.is_ascii_digit()));
                }
            }
        }
    }
}

#[test]
fn the_shuffle_only_rearranges() {
    for seed in 0..20 {
        let draws = stream(seed, 20000);
        for length in [2, 5, 8, 13, 21] {
            let (mut filled, _) = template(length, true, &draws);
            let mut password = generate_password(length, true, &draws).unwrap();
            filled.sort();
            password.sort();
            assert_eq!(filled, password);
        }
    }
}

#[test]
fn the_same_draws_give_the_same_password() {
    let draws = stream(99, 5000);
    let first = generate_password(16, false, &draws);
    let second = generate_password(16, false, &draws);
    assert!(first.is_some());
    assert_eq!(first, second);
    // draws behind the last one needed change nothing
    let mut longer = draws.clone();
    longer.extend([1, 2, 3]);
    assert_eq!(generate_password(16, false, &longer), first);
    // another stream gives another password
    assert_ne!(generate_password(16, false, &stream(100, 5000)), first);
}

#[test]
fn draws_needed_with_special_characters() {
    // one draw for each of the first eight characters, two for each one
    // behind them, and 2 * length * (length - 1) swaps
    for (length, needed) in [(1, 1), (2, 6), (3, 15), (8, 120), (9, 154), (12, 280)] {
        let draws = stream(5, needed);
        assert!(generate_password(length, true, &draws).is_some());
        assert!(generate_password(length, true, &draws[..needed - 1]).is_none());
    }
}

#[test]
fn the_builder_asks_for_draws_until_it_is_complete() {
    let draws = stream(1, 200);
    let mut builder = PasswordBuilder::new(8, true);
    let mut used = 0;
    while !builder.is_complete() {
        builder.feed(draws[used]);
        used += 1;
    }
    assert_eq!(used, 120);
    assert!(!builder.is_unshuffled());
    // a complete builder ignores further draws
    builder.feed(12345);
    assert_eq!(builder.bytes(), &b"*a&F4z9Y".to_vec());
    assert_eq!(builder.into_password(), Some(b"*a&F4z9Y".to_vec()));
    let mut unfinished = PasswordBuilder::new(8, true);
    unfinished.feed(3);
    assert_eq!(unfinished.bytes(), &b"$".to_vec());
    assert_eq!(unfinished.into_password(), None);
}

#[test]
fn the_template_classes() {
    let upper = Some(CharacterClass::Upper);
    let lower = Some(CharacterClass::Lower);
    let digit = Some(CharacterClass::Digit);
    let special = Some(CharacterClass::Special);
    let with: Vec<_> = (0..10).map(|slot| template_class(slot, true)).collect();
    assert_eq!(with, [special, upper, digit, special, upper, digit, lower, lower, None, None]);
    let without: Vec<_> = (0..10).map(|slot| template_class(slot, false)).collect();
    assert_eq!(without, [None, upper, digit, None, upper, digit, lower, lower, None, None]);
}

#[test]
fn next_index_reduces_the_draw() {
    let rand = Rand::new(true);
    assert_eq!(rand.next_index(0, 7), 0);
    assert_eq!(rand.next_index(20, 7), 6);
    assert_eq!(rand.next_index(6, 7), 6);
    assert_eq!(rand.next_index(usize::MAX, 10), usize::MAX % 10);
    assert_eq!(rand.next_index(usize::MAX, 1), 0);
    assert!(rand.allows_special());
    assert!(!Rand::new(false).allows_special());
}

#[test]
fn next_class_never_selects_special_when_it_is_not_allowed() {
    let rand = Rand::new(false);
    for raw in (0..10_000).chain(usize::MAX - 10_000..=usize::MAX) {
        let class = rand.next_class(raw);
        assert_ne!(class, Some(CharacterClass::Special));
        assert_eq!(class.is_none(), raw % 4 == 0);
    }
    assert_eq!(rand.next_class(1), Some(CharacterClass::Upper));
    assert_eq!(rand.next_class(2), Some(CharacterClass::Lower));
    assert_eq!(rand.next_class(3), Some(CharacterClass::Digit));
    let rand = Rand::new(true);
    assert_eq!(rand.next_class(0), Some(CharacterClass::Special));
    assert_eq!(rand.next_class(4), Some(CharacterClass::Special));
    assert_eq!(rand.next_class(5), Some(CharacterClass::Upper));
    assert_eq!(rand.next_class(6), Some(CharacterClass::Lower));
    assert_eq!(rand.next_class(7), Some(CharacterClass::Digit));
}

#[test]
fn next_char_takes_a_class_and_then_a_character() {
    let mut rand = Rand::new(false);
    assert_eq!(rand.next_char(8), None);
    assert_eq!(rand.next_char(0), None);
    assert_eq!(rand.next_char(2), None);
    assert_eq!(rand.next_char(27), Some(b'b'));
    assert_eq!(rand.next_char(3), None);
    assert_eq!(rand.next_char(19), Some(b'9'));
    let mut rand = Rand::new(true);
    assert_eq!(rand.next_char(8), None);
    assert_eq!(rand.next_char(15), Some(b'^'));
}

#[test]
fn the_classes_hold_their_characters_in_order() {
    let all = |class: CharacterClass| -> Vec<u8> {
        (0..class.size()).map(|index| class.character(index)).collect()
    };
    assert_eq!(all(CharacterClass::Special), b"!@#$%&*^");
    assert_eq!(all(CharacterClass::Upper), b"ABCDEFGHIJKLMNOPQRSTUVWXYZ");
    assert_eq!(all(CharacterClass::Lower), b"abcdefghijklmnopqrstuvwxyz");
    assert_eq!(all(CharacterClass::Digit), b"0123456789");
    assert_eq!(CharacterClass::select(0), CharacterClass::Special);
    assert_eq!(CharacterClass::select(1), CharacterClass::Upper);
    assert_eq!(CharacterClass::select(2), CharacterClass::Lower);
    assert_eq!(CharacterClass::select(3), CharacterClass::Digit);
}
