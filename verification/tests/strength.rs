use textkit::strength::{
    check_password_strength, distinct_characters, get_pass_strength, password_traits,
    PasswordTraits, StrengthLabel,
};

/// The score in floating point: the number of characters times the sum of
/// the binary logarithm of the number of distinct characters and the bonus
/// points, over 30.
fn float_label(password: &str) -> &'static str {
    let traits = password_traits(password);
    let bonus = traits.mixes_digits as u8 + traits.mixes_case as u8 + traits.has_symbol as u8;
    let score = (traits.length as f64) * ((traits.distinct as f64).log2() + bonus as f64) / 30.0;
    match score as u8 {
        0 => "Weak",
        1 => "Medium",
        2 => "Strong",
        _ => "Very Strong",
    }
}

fn traits(length: usize, distinct: usize, bonus: u8) -> PasswordTraits {
    PasswordTraits {
        length,
        distinct,
        mixes_digits: bonus >= 1,
        mixes_case: bonus >= 2,
        has_symbol: bonus >= 3,
    }
}

#[test]
fn one_repeated_letter_is_weak() {
    // one distinct character, no bonus: 8 * 0 / 30 = 0
    assert_eq!(check_password_strength("aaaaaaaa"), "Weak");
    assert_eq!(get_pass_strength("aaaaaaaa"), "Weak".to_string());
}

#[test]
fn eight_different_characters_of_all_kinds_are_medium() {
    // eight distinct characters and all three bonus points: 8 * 6 / 30 = 1.6
    assert_eq!(check_password_strength("Abc123!@"), "Medium");
    assert_eq!(get_pass_strength("Abc123!@"), "Medium".to_string());
}

#[test]
fn an_empty_password_is_weak() {
    assert_eq!(check_password_strength(""), "Weak");
    assert_eq!(
        password_traits(""),
        PasswordTraits {
            length: 0,
            distinct: 0,
            mixes_digits: false,
            mixes_case: false,
            has_symbol: false
        }
    );
}

#[test]
fn labels_of_known_passwords() {
    assert_eq!(check_password_strength("a"), "Weak");
    assert_eq!(check_password_strength("password"), "Weak");
    assert_eq!(check_password_strength("12345678"), "Weak");
    assert_eq!(check_password_strength("aB3$"), "Weak");
    assert_eq!(check_password_strength("Password1"), "Medium");
    assert_eq!(check_password_strength("P@ssw0rd!"), "Medium");
    assert_eq!(check_password_strength("Tr0ub4dor&3"), "Strong");
    assert_eq!(check_password_strength("zzzzzzzzzzzzzzzzzzzzzzzzzzzzzz1"), "Strong");
    assert_eq!(check_password_strength("correct horse battery staple"), "Very Strong");
    assert_eq!(check_password_strength("abcdefghijklmnopqrstuvwxyz0123"), "Very Strong");
    assert_eq!(check_password_strength("ABCDEFGHabcdefgh12345678!@#$%^&*"), "Very Strong");
}

#[test]
fn scores_on_a_boundary() {
    // two distinct characters: the score is length / 30
    assert_eq!(check_password_strength(&"ab".repeat(14)), "Weak");
    assert_eq!(check_password_strength(&"ab".repeat(15)), "Medium");
    assert_eq!(check_password_strength(&"ab".repeat(29)), "Medium");
    assert_eq!(check_password_strength(&"ab".repeat(30)), "Strong");
    assert_eq!(check_password_strength(&"ab".repeat(44)), "Strong");
    assert_eq!(check_password_strength(&"ab".repeat(45)), "Very Strong");
    // four distinct characters: the score is length / 15
    assert_eq!(check_password_strength("abcdabcdabcdab"), "Weak");
    assert_eq!(check_password_strength("abcdabcdabcdabc"), "Medium");
    assert_eq!(check_password_strength(&"abcd".repeat(15)), "Very Strong");
}

#[test]
fn traits_of_a_password() {
    assert_eq!(
        password_traits("Abc123!@"),
        PasswordTraits {
            length: 8,
            distinct: 8,
            mixes_digits: true,
            mixes_case: true,
            has_symbol: true
        }
    );
    assert_eq!(
        password_traits("12345678"),
        PasswordTraits {
            length: 8,
            distinct: 8,
            mixes_digits: false,
            mixes_case: false,
            has_symbol: false
        }
    );
    // the length is the number of characters, not of bytes
    assert_eq!(
        password_traits("éééÉ"),
        PasswordTraits {
            length: 4,
            distinct: 2,
            mixes_digits: false,
            mixes_case: true,
            has_symbol: false
        }
    );
    assert!(password_traits("a b").has_symbol);
    assert!(!password_traits("ab").has_symbol);
    assert!(password_traits("a1").mixes_digits);
    assert!(!password_traits("ab").mixes_digits);
    assert!(!password_traits("AB").mixes_case);
}

#[test]
fn characters_of_several_bytes_count_once() {
    // ten characters of two bytes each, two of them distinct, in both
    // cases: 10 * (1 + 1) / 30 = 0.67
    assert_eq!("éÉéÉéÉéÉéÉ".len(), 20);
    assert_eq!(password_traits("éÉéÉéÉéÉéÉ").length, 10);
    assert_eq!(check_password_strength("éÉéÉéÉéÉéÉ"), "Weak");
    assert_eq!(get_pass_strength("éÉéÉéÉéÉéÉ"), "Weak".to_string());
    // fifteen of them reach 15 * 2 / 30 = 1
    assert_eq!(check_password_strength(&"éÉ".repeat(7)), "Weak");
    assert_eq!(check_password_strength("éÉéÉéÉéÉéÉéÉéÉé"), "Medium");
    assert_eq!(check_password_strength("€€€€"), "Weak");
}

#[test]
fn distinct_characters_are_counted() {
    let count = |text: &str| distinct_characters(&text.chars().collect());
    assert_eq!(count(""), 0);
    assert_eq!(count("a"), 1);
    assert_eq!(count("aaaa"), 1);
    assert_eq!(count("abcabc"), 3);
    assert_eq!(count("aA"), 2);
    assert_eq!(count("é€é😀\u{10FFFF}\0"), 5);
}

#[test]
fn labels_from_traits() {
    assert_eq!(traits(0, 0, 0).strength(), StrengthLabel::Weak);
    assert_eq!(traits(8, 1, 0).strength(), StrengthLabel::Weak);
    assert_eq!(traits(8, 8, 3).strength(), StrengthLabel::Medium);
    // without distinct characters the bonus alone counts: length * bonus / 30
    assert_eq!(traits(29, 1, 1).strength(), StrengthLabel::Weak);
    assert_eq!(traits(30, 1, 1).strength(), StrengthLabel::Medium);
    assert_eq!(traits(10, 1, 3).strength(), StrengthLabel::Medium);
    assert_eq!(traits(20, 1, 3).strength(), StrengthLabel::Strong);
    assert_eq!(traits(30, 1, 3).strength(), StrengthLabel::VeryStrong);
    assert_eq!(traits(usize::MAX, 1, 0).strength(), StrengthLabel::Weak);
    assert_eq!(traits(usize::MAX, 2, 0).strength(), StrengthLabel::VeryStrong);
    assert_eq!(traits(usize::MAX, usize::MAX, 3).strength(), StrengthLabel::VeryStrong);
    assert_eq!(traits(1, usize::MAX, 3).strength(), StrengthLabel::Strong);
    assert_eq!(traits(1, 1 << 30, 0).strength(), StrengthLabel::Medium);
    assert_eq!(traits(1, (1 << 30) - 1, 0).strength(), StrengthLabel::Weak);
}

#[test]
fn the_labels_are_ordered_and_named() {
    let labels = [
        StrengthLabel::Weak,
        StrengthLabel::Medium,
        StrengthLabel::Strong,
        StrengthLabel::VeryStrong,
    ];
    let names: Vec<&str> = labels.iter().map(|label| label.as_str()).collect();
    assert_eq!(names, ["Weak", "Medium", "Strong", "Very Strong"]);
    let ranks: Vec<u8> = labels.iter().map(|label| label.rank()).collect();
    assert_eq!(ranks, [0, 1, 2, 3]);
}

#[test]
fn the_same_password_gets_the_same_label() {
    for password in ["", "a", "Abc123!@", "correct horse battery staple"] {
        assert_eq!(check_password_strength(password), check_password_strength(password));
        assert_eq!(password_traits(password), password_traits(password));
    }
}

#[test]
fn whole_number_scores_agree_with_floating_point() {
    let alphabet: Vec<char> =
        "abcdefghijklmnopqrstuvwxyzABCDEFGHIJKLMNOPQRSTUVWXYZ0123456789!@#$%&*^ é€".chars().collect();
    for distinct in 1..alphabet.len() {
        for length in distinct..100 {
            let password: String = (0..length).map(|i| alphabet[i % distinct]).collect();
            assert_eq!(check_password_strength(&password), float_label(&password), "{password}");
        }
    }
}
