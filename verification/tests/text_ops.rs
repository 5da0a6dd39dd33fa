use textkit::chars::count_distinct;
use textkit::stats::{count_distinct_words, get_string, split_words, StringInfo};
use textkit::text::{rand_uppercase, rev_str, substr_in_str, trim, Margin};

fn chars(text: &str) -> Vec<char> {
    text.chars().collect()
}

#[test]
fn reversed_text() {
    assert_eq!(rev_str(""), "");
    assert_eq!(rev_str("a"), "a");
    assert_eq!(rev_str("abc"), "cba");
    assert_eq!(rev_str("Hello, World!"), "!dlroW ,olleH");
    assert_eq!(rev_str("a€é"), "é€a");
    assert_eq!(rev_str(&rev_str("there and back")), "there and back");
}

#[test]
fn counted_occurrences() {
    assert_eq!(substr_in_str("hello hello", "hello"), 2);
    assert_eq!(substr_in_str("hello hello", "l"), 4);
    assert_eq!(substr_in_str("hello", "world"), 0);
    assert_eq!(substr_in_str("", "a"), 0);
    assert_eq!(substr_in_str("ab", "abc"), 0);
    // an occurrence starts behind the one before it
    assert_eq!(substr_in_str("aaaa", "aa"), 2);
    assert_eq!(substr_in_str("aaaaa", "aa"), 2);
    assert_eq!(substr_in_str("ababa", "aba"), 1);
    // white space at the ends of both is not counted in
    assert_eq!(substr_in_str("  hello hello \n", "\thello "), 2);
    assert_eq!(substr_in_str("a b a b", " a b "), 2);
    // a pattern of white space alone is the empty pattern
    assert_eq!(substr_in_str("a  b", " "), 5);
    assert_eq!(substr_in_str("a--b", "-"), 2);
    // the empty pattern stands at every position
    assert_eq!(substr_in_str("abc", ""), 4);
    assert_eq!(substr_in_str("abc", "   "), 4);
    assert_eq!(substr_in_str("", ""), 1);
    assert_eq!(substr_in_str("  ", ""), 1);
    assert_eq!(substr_in_str("é€é", "é"), 2);
}

#[test]
fn trimmed_lists() {
    assert_eq!(trim(&chars("  a b \n"), Margin::WhiteSpace), chars("a b"));
    assert_eq!(trim(&chars("a"), Margin::WhiteSpace), chars("a"));
    assert_eq!(trim(&chars("   "), Margin::WhiteSpace), chars(""));
    assert_eq!(trim(&chars(""), Margin::WhiteSpace), chars(""));
    assert_eq!(trim(&chars("\u{a0}x\u{2003}"), Margin::WhiteSpace), chars("x"));
    assert_eq!(trim(&chars("(it's) 1."), Margin::NonLetters), chars("it's"));
    assert_eq!(trim(&chars("1234"), Margin::NonLetters), chars(""));
    assert_eq!(trim(&chars("été!"), Margin::NonLetters), chars("été"));
    assert!(Margin::WhiteSpace.test(' ') && !Margin::WhiteSpace.test('a'));
    assert!(Margin::NonLetters.test(' ') && !Margin::NonLetters.test('a'));
}

#[test]
fn random_case() {
    assert_eq!(rand_uppercase("", &[]), Some(String::new()));
    assert_eq!(rand_uppercase("abc", &[0, 1, 2]), Some("AbC".to_string()));
    assert_eq!(rand_uppercase("ABC", &[1, 3, 4]), Some("abC".to_string()));
    assert_eq!(rand_uppercase("a1 é", &[0, 0, 0, 0]), Some("A1 É".to_string()));
    assert_eq!(rand_uppercase("É", &[7]), Some("é".to_string()));
    // of a character with a longer upper-case form the first character is kept
    assert_eq!(rand_uppercase("ß", &[0]), Some("S".to_string()));
    // draws that are left over are not used
    assert_eq!(rand_uppercase("ab", &[1, 0, 0, 0]), Some("aB".to_string()));
    assert_eq!(rand_uppercase("abc", &[0, 1]), None);
    assert_eq!(rand_uppercase("é", &[]), None);
}

#[test]
fn figures_of_a_text() {
    assert_eq!(
        get_string(""),
        StringInfo { length: 0, bytes: 0, words: 0, unique_chars: 0, unique_words: 0, lines: 0 }
    );
    assert_eq!(
        get_string("Hello world\nhello"),
        StringInfo {
            length: 17,
            bytes: 17,
            words: 3,
            unique_chars: 10,
            unique_words: 2,
            lines: 2
        }
    );
    assert_eq!(
        get_string("  The cat, the hat; the CAT!  \n"),
        StringInfo {
            length: 31,
            bytes: 31,
            words: 6,
            unique_chars: 13,
            unique_words: 3,
            lines: 1
        }
    );
    assert_eq!(
        get_string("é€ é€"),
        StringInfo { length: 5, bytes: 11, words: 2, unique_chars: 3, unique_words: 1, lines: 1 }
    );
    // words without a letter all count as the empty word
    assert_eq!(
        get_string("1 22 333"),
        StringInfo { length: 8, bytes: 8, words: 3, unique_chars: 4, unique_words: 1, lines: 1 }
    );
}

#[test]
fn counted_lines() {
    assert_eq!(get_string("a").lines, 1);
    assert_eq!(get_string("a\n").lines, 1);
    assert_eq!(get_string("a\nb").lines, 2);
    assert_eq!(get_string("a\r\nb\r\n").lines, 2);
    assert_eq!(get_string("\n").lines, 1);
    assert_eq!(get_string("\n\n").lines, 2);
    assert_eq!(get_string("\n\na").lines, 3);
    assert_eq!(get_string("a\rb").lines, 1);
    assert_eq!(get_string("a\n\r").lines, 2);
}

#[test]
fn words_of_a_text() {
    let words = |text: &str| -> Vec<String> {
        split_words(&chars(text)).iter().map(|word| word.iter().collect()).collect()
    };
    assert_eq!(words(""), Vec::<String>::new());
    assert_eq!(words("   "), Vec::<String>::new());
    assert_eq!(words("a"), ["a"]);
    assert_eq!(words(" one  two\tthree\nfour "), ["one", "two", "three", "four"]);
    assert_eq!(words("a\u{a0}b"), ["a", "b"]);
    assert_eq!(words("x, y."), ["x,", "y."]);
}

#[test]
fn different_words() {
    let list = |words: &[&str]| -> Vec<Vec<char>> { words.iter().map(|w| chars(w)).collect() };
    assert_eq!(count_distinct_words(&list(&[])), 0);
    assert_eq!(count_distinct_words(&list(&["a"])), 1);
    assert_eq!(count_distinct_words(&list(&["a", "b", "a", "", "b", "ab", ""])), 4);
    assert_eq!(count_distinct_words(&list(&["x", "x", "x"])), 1);
}

#[test]
fn different_characters() {
    assert_eq!(count_distinct(&chars("")), 0);
    assert_eq!(count_distinct(&chars("aaaa")), 1);
    assert_eq!(count_distinct(&chars("abcabc")), 3);
    assert_eq!(count_distinct(&chars("é€é😀")), 3);
}
