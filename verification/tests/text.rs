use sticker_search::text::{chars_of, contains_chars, contains_str, is_whitespace, split_words};

fn std_words(text: &str) -> Vec<String> {
    text.split_whitespace().map(|w| w.to_string()).collect()
}

#[test]
fn white_space_is_what_std_calls_white_space() {
    let mut code: u32 = 0;
    while code <= 0x10FFFF {
        if let Some(c) = char::from_u32(code) {
            assert_eq!(is_whitespace(c), c.is_whitespace(), "code point {:#x}", code);
        }
        code += 1;
    }
}

#[test]
fn white_space_examples() {
    assert!(is_whitespace(' '));
    assert!(is_whitespace('\t'));
    assert!(is_whitespace('\n'));
    assert!(is_whitespace('\u{3000}'));
    assert!(is_whitespace('\u{a0}'));
    assert!(!is_whitespace('a'));
    assert!(!is_whitespace('_'));
    assert!(!is_whitespace('\u{200b}'));
}

#[test]
fn chars_of_keeps_every_character() {
    assert_eq!(chars_of(""), Vec::<char>::new());
    assert_eq!(chars_of("ab c"), vec!['a', 'b', ' ', 'c']);
    assert_eq!(chars_of("猫 ß"), vec!['猫', ' ', 'ß']);
}

#[test]
fn split_words_drops_all_white_space() {
    assert_eq!(split_words("cute blue"), vec!["cute".to_string(), "blue".to_string()]);
    assert_eq!(split_words("  cute \t\n blue  "), vec!["cute".to_string(), "blue".to_string()]);
    assert_eq!(split_words("one"), vec!["one".to_string()]);
    assert_eq!(split_words("a b  a"), vec!["a".to_string(), "b".to_string(), "a".to_string()]);
}

#[test]
fn split_words_of_nothing_is_nothing() {
    assert_eq!(split_words(""), Vec::<String>::new());
    assert_eq!(split_words("   "), Vec::<String>::new());
    assert_eq!(split_words("\t\n\u{3000}"), Vec::<String>::new());
}

#[test]
fn split_words_agrees_with_std() {
    let samples = [
        "",
        " ",
        "a",
        " a",
        "a ",
        " a ",
        "a b",
        "a  b",
        "tag  this\tsticker\nplease",
        "猫\u{3000}かわいい  cat",
        "\u{2003}wide\u{2003}spaces\u{2003}",
        "x\u{a0}y",
        "zero\u{200b}width",
        "trailing\r\n",
    ];
    for sample in samples {
        assert_eq!(split_words(sample), std_words(sample), "sample {:?}", sample);
    }
}

#[test]
fn contains_is_exact_substring_containment() {
    assert!(contains_str("cute", "cute"));
    assert!(contains_str("cuteness", "cute"));
    assert!(contains_str("acute", "cute"));
    assert!(contains_str("supercutecat", "cute"));
    assert!(!contains_str("cut", "cute"));
    assert!(!contains_str("cu te", "cute"));
    assert!(!contains_str("blue", "cute"));
    assert!(!contains_str("", "cute"));
}

#[test]
fn contains_tells_upper_from_lower_case() {
    assert!(!contains_str("Cute", "cute"));
    assert!(!contains_str("cute", "CUTE"));
    assert!(contains_str("Cute", "Cute"));
}

#[test]
fn the_empty_text_is_in_every_text() {
    assert!(contains_str("cute", ""));
    assert!(contains_str("", ""));
}

#[test]
fn contains_works_on_characters_not_bytes() {
    assert!(contains_str("かわいい猫", "猫"));
    assert!(contains_str("かわいい猫", "わい"));
    assert!(!contains_str("かわいい猫", "犬"));
    assert!(contains_chars(&vec!['a', 'ß', 'c'], &vec!['ß', 'c']));
    assert!(!contains_chars(&vec!['a', 'ß', 'c'], &vec!['c', 'ß']));
}

#[test]
fn contains_agrees_with_std() {
    let hays = ["", "a", "ab", "aab", "abab", "mississippi", "blue sky"];
    let needles = ["", "a", "b", "ab", "ba", "aab", "ssi", "ssip", "pi", "sky", "skyy"];
    for hay in hays {
        for needle in needles {
            assert_eq!(contains_str(hay, needle), hay.contains(needle), "{:?} in {:?}", needle, hay);
        }
    }
}
