use apple_speech::text::{
    chars_of, contains, count_words, ends_with, is_blank_text, is_whitespace, join, trim,
};

const TEXTS: [&str; 16] = [
    "",
    " ",
    "a",
    " a",
    "a ",
    "\t a b\u{a0}c \n",
    "one two  three",
    "\u{3000}wide\u{3000}space\u{3000}",
    "\u{200b}not white\u{200b}",
    "\u{1680}\u{2000}\u{200a}\u{2028}\u{2029}\u{202f}\u{205f}\u{85}",
    "naïve café — déjà vu",
    "日本語 の テキスト",
    "🙂 🙂🙂",
    "/Applications/Demo.app",
    "/Applications/Demo.app/Contents/MacOS/demo",
    "aaaab",
];

#[test]
fn white_space_is_what_unicode_says() {
    for code in 0..=0x10ffffu32 {
        if let Some(c) = char::from_u32(code) {
            assert_eq!(is_whitespace(c), c.is_whitespace(), "{code:#x}");
        }
    }
}

#[test]
fn trimming_agrees_with_std() {
    for text in TEXTS {
        assert_eq!(trim(text), text.trim());
        assert_eq!(is_blank_text(text), text.trim().is_empty());
    }
    assert_eq!(trim("  both ends\n"), "both ends");
}

#[test]
fn trimming_twice_is_trimming_once() {
    for text in TEXTS {
        assert_eq!(trim(trim(text)), trim(text));
    }
}

#[test]
fn words_are_counted_as_std_splits_them() {
    for text in TEXTS {
        assert_eq!(count_words(text), text.split_whitespace().count());
    }
    assert_eq!(count_words(" one  two\tthree "), 3);
    assert_eq!(count_words(" \n"), 0);
}

#[test]
fn characters_come_in_order() {
    for text in TEXTS {
        assert_eq!(chars_of(text), text.chars().collect::<Vec<char>>());
    }
}

#[test]
fn substrings_are_found_as_std_finds_them() {
    for hay in TEXTS {
        for needle in ["", "a", " ", ".app", ".app/", ".app/Contents/MacOS/", "aab", "🙂", "語 の"] {
            assert_eq!(contains(hay, needle), hay.contains(needle));
            assert_eq!(ends_with(hay, needle), hay.ends_with(needle));
        }
    }
    assert!(contains("aaaab", "aab"));
    assert!(!ends_with("aaaab", "aa"));
}

#[test]
fn joining_puts_one_text_behind_another() {
    assert_eq!(join("Apple ", "Speech"), "Apple Speech");
    assert_eq!(join("", ""), "");
}

#[test]
fn trimming_takes_no_words_and_more_text_none_away() {
    for text in TEXTS {
        assert_eq!(count_words(trim(text)), count_words(text));
        for more in TEXTS {
            assert!(count_words(&join(text, more)) >= count_words(text));
        }
    }
}
