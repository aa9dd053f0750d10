use apple_speech::transcript::{
    is_better_partial_transcript, is_suspiciously_short_final, select_final_transcript,
};

#[test]
fn a_full_final_replaces_the_partial() {
    assert_eq!(select_final_transcript(" hello there ", "hello"), "hello there");
}

#[test]
fn a_blank_final_leaves_the_partial() {
    assert_eq!(select_final_transcript(" \n", " hello there "), "hello there");
    assert_eq!(select_final_transcript("", ""), "");
}

#[test]
fn a_final_that_lost_words_leaves_the_partial() {
    assert_eq!(
        select_final_transcript("six", "one two three four five six"),
        "one two three four five six"
    );
}

#[test]
fn short_finals_are_suspicious_only_beside_long_partials() {
    // Six words, three lost, less than half as long.
    assert!(is_suspiciously_short_final("a b c", "alpha beta gamma delta eta zeta"));
    // Five words are too few to tell.
    assert!(!is_suspiciously_short_final("a", "alpha beta gamma delta eta"));
    // Two words lost are no sign.
    assert!(!is_suspiciously_short_final("a b c d", "alpha beta gamma delta eta zeta"));
    // Exactly half as long is long enough.
    assert!(!is_suspiciously_short_final("abcdefghijkl", "abc abc abc abc abc abcd"));
    assert!(is_suspiciously_short_final("abcdefghijk", "abc abc abc abc abc abcd"));
    assert!(!is_suspiciously_short_final("", ""));
}

#[test]
fn lengths_are_counted_in_characters() {
    // 11 characters of three bytes each beside 24 of one byte.
    assert!(is_suspiciously_short_final("語語語語語語語語語語語", "abc abc abc abc abc abcd"));
}

#[test]
fn a_partial_is_better_with_more_words_or_more_characters() {
    assert!(is_better_partial_transcript("hello there", "hello"));
    assert!(is_better_partial_transcript("a b c", "extraordinary words"));
    assert!(is_better_partial_transcript("extraordinary words", "a b c"));
    assert!(is_better_partial_transcript("hellos", "hello"));
    assert!(!is_better_partial_transcript("hello", "hello there"));
    assert!(!is_better_partial_transcript("hello", " hello "));
}

#[test]
fn blank_partials_never_win_and_always_lose() {
    assert!(!is_better_partial_transcript("", ""));
    assert!(!is_better_partial_transcript("  ", "x"));
    assert!(is_better_partial_transcript("x", ""));
    assert!(is_better_partial_transcript("x", " \t"));
}

#[test]
fn what_was_heard_is_not_lost() {
    for (last, best, expected) in [
        ("", "heard", "heard"),
        ("heard", "", "heard"),
        (" heard ", "\n", "heard"),
        ("x", "one two three four five six seven", "one two three four five six seven"),
    ] {
        assert_eq!(select_final_transcript(last, best), expected);
    }
}

#[test]
fn counts_that_agree_leave_both_partials() {
    assert!(!is_better_partial_transcript("one two", "two one"));
    assert!(!is_better_partial_transcript("two one", "one two"));
}

#[test]
fn the_chosen_final_is_not_suspicious() {
    let best = "one two three four five six";
    for last in ["", "six", "five six", "one two three four", best] {
        assert!(!is_suspiciously_short_final(&select_final_transcript(last, best), best));
    }
}

#[test]
fn a_partial_that_goes_on_is_better() {
    for (current, more) in [("hello", " there"), ("", "x"), ("  ", " x "), ("a ", "b"), ("a", "b ")] {
        assert!(is_better_partial_transcript(&format!("{current}{more}"), current));
    }
}

#[test]
fn choosing_again_changes_nothing() {
    let best = "one two three four five six";
    for last in ["", " six ", "one two three four", best] {
        let chosen = select_final_transcript(last, best);
        assert!(chosen.chars().count() >= last.trim().chars().count());
        assert!(chosen.split_whitespace().count() >= last.split_whitespace().count());
        assert_eq!(select_final_transcript(&chosen, best), chosen);
        assert_eq!(select_final_transcript(last, &chosen), chosen);
        assert_eq!(select_final_transcript(&chosen, &chosen), chosen);
    }
}

#[test]
fn suspicion_grows_with_the_partial() {
    let (a, b) = ("a b c", "alpha beta gamma delta eta zeta");
    let c = format!("{b} {b} {b}");
    assert!(is_suspiciously_short_final(a, b));
    assert!(is_suspiciously_short_final(b, &c));
    assert!(is_suspiciously_short_final(a, &c));
}

#[test]
fn suspicion_survives_more_text() {
    let partial = "alpha beta gamma delta eta zeta";
    for more in ["", " ", "x", " theta iota", "\n"] {
        assert!(is_suspiciously_short_final("a b c", &format!("{partial}{more}")));
    }
}
