use apple_speech::context::{sanitize_contextual_strings, MAX_CONTEXTUAL_STRINGS};

fn strings(values: &[&str]) -> Vec<String> {
    values.iter().map(|value| value.to_string()).collect()
}

#[test]
fn contextual_strings_are_trimmed_and_blanks_dropped() {
    assert_eq!(
        sanitize_contextual_strings(&strings(&[" Voquill ", "", "\t", "Tauri\n", "two words"])),
        strings(&["Voquill", "Tauri", "two words"])
    );
    assert_eq!(sanitize_contextual_strings(&[]), Vec::<String>::new());
}

#[test]
fn the_first_hundred_contextual_strings_are_kept() {
    let mut values: Vec<String> = Vec::new();
    for i in 0..150 {
        values.push(format!(" word {i} "));
        values.push(String::from(" "));
    }
    let kept = sanitize_contextual_strings(&values);
    assert_eq!(kept.len(), MAX_CONTEXTUAL_STRINGS);
    assert_eq!(MAX_CONTEXTUAL_STRINGS, 100);
    for (i, value) in kept.iter().enumerate() {
        assert_eq!(*value, format!("word {i}"));
    }
}

#[test]
fn sanitizing_twice_is_sanitizing_once() {
    let kept = sanitize_contextual_strings(&strings(&["a ", " ", "b"]));
    assert_eq!(sanitize_contextual_strings(&kept), kept);
}

#[test]
fn values_before_the_limit_is_reached_are_kept_among_many_blanks() {
    let mut values: Vec<String> = vec![" ".to_string(); 500];
    values.push("late".to_string());
    values.push(" later ".to_string());
    assert_eq!(sanitize_contextual_strings(&values), strings(&["late", "later"]));
}
