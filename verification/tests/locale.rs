use apple_speech::locale::normalize_locale_identifier;

#[test]
fn no_language_is_left_to_the_system() {
    assert_eq!(normalize_locale_identifier(None), None);
    assert_eq!(normalize_locale_identifier(Some("")), None);
    assert_eq!(normalize_locale_identifier(Some(" \t")), None);
}

#[test]
fn auto_is_left_to_the_system_in_any_case() {
    for language in ["auto", "AUTO", "Auto", "aUtO", "  auto\n"] {
        assert_eq!(normalize_locale_identifier(Some(language)), None);
    }
}

#[test]
fn other_languages_get_hyphens() {
    assert_eq!(normalize_locale_identifier(Some("en_US")), Some("en-US".to_string()));
    assert_eq!(normalize_locale_identifier(Some(" zh_Hans_CN ")), Some("zh-Hans-CN".to_string()));
    assert_eq!(normalize_locale_identifier(Some("de")), Some("de".to_string()));
    assert_eq!(normalize_locale_identifier(Some("autos")), Some("autos".to_string()));
    assert_eq!(normalize_locale_identifier(Some("aut")), Some("aut".to_string()));
    assert_eq!(normalize_locale_identifier(Some("a!to")), Some("a!to".to_string()));
    assert_eq!(normalize_locale_identifier(Some("_")), Some("-".to_string()));
}

#[test]
fn normalizing_a_locale_leaves_it() {
    for language in ["en_US", " fr_CA", "pt-BR", "x"] {
        let once = normalize_locale_identifier(Some(language));
        assert_eq!(normalize_locale_identifier(once.as_deref()), once);
    }
}

#[test]
fn white_space_around_a_language_is_ignored() {
    for language in ["en_US", "auto", "", "de"] {
        let padded = format!(" {language}\n");
        assert_eq!(
            normalize_locale_identifier(Some(&padded)),
            normalize_locale_identifier(Some(language))
        );
    }
}
