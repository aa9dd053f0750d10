//! The language of the audio as a locale identifier.
use vstd::prelude::*;

use crate::text;
use crate::text::{chars_of, trim};

verus! {

/// `c` with the ASCII capital letters made small.
pub open spec fn ascii_lower(c: char) -> char {
    if 'A' as u32 <= c as u32 <= 'Z' as u32 {
        (c as u32 + 32) as char
    } else {
        c
    }
}

/// `a` and `b` are the same text but for the case of ASCII letters.
pub open spec fn same_but_for_case(a: Seq<char>, b: Seq<char>) -> bool {
    a.len() == b.len() && forall|i: int|
        0 <= i < a.len() ==> ascii_lower(#[trigger] a[i]) == ascii_lower(b[i])
}

/// `s` with a hyphen for every underscore.
pub open spec fn hyphenated(s: Seq<char>) -> Seq<char> {
    s.map_values(
        |c: char|
            if c == '_' {
                '-'
            } else {
                c
            },
    )
}

/// The locale identifier for a language: none for no language, a blank one or `auto`, and
/// otherwise the language without surrounding white space and with hyphens for underscores.
pub open spec fn locale_of(language: Option<Seq<char>>) -> Option<Seq<char>> {
    match language {
        Some(language) => {
            let value = text::trimmed(language);
            if value.len() == 0 || same_but_for_case(value, seq!['a', 'u', 't', 'o']) {
                None
            } else {
                Some(hyphenated(value))
            }
        },
        None => None,
    }
}

/// `text`, where there is one, as characters.
pub open spec fn optional_str(text: Option<&str>) -> Option<Seq<char>> {
    match text {
        Some(text) => Some(text@),
        None => None,
    }
}

/// Whether `c` is the small letter `letter` or its capital.
fn is_letter(c: char, letter: char) -> (b: bool)
    requires
        'a' as u32 <= letter as u32 <= 'z' as u32,
    ensures
        b == (ascii_lower(c) == ascii_lower(letter)),
{
    let u: u32 = c as u32;
    let l: u32 = letter as u32;
    u == l || u + 32 == l
}

/// The locale identifier to ask the recognizer for, or none to leave the choice to the system.
pub fn normalize_locale_identifier(language: Option<&str>) -> (locale: Option<String>)
    ensures
        crate::recognition::optional_text(locale) == locale_of(optional_str(language)),
{
    let value: &str = match language {
        Some(language) => trim(language),
        None => {
            return None;
        },
    };
    let chars: Vec<char> = chars_of(value);
    if chars.len() == 0 {
        return None;
    }
    if chars.len() == 4 && is_letter(chars[0], 'a') && is_letter(chars[1], 'u') && is_letter(
        chars[2],
        't',
    ) && is_letter(chars[3], 'o') {
        return None;
    }
    proof {
        let auto = seq!['a', 'u', 't', 'o'];
        if same_but_for_case(chars@, auto) {
            assert(ascii_lower(chars@[0]) == ascii_lower(auto[0]));
            assert(ascii_lower(chars@[1]) == ascii_lower(auto[1]));
            assert(ascii_lower(chars@[2]) == ascii_lower(auto[2]));
            assert(ascii_lower(chars@[3]) == ascii_lower(auto[3]));
        }
    }
    let mut locale: String = String::new();
    let mut i: usize = 0;
    while i < chars.len()
        invariant
            i <= chars@.len(),
            locale@ == hyphenated(chars@).take(i as int),
        decreases chars@.len() - i,
    {
        if chars[i] == '_' {
            locale.push('-');
        } else {
            locale.push(chars[i]);
        }
        i = i + 1;
    }
    assert(hyphenated(chars@).take(chars@.len() as int) =~= hyphenated(chars@));
    Some(locale)
}

/// A locale identifier is never blank, holds no underscore and has no white space around it.
pub proof fn law_locale_is_clean(language: Option<Seq<char>>)
    requires
        locale_of(language) is Some,
    ensures
        !text::is_blank(locale_of(language)->0),
        text::trimmed(locale_of(language)->0) == locale_of(language)->0,
        !locale_of(language)->0.contains('_'),
{
    let value = text::trimmed(language->0);
    let locale = hyphenated(value);
    text::law_trimmed_ends(language->0);
    text::law_trimmed_is_empty_iff_blank(locale);
    assert(!text::is_white_space(locale[0]));
    assert(!text::is_white_space(locale.last()));
}

/// White space around a language has no say in its locale, which keeps its length.
pub proof fn law_locale_ignores_surrounding_white_space(language: Seq<char>)
    ensures
        locale_of(Some(text::trimmed(language))) == locale_of(Some(language)),
        locale_of(Some(language)) matches Some(locale) ==> locale.len() == text::trimmed(
            language,
        ).len(),
{
    text::law_trimming_is_idempotent(language);
}

/// Normalizing a locale identifier leaves it as it is.
pub proof fn law_normalizing_is_idempotent(language: Option<Seq<char>>)
    requires
        locale_of(language) is Some,
    ensures
        locale_of(locale_of(language)) == locale_of(language),
{
    law_locale_is_clean(language);
    let value = text::trimmed(language->0);
    let locale = hyphenated(value);
    let auto = seq!['a', 'u', 't', 'o'];
    assert(hyphenated(locale) =~= locale);
    if same_but_for_case(locale, auto) {
        assert forall|i: int| 0 <= i < value.len() implies ascii_lower(#[trigger] value[i])
            == ascii_lower(auto[i]) by {
            assert(ascii_lower(locale[i]) == ascii_lower(auto[i]));
            assert(auto[i] == 'a' || auto[i] == 'u' || auto[i] == 't' || auto[i] == 'o');
        }
        assert(same_but_for_case(value, auto));
    }
}

/// `c` is `small` or `capital`.
pub open spec fn is_either(c: char, small: char, capital: char) -> bool {
    c == small || c == capital
}

/// A letter is the same as a small one but for case exactly when it is that or its capital.
proof fn lemma_letter(c: char, small: char, capital: char)
    requires
        'a' as u32 <= small as u32 <= 'z' as u32,
        capital as u32 + 32 == small as u32,
    ensures
        ascii_lower(c) == ascii_lower(small) <==> is_either(c, small, capital),
{
}

/// A language has no locale exactly when it is blank or, but for white space around it, spells
/// `auto` in small or capital letters; otherwise every character of the locale is that of the
/// language, with a hyphen exactly where the language has an underscore or a hyphen.
pub proof fn law_locale_spells_the_language(language: Seq<char>)
    ensures
        ({
            let v = text::trimmed(language);
            let auto = v.len() == 4 && is_either(v[0], 'a', 'A') && is_either(v[1], 'u', 'U')
                && is_either(v[2], 't', 'T') && is_either(v[3], 'o', 'O');
            let locale = locale_of(Some(language));
            &&& locale is None <==> text::is_blank(language) || auto
            &&& locale is Some ==> locale->0.len() == v.len()
            &&& forall|i: int|
                locale is Some && 0 <= i < v.len() && v[i] != '_' ==> #[trigger] locale->0[i]
                    == v[i]
            &&& forall|i: int|
                locale is Some && 0 <= i < v.len() && v[i] == '_' ==> #[trigger] locale->0[i]
                    == '-'
            &&& locale_of(None) is None
        }),
{
    text::law_trimmed_is_empty_iff_blank(language);
    let v = text::trimmed(language);
    let auto = seq!['a', 'u', 't', 'o'];
    if v.len() == 4 {
        lemma_letter(v[0], 'a', 'A');
        lemma_letter(v[1], 'u', 'U');
        lemma_letter(v[2], 't', 'T');
        lemma_letter(v[3], 'o', 'O');
        assert(same_but_for_case(v, auto) <==> ascii_lower(v[0]) == ascii_lower(auto[0])
            && ascii_lower(v[1]) == ascii_lower(auto[1]) && ascii_lower(v[2]) == ascii_lower(
            auto[2],
        ) && ascii_lower(v[3]) == ascii_lower(auto[3]));
    }
}

/// A language that may be missing is there as it is, an empty one too, or is missing.
pub proof fn law_optional_languages_are_kept_whole(language: &str)
    ensures
        optional_str(Some(language)) == Some(language@),
        optional_str(None) is None,
{
}

} // verus!
