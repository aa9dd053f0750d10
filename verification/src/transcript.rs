//! Choosing between transcripts.
use vstd::prelude::*;

use crate::text;
use crate::text::{count_words, trim};

verus! {

/// A final transcript so much shorter than the best partial one that words must have been lost:
/// the partial has at least six words, the final lacks more than two of them, and it is less than
/// half as long.
pub open spec fn suspiciously_short(final_text: Seq<char>, best_partial: Seq<char>) -> bool {
    &&& text::word_count(best_partial) >= 6
    &&& text::word_count(final_text) + 2 < text::word_count(best_partial)
    &&& final_text.len() * 2 < best_partial.len()
}

/// The transcript that stands once recognition has ended.
pub open spec fn chosen_final(final_text: Seq<char>, best_partial: Seq<char>) -> Seq<char> {
    let f = text::trimmed(final_text);
    let p = text::trimmed(best_partial);
    if f.len() == 0 || suspiciously_short(f, p) {
        p
    } else {
        f
    }
}

/// A partial transcript that should replace the current one: one that says something where the
/// current says nothing, or that has more words or more characters.
pub open spec fn better_partial(candidate: Seq<char>, current: Seq<char>) -> bool {
    let a = text::trimmed(candidate);
    let b = text::trimmed(current);
    a.len() > 0 && (b.len() == 0 || text::word_count(a) > text::word_count(b)
        || a.len() > b.len())
}

/// Picks the transcript to report when `final_text` has arrived and `best_partial` was the best
/// so far.
pub fn select_final_transcript(final_text: &str, best_partial: &str) -> (chosen: String)
    ensures
        chosen@ == chosen_final(final_text@, best_partial@),
{
    let final_text: &str = trim(final_text);
    let best_partial: &str = trim(best_partial);
    if final_text.is_empty() || is_suspiciously_short_final(final_text, best_partial) {
        return best_partial.to_owned();
    }
    final_text.to_owned()
}

/// Whether `final_text` has lost so much of `best_partial` that it is not to be trusted.
pub fn is_suspiciously_short_final(final_text: &str, best_partial: &str) -> (b: bool)
    ensures
        b == suspiciously_short(final_text@, best_partial@),
{
    let final_words: usize = count_words(final_text);
    let partial_words: usize = count_words(best_partial);
    if partial_words < 6 || final_words >= partial_words - 2 {
        return false;
    }
    let final_chars: usize = final_text.unicode_len();
    let partial_chars: usize = best_partial.unicode_len();
    final_chars < partial_chars && final_chars < partial_chars - final_chars
}

/// Whether the partial transcript `candidate` should replace `current`.
pub fn is_better_partial_transcript(candidate: &str, current: &str) -> (b: bool)
    ensures
        b == better_partial(candidate@, current@),
{
    let candidate: &str = trim(candidate);
    if candidate.is_empty() {
        return false;
    }
    let current: &str = trim(current);
    if current.is_empty() {
        return true;
    }
    count_words(candidate) > count_words(current) || candidate.unicode_len()
        > current.unicode_len()
}

/// The transcript that stands is one of the two offered, without surrounding white space.
pub proof fn law_final_is_one_of_the_two(final_text: Seq<char>, best_partial: Seq<char>)
    ensures
        ({
            let chosen = chosen_final(final_text, best_partial);
            &&& chosen == text::trimmed(final_text) || chosen == text::trimmed(best_partial)
            &&& text::trimmed(chosen) == chosen
        }),
{
    text::law_trimming_is_idempotent(final_text);
    text::law_trimming_is_idempotent(best_partial);
}

/// What was heard is not lost: the transcript that stands is blank only where both offered are.
pub proof fn law_final_is_blank_iff_both_are(final_text: Seq<char>, best_partial: Seq<char>)
    ensures
        text::is_blank(chosen_final(final_text, best_partial)) <==> text::is_blank(final_text)
            && text::is_blank(best_partial),
{
    let p = text::trimmed(best_partial);
    law_final_is_one_of_the_two(final_text, best_partial);
    text::law_trimmed_is_empty_iff_blank(final_text);
    text::law_trimmed_is_empty_iff_blank(best_partial);
    text::law_trimmed_is_empty_iff_blank(chosen_final(final_text, best_partial));
    text::law_trimmed_is_empty_iff_blank(p);
    text::law_trimming_is_idempotent(best_partial);
    text::law_word_count_bounds(p);
}

/// The transcript that stands is never suspiciously short beside the best partial one.
pub proof fn law_final_is_never_suspiciously_short(final_text: Seq<char>, best_partial: Seq<char>)
    ensures
        !suspiciously_short(
            chosen_final(final_text, best_partial),
            text::trimmed(best_partial),
        ),
{
}

/// White space around a transcript has no say in either choice.
pub proof fn law_surrounding_white_space_is_ignored(a: Seq<char>, b: Seq<char>)
    ensures
        chosen_final(text::trimmed(a), text::trimmed(b)) == chosen_final(a, b),
        better_partial(text::trimmed(a), text::trimmed(b)) == better_partial(a, b),
{
    text::law_trimming_is_idempotent(a);
    text::law_trimming_is_idempotent(b);
}

/// A partial transcript does not replace itself, a blank one replaces nothing, and any other
/// replaces a blank one.
pub proof fn law_better_partial(a: Seq<char>, b: Seq<char>)
    ensures
        !better_partial(a, a),
        text::is_blank(a) ==> !better_partial(a, b),
        !text::is_blank(a) && text::is_blank(b) ==> better_partial(a, b),
{
    text::law_trimmed_is_empty_iff_blank(a);
    text::law_trimmed_is_empty_iff_blank(b);
}

/// Of two partial transcripts that both say something, neither replaces the other exactly when
/// they have equally many words and equally many characters.
pub proof fn law_neither_is_better_iff_counts_agree(a: Seq<char>, b: Seq<char>)
    requires
        !text::is_blank(a),
        !text::is_blank(b),
    ensures
        ({
            let (x, y) = (text::trimmed(a), text::trimmed(b));
            !better_partial(a, b) && !better_partial(b, a) <==> text::word_count(x)
                == text::word_count(y) && x.len() == y.len()
        }),
{
    text::law_trimmed_is_empty_iff_blank(a);
    text::law_trimmed_is_empty_iff_blank(b);
}

/// A partial transcript that goes on and says more always replaces the current one.
pub proof fn law_extended_partial_is_better(current: Seq<char>, more: Seq<char>)
    requires
        !text::is_blank(more),
    ensures
        better_partial(current + more, current),
{
    text::law_trimmed_grows_with_the_text(current, more);
}

/// The transcript that stands has no fewer characters and no fewer words than the final one, and
/// it stands in every further choice between it, the final one and the partial one.
pub proof fn law_final_stands(final_text: Seq<char>, best_partial: Seq<char>)
    ensures
        ({
            let chosen = chosen_final(final_text, best_partial);
            &&& chosen.len() >= text::trimmed(final_text).len()
            &&& text::word_count(chosen) >= text::word_count(final_text)
            &&& chosen_final(chosen, best_partial) == chosen
            &&& chosen_final(final_text, chosen) == chosen
            &&& chosen_final(chosen, chosen) == chosen
        }),
{
    text::law_trimming_is_idempotent(final_text);
    text::law_trimming_is_idempotent(best_partial);
    text::law_trimming_keeps_words(final_text);
}

/// A text that is suspiciously short beside one is so beside every other with no fewer words and
/// characters, and beside every one that makes the first look suspiciously short.
pub proof fn law_suspicion_grows_with_the_partial(a: Seq<char>, b: Seq<char>, c: Seq<char>)
    requires
        suspiciously_short(a, b),
        suspiciously_short(b, c) || (text::word_count(b) <= text::word_count(c) && b.len()
            <= c.len()),
    ensures
        suspiciously_short(a, c),
{
}

/// A text that is suspiciously short beside a partial transcript is so however the partial goes
/// on.
pub proof fn law_suspicion_survives_more_text(a: Seq<char>, b: Seq<char>, more: Seq<char>)
    requires
        suspiciously_short(a, b),
    ensures
        suspiciously_short(a, b + more),
{
    text::law_word_count_grows_with_the_text(b, more);
    law_suspicion_grows_with_the_partial(a, b, b + more);
}

/// A final text has lost too much exactly when the partial one has at least six words, more than
/// two of which are missing, and more than half of its characters: no other count has a say.
pub proof fn law_suspicion_is_a_matter_of_counts(final_text: Seq<char>, best_partial: Seq<char>)
    ensures
        suspiciously_short(final_text, best_partial) <==> 6 <= text::word_count(best_partial)
            && text::word_count(best_partial) - text::word_count(final_text) > 2
            && best_partial.len() > 2 * final_text.len(),
{
}

/// The transcript that stands is the partial one exactly when the final text says nothing or has
/// lost too much of it, by the counts of words and characters, and the final one otherwise.
pub proof fn law_final_is_chosen_by_what_was_lost(final_text: Seq<char>, best_partial: Seq<char>)
    ensures
        ({
            let (f, p) = (text::trimmed(final_text), text::trimmed(best_partial));
            let words_lost = text::word_count(best_partial) - text::word_count(final_text);
            let chosen = chosen_final(final_text, best_partial);
            &&& text::word_count(best_partial) >= 6 && words_lost > 2 && f.len() * 2 < p.len()
                ==> chosen == p
            &&& text::is_blank(final_text) ==> chosen == p
            &&& !text::is_blank(final_text) && (text::word_count(best_partial) < 6 || words_lost
                <= 2 || f.len() * 2 >= p.len()) ==> chosen == f
        }),
{
    text::law_trimming_keeps_words(final_text);
    text::law_trimming_keeps_words(best_partial);
    text::law_trimmed_is_empty_iff_blank(final_text);
}

/// A partial transcript with no more words and no more characters never replaces one that says
/// something, and one that says something with more words or more characters always does.
pub proof fn law_partials_only_grow(candidate: Seq<char>, current: Seq<char>)
    ensures
        ({
            let (a, b) = (text::trimmed(candidate), text::trimmed(current));
            &&& !text::is_blank(current) && text::word_count(candidate) <= text::word_count(current)
                && a.len() <= b.len() ==> !better_partial(candidate, current)
            &&& !text::is_blank(candidate) && (text::word_count(candidate) > text::word_count(
                current,
            ) || a.len() > b.len()) ==> better_partial(candidate, current)
            &&& text::is_blank(candidate) ==> !better_partial(candidate, current)
        }),
{
    text::law_trimming_keeps_words(candidate);
    text::law_trimming_keeps_words(current);
    text::law_trimmed_is_empty_iff_blank(candidate);
    text::law_trimmed_is_empty_iff_blank(current);
}

} // verus!
