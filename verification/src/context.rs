//! The words and phrases that the recognizer is told to expect.
use vstd::prelude::*;

use crate::text;
use crate::text::trim;

verus! {

/// No more than this many contextual strings are handed on.
pub const MAX_CONTEXTUAL_STRINGS: usize = 100;

/// `values` as text.
pub open spec fn texts(values: Seq<String>) -> Seq<Seq<char>> {
    values.map_values(|value: String| value@)
}

/// Every text of `values` without surrounding white space, where that leaves anything.
pub open spec fn non_blank(values: Seq<Seq<char>>) -> Seq<Seq<char>> {
    values.map_values(|value: Seq<char>| text::trimmed(value)).filter(
        |value: Seq<char>| value.len() > 0,
    )
}

/// The first `limit` of `values`, or all if there are no more.
pub open spec fn at_most_first(values: Seq<Seq<char>>, limit: nat) -> Seq<Seq<char>> {
    if values.len() <= limit {
        values
    } else {
        values.take(limit as int)
    }
}

/// The contextual strings to hand on: trimmed, none of them empty, in order, up to the limit.
pub open spec fn sanitized(values: Seq<Seq<char>>) -> Seq<Seq<char>> {
    at_most_first(non_blank(values), MAX_CONTEXTUAL_STRINGS as nat)
}

/// One more value adds itself if it is not blank, and nothing otherwise.
proof fn lemma_non_blank_step(values: Seq<Seq<char>>, i: int)
    requires
        0 <= i < values.len(),
    ensures
        non_blank(values.take(i + 1)) == if text::trimmed(values[i]).len() > 0 {
            non_blank(values.take(i)).push(text::trimmed(values[i]))
        } else {
            non_blank(values.take(i))
        },
{
    reveal(Seq::filter);
    let f = |value: Seq<char>| text::trimmed(value);
    let next = values.take(i + 1).map_values(f);
    assert(next.drop_last() =~= values.take(i).map_values(f));
    assert(next.last() == text::trimmed(values[i]));
}

/// The contextual strings to hand on.
pub fn sanitize_contextual_strings(values: &[String]) -> (kept: Vec<String>)
    ensures
        texts(kept@) == sanitized(texts(values@)),
        kept@.len() <= MAX_CONTEXTUAL_STRINGS,
{
    let mut kept: Vec<String> = Vec::new();
    let mut i: usize = 0;
    proof {
        reveal(Seq::filter);
        assert(texts(kept@) =~= non_blank(texts(values@).take(0)));
    }
    while i < values.len()
        invariant
            i <= values@.len(),
            texts(kept@) == sanitized(texts(values@).take(i as int)),
            kept@.len() <= MAX_CONTEXTUAL_STRINGS,
        decreases values@.len() - i,
    {
        proof {
            lemma_non_blank_step(texts(values@), i as int);
        }
        let ghost before = kept@;
        let value: &str = trim(values[i].as_str());
        if !value.is_empty() && kept.len() < MAX_CONTEXTUAL_STRINGS {
            kept.push(value.to_owned());
            assert(texts(kept@) =~= texts(before).push(value@));
        }
        proof {
            assert(texts(kept@).len() == kept@.len());
            assert(texts(before).len() == before.len());
            let old_all = non_blank(texts(values@).take(i as int));
            let new_all = non_blank(texts(values@).take(i + 1));
            if before.len() == MAX_CONTEXTUAL_STRINGS {
                assert(new_all.take(100) =~= at_most_first(old_all, 100));
                assert(sanitized(texts(values@).take(i + 1)) =~= new_all.take(100));
            }
        }
        i = i + 1;
    }
    assert(texts(values@).take(values@.len() as int) =~= texts(values@));
    kept
}

/// Every string handed on is trimmed and not blank, and there are never more than the limit.
pub proof fn law_sanitized_is_clean(values: Seq<Seq<char>>, i: int)
    requires
        0 <= i < sanitized(values).len(),
    ensures
        text::trimmed(sanitized(values)[i]) == sanitized(values)[i],
        !text::is_blank(sanitized(values)[i]),
        sanitized(values).len() <= MAX_CONTEXTUAL_STRINGS,
{
    lemma_non_blank_is_trimmed(values, i);
    assert(sanitized(values)[i] == non_blank(values)[i]);
    text::law_trimmed_is_empty_iff_blank(sanitized(values)[i]);
}

/// What is left of the values is trimmed and not empty.
proof fn lemma_non_blank_is_trimmed(values: Seq<Seq<char>>, i: int)
    requires
        0 <= i < non_blank(values).len(),
    ensures
        text::trimmed(non_blank(values)[i]) == non_blank(values)[i],
        non_blank(values)[i].len() > 0,
    decreases values.len(),
{
    reveal(Seq::filter);
    assert(values.len() > 0);
    let n = values.len() - 1;
    lemma_non_blank_step(values, n);
    assert(values.take(n + 1) =~= values);
    text::law_trimming_is_idempotent(values[n]);
    if i < non_blank(values.take(n)).len() {
        lemma_non_blank_is_trimmed(values.take(n), i);
    }
}

/// Values that are trimmed and not empty are all kept as they are.
proof fn lemma_non_blank_keeps(values: Seq<Seq<char>>)
    requires
        forall|i: int|
            0 <= i < values.len() ==> text::trimmed(#[trigger] values[i]) == values[i]
                && values[i].len() > 0,
    ensures
        non_blank(values) == values,
    decreases values.len(),
{
    reveal(Seq::filter);
    if values.len() > 0 {
        let n = values.len() - 1;
        let front = values.take(n);
        assert(forall|i: int| 0 <= i < n ==> #[trigger] front[i] == values[i]);
        lemma_non_blank_keeps(front);
        lemma_non_blank_step(values, n);
        assert(values.take(n + 1) =~= values);
        assert(front.push(values[n]) =~= values);
    } else {
        assert(non_blank(values) =~= values);
    }
}

/// Sanitizing twice is sanitizing once.
pub proof fn law_sanitizing_is_idempotent(values: Seq<Seq<char>>)
    ensures
        sanitized(sanitized(values)) == sanitized(values),
{
    let kept = sanitized(values);
    assert forall|i: int| 0 <= i < kept.len() implies text::trimmed(#[trigger] kept[i]) == kept[i]
        && kept[i].len() > 0 by {
        law_sanitized_is_clean(values, i);
        text::law_trimmed_is_empty_iff_blank(kept[i]);
    }
    lemma_non_blank_keeps(kept);
}

/// What is left of the first values is where what is left of more of them begins.
proof fn lemma_non_blank_prefix(values: Seq<Seq<char>>, j: int, k: int)
    requires
        0 <= j <= k <= values.len(),
    ensures
        non_blank(values.take(j)).len() <= non_blank(values.take(k)).len(),
        non_blank(values.take(j)) == non_blank(values.take(k)).take(
            non_blank(values.take(j)).len() as int,
        ),
    decreases k - j,
{
    let (x, y) = (non_blank(values.take(j)), non_blank(values.take(k)));
    if j < k {
        lemma_non_blank_prefix(values, j, k - 1);
        lemma_non_blank_step(values, k - 1);
        let z = non_blank(values.take(k - 1));
        assert(y.take(x.len() as int) =~= z.take(x.len() as int));
    } else {
        assert(y.take(x.len() as int) =~= x);
    }
}

/// No value with something to say is dropped while the limit is not reached: it is handed on
/// behind those that were kept before it.
pub proof fn law_sanitizing_drops_only_blanks(values: Seq<Seq<char>>, i: int)
    requires
        0 <= i < values.len(),
        !text::is_blank(values[i]),
        non_blank(values.take(i)).len() < MAX_CONTEXTUAL_STRINGS,
    ensures
        non_blank(values.take(i)).len() < sanitized(values).len(),
        sanitized(values)[non_blank(values.take(i)).len() as int] == text::trimmed(values[i]),
        sanitized(values).contains(text::trimmed(values[i])),
{
    let at = non_blank(values.take(i)).len() as int;
    text::law_trimmed_is_empty_iff_blank(values[i]);
    lemma_non_blank_step(values, i);
    lemma_non_blank_prefix(values, i + 1, values.len() as int);
    assert(values.take(values.len() as int) =~= values);
    let upto = non_blank(values.take(i + 1));
    assert(upto[at] == text::trimmed(values[i]));
    assert(upto[at] == non_blank(values)[at]);
    assert(sanitized(values)[at] == non_blank(values)[at]);
}

/// Something is handed on exactly when any value says something.
pub proof fn law_something_is_kept_iff_any_is_not_blank(values: Seq<Seq<char>>)
    ensures
        sanitized(values).len() > 0 <==> exists|i: int|
            0 <= i < values.len() && !text::is_blank(#[trigger] values[i]),
    decreases values.len(),
{
    reveal(Seq::filter);
    if values.len() > 0 {
        let n = values.len() - 1;
        let front = values.take(n);
        law_something_is_kept_iff_any_is_not_blank(front);
        lemma_non_blank_step(values, n);
        assert(values.take(n + 1) =~= values);
        text::law_trimmed_is_empty_iff_blank(values[n]);
        assert(forall|i: int| 0 <= i < n ==> #[trigger] front[i] == values[i]);
        assert(forall|i: int| 0 <= i < n ==> front[i] == #[trigger] values[i]);
    }
}

/// No values give nothing. One more value is handed on, trimmed, behind the others if it says
/// something and there is room for it among a hundred, and otherwise changes nothing.
pub proof fn law_values_are_taken_in_turn(values: Seq<Seq<char>>, value: Seq<char>)
    ensures
        sanitized(Seq::empty()) == Seq::<Seq<char>>::empty(),
        sanitized(values.push(value)) == if text::is_blank(value) || sanitized(values).len()
            >= 100 {
            sanitized(values)
        } else {
            sanitized(values).push(text::trimmed(value))
        },
{
    reveal(Seq::filter);
    let all = values.push(value);
    let n = values.len() as int;
    lemma_non_blank_step(all, n);
    assert(all.take(n) =~= values);
    assert(all.take(n + 1) =~= all);
    text::law_trimmed_is_empty_iff_blank(value);
    let none = Seq::<Seq<char>>::empty();
    assert(non_blank(none) =~= none);
    let (x, y) = (non_blank(values), non_blank(all));
    if x.len() >= 100 {
        assert(y.len() >= 100);
        assert(y.take(100) =~= x.take(100));
        assert(x.len() == 100 ==> x.take(100) =~= x);
        assert(y.len() == 100 ==> y.take(100) =~= y);
    }
}

/// The text of a list of strings has the text of each, in order.
pub proof fn law_texts_are_those_of_the_strings(values: Seq<String>, i: int)
    requires
        0 <= i < values.len(),
    ensures
        texts(values).len() == values.len(),
        texts(values)[i] == values[i]@,
{
}

} // verus!
