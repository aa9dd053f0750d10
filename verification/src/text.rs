//! Text as a sequence of characters: white space, words, substrings.
use vstd::prelude::*;

verus! {

/// The characters with the Unicode property `White_Space`.
pub open spec fn is_white_space(c: char) -> bool {
    ||| 0x9 <= c as u32 <= 0xd
    ||| c as u32 == 0x20
    ||| c as u32 == 0x85
    ||| c as u32 == 0xa0
    ||| c as u32 == 0x1680
    ||| 0x2000 <= c as u32 <= 0x200a
    ||| c as u32 == 0x2028
    ||| c as u32 == 0x2029
    ||| c as u32 == 0x202f
    ||| c as u32 == 0x205f
    ||| c as u32 == 0x3000
}

/// `s` without its leading white space.
pub open spec fn trimmed_start(s: Seq<char>) -> Seq<char>
    decreases s.len(),
{
    if s.len() > 0 && is_white_space(s[0]) {
        trimmed_start(s.drop_first())
    } else {
        s
    }
}

/// `s` without its trailing white space.
pub open spec fn trimmed_end(s: Seq<char>) -> Seq<char>
    decreases s.len(),
{
    if s.len() > 0 && is_white_space(s.last()) {
        trimmed_end(s.drop_last())
    } else {
        s
    }
}

/// `s` without white space at either end.
pub open spec fn trimmed(s: Seq<char>) -> Seq<char> {
    trimmed_end(trimmed_start(s))
}

/// Every character of `s` is white space.
pub open spec fn is_blank(s: Seq<char>) -> bool {
    forall|i: int| 0 <= i < s.len() ==> is_white_space(#[trigger] s[i])
}

/// A word of `s` starts at position `i`.
pub open spec fn starts_word(s: Seq<char>, i: int) -> bool {
    !is_white_space(s[i]) && (i == 0 || is_white_space(s[i - 1]))
}

/// The number of words in `s`: of maximal runs of characters that are not white space.
pub open spec fn word_count(s: Seq<char>) -> nat
    decreases s.len(),
{
    if s.len() == 0 {
        0
    } else {
        word_count(s.drop_last()) + if starts_word(s, s.len() - 1) {
            1nat
        } else {
            0nat
        }
    }
}

/// `needle` stands in `hay` at position `i`.
pub open spec fn occurs_at(hay: Seq<char>, needle: Seq<char>, i: int) -> bool {
    0 <= i && i + needle.len() <= hay.len() && hay.subrange(i, i + needle.len()) == needle
}

/// `needle` stands somewhere in `hay`.
pub open spec fn occurs_in(hay: Seq<char>, needle: Seq<char>) -> bool {
    exists|i: int| occurs_at(hay, needle, i)
}

/// `String::push` puts one character behind those already there.
pub assume_specification[ String::push ](s: &mut String, c: char)
    ensures
        final(s)@ == old(s)@.push(c),
;

/// Whether `c` is white space.
pub fn is_whitespace(c: char) -> (b: bool)
    ensures
        b == is_white_space(c),
{
    let u: u32 = c as u32;
    (0x9 <= u && u <= 0xd) || u == 0x20 || u == 0x85 || u == 0xa0 || u == 0x1680 || (0x2000 <= u
        && u <= 0x200a) || u == 0x2028 || u == 0x2029 || u == 0x202f || u == 0x205f || u == 0x3000
}

/// The characters of `s` in order.
pub fn chars_of(s: &str) -> (v: Vec<char>)
    ensures
        v@ == s@,
{
    let mut v: Vec<char> = Vec::new();
    for c in it: s.chars()
        invariant
            it.seq() == s@,
            v@ == s@.take(it.index()),
    {
        v.push(c);
    }
    v
}

/// Leading white space ends where the first other character stands.
proof fn lemma_trimmed_start(s: Seq<char>, n: int)
    requires
        0 <= n <= s.len(),
        forall|i: int| 0 <= i < n ==> is_white_space(#[trigger] s[i]),
        n < s.len() ==> !is_white_space(s[n]),
    ensures
        trimmed_start(s) == s.skip(n),
    decreases s.len(),
{
    if n > 0 {
        assert(is_white_space(s[0]));
        let rest = s.drop_first();
        assert forall|i: int| 0 <= i < n - 1 implies is_white_space(#[trigger] rest[i]) by {
            assert(rest[i] == s[i + 1]);
        }
        lemma_trimmed_start(rest, n - 1);
        assert(rest.skip(n - 1) =~= s.skip(n));
    } else {
        assert(s.skip(0) =~= s);
    }
}

/// Trailing white space begins behind the last other character.
proof fn lemma_trimmed_end(s: Seq<char>, n: int)
    requires
        0 <= n <= s.len(),
        forall|i: int| n <= i < s.len() ==> is_white_space(#[trigger] s[i]),
        n > 0 ==> !is_white_space(s[n - 1]),
    ensures
        trimmed_end(s) == s.take(n),
    decreases s.len(),
{
    if n < s.len() {
        assert(is_white_space(s[s.len() - 1]));
        lemma_trimmed_end(s.drop_last(), n);
        assert(s.drop_last().take(n) =~= s.take(n));
    } else {
        assert(s.take(n) =~= s);
    }
}

/// The trimmed text is the range between the first and the last character that is not white
/// space.
proof fn lemma_trimmed(s: Seq<char>, from: int, to: int)
    requires
        0 <= from <= to <= s.len(),
        forall|i: int| 0 <= i < from ==> is_white_space(#[trigger] s[i]),
        forall|i: int| to <= i < s.len() ==> is_white_space(#[trigger] s[i]),
        from < to ==> !is_white_space(s[from]) && !is_white_space(s[to - 1]),
        from == to ==> from == s.len(),
    ensures
        trimmed(s) == s.subrange(from, to),
{
    lemma_trimmed_start(s, from);
    let rest = s.skip(from);
    assert forall|i: int| to - from <= i < rest.len() implies is_white_space(
        #[trigger] rest[i],
    ) by {
        assert(rest[i] == s[from + i]);
    }
    lemma_trimmed_end(rest, to - from);
    assert(rest.take(to - from) =~= s.subrange(from, to));
}

/// `s` without white space at either end.
pub fn trim(s: &str) -> (t: &str)
    ensures
        t@ == trimmed(s@),
{
    let v: Vec<char> = chars_of(s);
    let mut from: usize = 0;
    while from < v.len() && is_whitespace(v[from])
        invariant
            from <= v.len(),
            forall|i: int| 0 <= i < from ==> is_white_space(#[trigger] v@[i]),
        decreases v.len() - from,
    {
        from = from + 1;
    }
    let mut to: usize = v.len();
    while from < to && is_whitespace(v[to - 1])
        invariant
            from <= to <= v.len(),
            from < v.len() ==> !is_white_space(v@[from as int]),
            forall|i: int| to <= i < v.len() ==> is_white_space(#[trigger] v@[i]),
        decreases to,
    {
        to = to - 1;
    }
    proof {
        lemma_trimmed(v@, from as int, to as int);
    }
    s.substring_char(from, to)
}

/// Whether `s` holds nothing but white space.
pub fn is_blank_text(s: &str) -> (b: bool)
    ensures
        b == is_blank(s@),
        b == (trimmed(s@).len() == 0),
{
    proof {
        law_trimmed_is_empty_iff_blank(s@);
    }
    trim(s).is_empty()
}

/// The number of words in `s`.
pub fn count_words(s: &str) -> (n: usize)
    ensures
        n == word_count(s@),
{
    let v: Vec<char> = chars_of(s);
    let mut n: usize = 0;
    let mut i: usize = 0;
    while i < v.len()
        invariant
            i <= v.len(),
            n <= i,
            n == word_count(v@.take(i as int)),
        decreases v.len() - i,
    {
        proof {
            let next = v@.take(i + 1);
            assert(next.drop_last() =~= v@.take(i as int));
            assert(next.last() == v@[i as int]);
            assert(i > 0 ==> next[i - 1] == v@[i - 1]);
        }
        if !is_whitespace(v[i]) && (i == 0 || is_whitespace(v[i - 1])) {
            n = n + 1;
        }
        i = i + 1;
    }
    assert(v@.take(v.len() as int) =~= v@);
    n
}

/// Whether `needle` stands in `hay` at position `at`.
fn matches_at(hay: &Vec<char>, needle: &Vec<char>, at: usize) -> (b: bool)
    requires
        at + needle.len() <= hay.len(),
    ensures
        b == occurs_at(hay@, needle@, at as int),
{
    let mut k: usize = 0;
    while k < needle.len()
        invariant
            at + needle.len() <= hay.len(),
            k <= needle.len(),
            forall|j: int| 0 <= j < k ==> #[trigger] needle@[j] == hay@[at + j],
        decreases needle.len() - k,
    {
        if needle[k] != hay[at + k] {
            assert(hay@.subrange(at as int, at + needle.len())[k as int] != needle@[k as int]);
            return false;
        }
        k = k + 1;
    }
    assert(hay@.subrange(at as int, at + needle.len()) =~= needle@);
    true
}

/// Whether `needle` stands somewhere in `hay`.
pub fn contains(hay: &str, needle: &str) -> (b: bool)
    ensures
        b == occurs_in(hay@, needle@),
{
    let h: Vec<char> = chars_of(hay);
    let n: Vec<char> = chars_of(needle);
    if n.len() > h.len() {
        return false;
    }
    let mut i: usize = h.len() - n.len();
    while !matches_at(&h, &n, i)
        invariant
            h@ == hay@,
            n@ == needle@,
            i + n.len() <= h.len(),
            forall|j: int| i < j ==> !occurs_at(hay@, needle@, j),
        decreases i,
    {
        if i == 0 {
            return false;
        }
        i = i - 1;
    }
    true
}

/// Whether `hay` ends with `needle`.
pub fn ends_with(hay: &str, needle: &str) -> (b: bool)
    ensures
        b == occurs_at(hay@, needle@, hay@.len() - needle@.len()),
{
    let h: Vec<char> = chars_of(hay);
    let n: Vec<char> = chars_of(needle);
    if n.len() > h.len() {
        return false;
    }
    matches_at(&h, &n, h.len() - n.len())
}

/// `a` followed by `b`.
pub fn join(a: &str, b: &str) -> (s: String)
    ensures
        s@ == a@ + b@,
{
    let mut s: String = a.to_owned();
    s.append(b);
    s
}

/// Trimming leaves a text that begins and ends with a character that is not white space, unless
/// it leaves nothing.
pub proof fn law_trimmed_ends(s: Seq<char>)
    ensures
        trimmed(s).len() > 0 ==> !is_white_space(trimmed(s)[0]) && !is_white_space(
            trimmed(s).last(),
        ),
        trimmed(s).len() <= s.len(),
    decreases s.len(),
{
    if s.len() > 0 && is_white_space(s[0]) {
        law_trimmed_ends(s.drop_first());
        assert(trimmed(s) == trimmed(s.drop_first()));
    } else {
        lemma_trimmed_end_prefix(s);
    }
}

/// Trimming the end keeps a prefix that does not end with white space.
proof fn lemma_trimmed_end_prefix(s: Seq<char>)
    ensures
        trimmed_end(s).len() <= s.len(),
        trimmed_end(s) == s.take(trimmed_end(s).len() as int),
        trimmed_end(s).len() > 0 ==> !is_white_space(trimmed_end(s).last()),
        forall|i: int| trimmed_end(s).len() <= i < s.len() ==> is_white_space(#[trigger] s[i]),
    decreases s.len(),
{
    if s.len() > 0 && is_white_space(s.last()) {
        lemma_trimmed_end_prefix(s.drop_last());
        let n = trimmed_end(s).len() as int;
        assert(s.drop_last().take(n) =~= s.take(n));
        assert forall|i: int| n <= i < s.len() implies is_white_space(#[trigger] s[i]) by {
            if i < s.len() - 1 {
                assert(s.drop_last()[i] == s[i]);
            }
        }
    } else {
        assert(s.take(s.len() as int) =~= s);
    }
}

/// Trimming a text twice is trimming it once.
pub proof fn law_trimming_is_idempotent(s: Seq<char>)
    ensures
        trimmed(trimmed(s)) == trimmed(s),
{
    law_trimmed_ends(s);
}

/// Trimming leaves nothing exactly when the text holds nothing but white space.
pub proof fn law_trimmed_is_empty_iff_blank(s: Seq<char>)
    ensures
        trimmed(s).len() == 0 <==> is_blank(s),
    decreases s.len(),
{
    if s.len() > 0 && is_white_space(s[0]) {
        let rest = s.drop_first();
        law_trimmed_is_empty_iff_blank(rest);
        assert(trimmed(s) == trimmed(rest));
        if is_blank(rest) {
            assert forall|i: int| 0 <= i < s.len() implies is_white_space(#[trigger] s[i]) by {
                if i > 0 {
                    assert(rest[i - 1] == s[i]);
                }
            }
        }
        if is_blank(s) {
            assert forall|i: int| 0 <= i < rest.len() implies is_white_space(
                #[trigger] rest[i],
            ) by {
                assert(rest[i] == s[i + 1]);
            }
        }
    } else {
        lemma_trimmed_end_prefix(s);
    }
}

/// Behind a text that is not blank, nothing more of the beginning is trimmed.
proof fn lemma_trimmed_start_append(s: Seq<char>, more: Seq<char>)
    requires
        !is_blank(s),
    ensures
        trimmed_start(s + more) == trimmed_start(s) + more,
    decreases s.len(),
{
    let i = choose|i: int| 0 <= i < s.len() && !is_white_space(#[trigger] s[i]);
    if is_white_space(s[0]) {
        let rest = s.drop_first();
        assert(rest[i - 1] == s[i]);
        lemma_trimmed_start_append(rest, more);
        assert((s + more).drop_first() =~= rest + more);
    }
}

/// Before a text that is not blank, nothing more of the end is trimmed.
proof fn lemma_trimmed_end_append(s: Seq<char>, more: Seq<char>)
    requires
        !is_blank(more),
    ensures
        trimmed_end(s + more) == s + trimmed_end(more),
        trimmed_end(more).len() > 0,
    decreases more.len(),
{
    let i = choose|i: int| 0 <= i < more.len() && !is_white_space(#[trigger] more[i]);
    if is_white_space(more.last()) {
        let front = more.drop_last();
        assert(front[i] == more[i]);
        lemma_trimmed_end_append(s, front);
        assert((s + more).drop_last() =~= s + front);
    }
}

/// A text that goes on and says more is longer, trimmed or not.
pub proof fn law_trimmed_grows_with_the_text(s: Seq<char>, more: Seq<char>)
    requires
        !is_blank(more),
    ensures
        trimmed(s + more).len() > trimmed(s).len(),
{
    let i = choose|i: int| 0 <= i < more.len() && !is_white_space(#[trigger] more[i]);
    assert((s + more)[s.len() + i] == more[i]);
    law_trimmed_is_empty_iff_blank(s + more);
    law_trimmed_is_empty_iff_blank(s);
    if !is_blank(s) {
        lemma_trimmed_start_append(s, more);
        lemma_trimmed_end_append(trimmed_start(s), more);
        lemma_trimmed_end_prefix(trimmed_start(s));
    }
}

/// A text has no words exactly when it holds nothing but white space, and never more words than
/// characters.
pub proof fn law_word_count_bounds(s: Seq<char>)
    ensures
        word_count(s) == 0 <==> is_blank(s),
        word_count(s) <= s.len(),
    decreases s.len(),
{
    if s.len() > 0 {
        let front = s.drop_last();
        law_word_count_bounds(front);
        if is_blank(front) {
            assert(s.len() > 1 ==> is_white_space(front[s.len() - 2]));
            assert forall|i: int|
                0 <= i < s.len() && is_white_space(s.last()) implies is_white_space(
                #[trigger] s[i],
            ) by {
                if i < s.len() - 1 {
                    assert(front[i] == s[i]);
                }
            }
        } else {
            let i = choose|i: int| 0 <= i < front.len() && !is_white_space(#[trigger] front[i]);
            assert(s[i] == front[i]);
        }
        if is_blank(s) {
            assert(is_white_space(s[s.len() - 1]));
        }
    }
}

/// White space at the beginning holds no words.
proof fn lemma_word_count_drop_first(s: Seq<char>)
    requires
        s.len() > 0,
        is_white_space(s[0]),
    ensures
        word_count(s.drop_first()) == word_count(s),
    decreases s.len(),
{
    let rest = s.drop_first();
    if s.len() > 1 {
        let n = s.len() - 1;
        lemma_word_count_drop_first(s.drop_last());
        assert(rest.drop_last() =~= s.drop_last().drop_first());
        assert(rest[n - 1] == s[n]);
        assert(n > 1 ==> rest[n - 2] == s[n - 1]);
        assert(starts_word(rest, n - 1) == starts_word(s, n));
    } else {
        assert(word_count(s.drop_last()) == 0);
        assert(word_count(rest) == 0);
    }
}

/// Trimming the beginning takes no words.
proof fn lemma_word_count_trimmed_start(s: Seq<char>)
    ensures
        word_count(trimmed_start(s)) == word_count(s),
    decreases s.len(),
{
    if s.len() > 0 && is_white_space(s[0]) {
        lemma_word_count_drop_first(s);
        lemma_word_count_trimmed_start(s.drop_first());
    }
}

/// Trimming the end takes no words.
proof fn lemma_word_count_trimmed_end(s: Seq<char>)
    ensures
        word_count(trimmed_end(s)) == word_count(s),
    decreases s.len(),
{
    if s.len() > 0 && is_white_space(s.last()) {
        lemma_word_count_trimmed_end(s.drop_last());
    }
}

/// Trimming takes no words.
pub proof fn law_trimming_keeps_words(s: Seq<char>)
    ensures
        word_count(trimmed(s)) == word_count(s),
{
    lemma_word_count_trimmed_start(s);
    lemma_word_count_trimmed_end(trimmed_start(s));
}

/// A text that goes on never has fewer words.
pub proof fn law_word_count_grows_with_the_text(s: Seq<char>, more: Seq<char>)
    ensures
        word_count(s + more) >= word_count(s),
    decreases more.len(),
{
    if more.len() > 0 {
        law_word_count_grows_with_the_text(s, more.drop_last());
        assert((s + more).drop_last() =~= s + more.drop_last());
    } else {
        assert(s + more =~= s);
    }
}

/// Trimming takes exactly the white space that surrounds a text: what stands between it, and
/// begins and ends with something else, is left whole.
pub proof fn law_trimming_takes_just_the_surroundings(
    before: Seq<char>,
    middle: Seq<char>,
    after: Seq<char>,
)
    requires
        forall|i: int| 0 <= i < before.len() ==> is_white_space(#[trigger] before[i]),
        forall|i: int| 0 <= i < after.len() ==> is_white_space(#[trigger] after[i]),
        middle.len() > 0,
        !is_white_space(middle[0]),
        !is_white_space(middle[middle.len() - 1]),
    ensures
        trimmed(before + middle + after) == middle,
        trimmed(before) == Seq::<char>::empty(),
{
    let s = before + middle + after;
    let from = before.len() as int;
    let to = from + middle.len();
    assert forall|i: int| 0 <= i < from implies is_white_space(#[trigger] s[i]) by {
        assert(s[i] == before[i]);
    }
    assert forall|i: int| to <= i < s.len() implies is_white_space(#[trigger] s[i]) by {
        assert(s[i] == after[i - to]);
    }
    assert(s[from] == middle[0] && s[to - 1] == middle[middle.len() - 1]);
    lemma_trimmed(s, from, to);
    assert(s.subrange(from, to) =~= middle);
    lemma_trimmed(before, from, from);
    assert(before.subrange(from, from) =~= Seq::<char>::empty());
}

/// A text is blank exactly when it has no character but white space.
pub proof fn law_blank_texts_hold_only_white_space(s: Seq<char>)
    ensures
        is_blank(s) <==> forall|c: char| s.contains(c) ==> is_white_space(c),
{
    if is_blank(s) {
        assert forall|c: char| s.contains(c) implies is_white_space(c) by {
            let i = choose|i: int| 0 <= i < s.len() && s[i] == c;
            assert(is_white_space(s[i]));
        }
    } else {
        let i = choose|i: int| 0 <= i < s.len() && !is_white_space(#[trigger] s[i]);
        assert(s.contains(s[i]));
    }
}

/// The words on both sides of a white space add up, however many there are.
pub proof fn law_words_add_up(left: Seq<char>, c: char, right: Seq<char>)
    requires
        is_white_space(c),
    ensures
        word_count(left.push(c) + right) == word_count(left) + word_count(right),
    decreases right.len(),
{
    let s = left.push(c) + right;
    let n = s.len() - 1;
    if right.len() == 0 {
        assert(s =~= left.push(c));
        assert(s.drop_last() =~= left);
        assert(s[n] == c);
    } else {
        let k = right.len() - 1;
        law_words_add_up(left, c, right.drop_last());
        assert(s.drop_last() =~= left.push(c) + right.drop_last());
        assert(s[n] == right[k]);
        assert(k > 0 ==> s[n - 1] == right[k - 1]);
        assert(k == 0 ==> s[n - 1] == c);
        assert(starts_word(s, n) == starts_word(right, k));
    }
}

/// Characters without white space between them are one word, however many there are.
pub proof fn law_unbroken_text_is_one_word(s: Seq<char>)
    requires
        s.len() > 0,
        forall|i: int| 0 <= i < s.len() ==> !is_white_space(#[trigger] s[i]),
    ensures
        word_count(s) == 1,
    decreases s.len(),
{
    let front = s.drop_last();
    if s.len() > 1 {
        assert forall|i: int| 0 <= i < front.len() implies !is_white_space(#[trigger] front[i]) by {
            assert(front[i] == s[i]);
        }
        law_unbroken_text_is_one_word(front);
        assert(!is_white_space(s[s.len() - 2]));
    } else {
        assert(word_count(front) == 0);
        assert(!is_white_space(s[0]));
    }
}

/// A text stands in another exactly when something before it and something behind it make up the
/// other, and ends it exactly when something before it does.
pub proof fn law_a_text_stands_in_another_iff_the_rest_completes_it(
    hay: Seq<char>,
    needle: Seq<char>,
)
    ensures
        occurs_in(hay, needle) <==> exists|a: Seq<char>, b: Seq<char>|
            hay == #[trigger] (a + needle + b),
        occurs_at(hay, needle, hay.len() - needle.len()) <==> exists|a: Seq<char>|
            hay == #[trigger] (a + needle),
{
    if occurs_in(hay, needle) {
        let i = choose|i: int| occurs_at(hay, needle, i);
        assert(hay =~= hay.take(i) + needle + hay.skip(i + needle.len())) by {
            assert forall|j: int| i <= j < i + needle.len() implies hay[j] == needle[j - i] by {
                assert(hay.subrange(i, i + needle.len())[j - i] == hay[j]);
            }
        }
    }
    if exists|a: Seq<char>, b: Seq<char>| hay == #[trigger] (a + needle + b) {
        let (a, b) = choose|a: Seq<char>, b: Seq<char>| hay == #[trigger] (a + needle + b);
        assert(hay.subrange(a.len() as int, (a.len() + needle.len()) as int) =~= needle);
        assert(occurs_at(hay, needle, a.len() as int));
    }
    let i = hay.len() - needle.len();
    if occurs_at(hay, needle, i) {
        assert(hay =~= hay.take(i) + needle) by {
            assert forall|j: int| i <= j < hay.len() implies hay[j] == needle[j - i] by {
                assert(hay.subrange(i, i + needle.len())[j - i] == hay[j]);
            }
        }
    }
    if exists|a: Seq<char>| hay == #[trigger] (a + needle) {
        let a = choose|a: Seq<char>| hay == #[trigger] (a + needle);
        assert(hay.subrange(i, i + needle.len()) =~= needle);
    }
}

} // verus!
