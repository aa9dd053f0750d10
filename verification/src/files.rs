//! The audio file: its name, and what can go wrong with it.
use vstd::prelude::*;

use crate::text::join;

verus! {

/// The decimal digit `d`.
pub open spec fn digit(d: nat) -> char {
    ('0' as u32 + d) as char
}

/// `n` in decimal, without leading zeros.
pub open spec fn decimal(n: nat) -> Seq<char>
    decreases n,
{
    if n < 10 {
        seq![digit(n)]
    } else {
        decimal(n / 10).push(digit(n % 10))
    }
}

/// The name of the audio file that process `pid` writes at the instant `unique`.
pub open spec fn file_name_text(unique: nat, pid: nat) -> Seq<char> {
    "voquill-apple-speech-"@ + decimal(unique) + "-"@ + decimal(pid) + ".wav"@
}

/// Puts `n` in decimal behind `out`.
fn push_decimal(out: &mut String, n: u128)
    ensures
        final(out)@ == old(out)@ + decimal(n as nat),
    decreases n,
{
    if n >= 10 {
        push_decimal(out, n / 10);
    }
    let d: u8 = (n % 10) as u8;
    out.push((48 + d) as char);
    assert(out@ =~= old(out)@ + decimal(n as nat));
}

/// The name of the audio file that process `pid` writes at the instant `unique`.
pub fn temp_file_name(unique: u128, pid: u32) -> (name: String)
    ensures
        name@ == file_name_text(unique as nat, pid as nat),
{
    let mut name: String = "voquill-apple-speech-".to_owned();
    push_decimal(&mut name, unique);
    name.append("-");
    push_decimal(&mut name, pid as u128);
    name.append(".wav");
    name
}

/// The steps of writing the audio file, each of which can fail.
#[derive(Clone, Copy, PartialEq, Eq, Structural, Debug)]
pub enum FileStep {
    Name,
    Create,
    Write,
    Finalize,
}

/// What is said when a step fails, before the detail.
pub open spec fn fault_text(step: FileStep) -> Seq<char> {
    match step {
        FileStep::Name => "Failed to create Apple Speech temp file name: "@,
        FileStep::Create => "Failed to create Apple Speech WAV file: "@,
        FileStep::Write => "Failed to write Apple Speech WAV sample: "@,
        FileStep::Finalize => "Failed to finalize Apple Speech WAV file: "@,
    }
}

/// The message for a step that failed with `detail`.
pub fn file_fault(step: FileStep, detail: &str) -> (message: String)
    ensures
        message@ == fault_text(step) + detail@,
{
    let prefix: &str = match step {
        FileStep::Name => "Failed to create Apple Speech temp file name: ",
        FileStep::Create => "Failed to create Apple Speech WAV file: ",
        FileStep::Write => "Failed to write Apple Speech WAV sample: ",
        FileStep::Finalize => "Failed to finalize Apple Speech WAV file: ",
    };
    join(prefix, detail)
}

/// A number in decimal has at least one digit and nothing but digits.
proof fn lemma_decimal_is_digits(n: nat)
    ensures
        decimal(n).len() > 0,
        forall|i: int|
            0 <= i < decimal(n).len() ==> '0' as u32 <= (#[trigger] decimal(n)[i]) as u32 <= '9' as u32,
    decreases n,
{
    if n >= 10 {
        lemma_decimal_is_digits(n / 10);
    }
}

/// Different numbers differ in decimal.
pub proof fn law_decimal_is_injective(a: nat, b: nat)
    requires
        decimal(a) == decimal(b),
    ensures
        a == b,
    decreases a,
{
    lemma_decimal_is_digits(a / 10);
    lemma_decimal_is_digits(b / 10);
    let (x, y) = (decimal(a), decimal(b));
    assert(x.last() == y.last());
    assert(digit(a % 10) == x.last() && digit(b % 10) == y.last());
    if a >= 10 && b >= 10 {
        assert(x.drop_last() =~= decimal(a / 10));
        assert(y.drop_last() =~= decimal(b / 10));
        law_decimal_is_injective(a / 10, b / 10);
    }
}

/// Two files have the same name only if the same process wrote them at the same instant.
pub proof fn law_file_names_are_distinct(u1: nat, p1: nat, u2: nat, p2: nat)
    requires
        file_name_text(u1, p1) == file_name_text(u2, p2),
    ensures
        u1 == u2,
        p1 == p2,
{
    reveal_strlit("-");
    reveal_strlit(".wav");
    let (x, y) = (file_name_text(u1, p1), file_name_text(u2, p2));
    let n = "voquill-apple-speech-"@.len() as int;
    let (a1, a2) = (decimal(u1), decimal(u2));
    let (b1, b2) = (decimal(p1), decimal(p2));
    lemma_decimal_is_digits(u1);
    lemma_decimal_is_digits(u2);
    assert forall|i: int| 0 <= i < a1.len() implies #[trigger] x[n + i] == a1[i] by {}
    assert forall|i: int| 0 <= i < a2.len() implies #[trigger] y[n + i] == a2[i] by {}
    assert(x[n + a1.len()] == '-');
    assert(y[n + a2.len()] == '-');
    if a1.len() < a2.len() {
        assert(y[n + a1.len()] == a2[a1.len() as int]);
    }
    if a2.len() < a1.len() {
        assert(x[n + a2.len()] == a1[a2.len() as int]);
    }
    assert forall|i: int| 0 <= i < a1.len() implies a1[i] == a2[i] by {
        assert(x[n + i] == a1[i] && y[n + i] == a2[i]);
    }
    assert(a1 =~= a2);
    law_decimal_is_injective(u1, u2);
    let m = n + a1.len() + 1;
    assert(x.len() == m + b1.len() + 4);
    assert(y.len() == m + b2.len() + 4);
    assert forall|i: int| 0 <= i < b1.len() implies b1[i] == b2[i] by {
        assert(x[m + i] == b1[i] && y[m + i] == b2[i]);
    }
    assert(b1 =~= b2);
    law_decimal_is_injective(p1, p2);
}

/// The number that a numeral stands for.
pub open spec fn numeral_value(s: Seq<char>) -> int
    decreases s.len(),
{
    if s.len() == 0 {
        0
    } else {
        10 * numeral_value(s.drop_last()) + (s.last() as u32 - '0' as u32)
    }
}

/// A numeral: digits and nothing else, at least one, and no leading zero before others.
pub open spec fn is_numeral(s: Seq<char>) -> bool {
    &&& s.len() > 0
    &&& forall|i: int| 0 <= i < s.len() ==> '0' as u32 <= (#[trigger] s[i]) as u32 <= '9' as u32
    &&& s.len() > 1 ==> s[0] != '0'
}

/// A character with the code of a digit is that digit.
proof fn lemma_digit_by_code(c: char, d: nat)
    requires
        d < 10,
        c as u32 == '0' as u32 + d,
    ensures
        c == digit(d),
{
}

/// A numeral without a leading zero, other than that of zero, stands for a positive number.
proof fn lemma_numeral_value_positive(s: Seq<char>)
    requires
        is_numeral(s),
    ensures
        numeral_value(s) >= 0,
        s[0] != '0' ==> numeral_value(s) > 0,
        s.len() > 1 ==> numeral_value(s) >= 10,
    decreases s.len(),
{
    let front = s.drop_last();
    if s.len() > 1 {
        assert forall|i: int| 0 <= i < front.len() implies '0' as u32 <= (
        #[trigger] front[i]) as u32 <= '9' as u32 by {
            assert(front[i] == s[i]);
        }
        lemma_numeral_value_positive(front);
        assert('0' as u32 <= s[s.len() - 1] as u32);
    } else {
        assert(numeral_value(front) == 0);
        assert('0' as u32 <= s[0] as u32 <= '9' as u32);
        if s[0] as u32 == '0' as u32 {
            lemma_digit_by_code(s[0], 0);
        }
    }
}

/// The decimal form of a number is the one numeral that stands for it.
pub proof fn law_decimal_is_the_numeral_of_its_number(n: nat, s: Seq<char>)
    ensures
        is_numeral(decimal(n)),
        numeral_value(decimal(n)) == n,
        is_numeral(s) && numeral_value(s) == n ==> s == decimal(n),
    decreases n,
{
    let d = decimal(n);
    lemma_decimal_is_digits(n);
    if n < 10 {
        assert(numeral_value(d.drop_last()) == 0);
        if is_numeral(s) && numeral_value(s) == n {
            lemma_numeral_value_positive(s);
            assert(s.len() == 1);
            assert(numeral_value(s.drop_last()) == 0);
            lemma_digit_by_code(s[0], n);
            assert(s =~= d);
        }
    } else {
        let front = s.drop_last();
        law_decimal_is_the_numeral_of_its_number(n / 10, front);
        assert(d.drop_last() =~= decimal(n / 10));
        assert(d[0] == decimal(n / 10)[0]);
        lemma_numeral_value_positive(decimal(n / 10));
        if decimal(n / 10).len() == 1 {
            assert(decimal(n / 10)[0] != '0') by {
                assert(numeral_value(decimal(n / 10).drop_last()) == 0);
            }
        }
        if is_numeral(s) && numeral_value(s) == n {
            assert('0' as u32 <= s[s.len() - 1] as u32 <= '9' as u32);
            if s.len() == 1 {
                assert(numeral_value(front) == 0);
            } else {
                assert forall|i: int| 0 <= i < front.len() implies '0' as u32 <= (
                #[trigger] front[i]) as u32 <= '9' as u32 by {
                    assert(front[i] == s[i]);
                }
                assert(is_numeral(front));
                assert(numeral_value(front) == n / 10);
                lemma_digit_by_code(s.last(), n % 10);
                assert(s =~= front.push(s.last()));
            }
        }
    }
}

/// The name of the audio file spells out the instant and the process, each as a numeral, and
/// nothing of either is left out.
pub proof fn law_file_names_spell_instant_and_process(
    unique: nat,
    pid: nat,
    a: Seq<char>,
    b: Seq<char>,
)
    requires
        is_numeral(a),
        is_numeral(b),
        numeral_value(a) == unique,
        numeral_value(b) == pid,
    ensures
        file_name_text(unique, pid) == "voquill-apple-speech-"@ + a + "-"@ + b + ".wav"@,
{
    law_decimal_is_the_numeral_of_its_number(unique, a);
    law_decimal_is_the_numeral_of_its_number(pid, b);
}

} // verus!
