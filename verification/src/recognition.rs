//! What recognition has produced so far, and waiting for it to end.
use vstd::prelude::*;

use crate::text;
use crate::text::is_blank_text;
use crate::transcript;
use crate::transcript::{is_better_partial_transcript, select_final_transcript};

verus! {

/// How recognition ended: a transcript, or the reason why there is none.
pub type Outcome = Result<String, String>;

/// A transcript or a reason, as text.
pub type OutcomeText = Result<Seq<char>, Seq<char>>;

/// `outcome` as text.
pub open spec fn outcome_text(outcome: Outcome) -> OutcomeText {
    match outcome {
        Ok(text) => Ok(text@),
        Err(message) => Err(message@),
    }
}

/// `text`, where there is one, as characters.
pub open spec fn optional_text(text: Option<String>) -> Option<Seq<char>> {
    match text {
        Some(text) => Some(text@),
        None => None,
    }
}

/// `outcome`, where there is one, as text.
pub open spec fn optional_outcome(outcome: Option<Outcome>) -> Option<OutcomeText> {
    match outcome {
        Some(outcome) => Some(outcome_text(outcome)),
        None => None,
    }
}

/// What recognition has produced so far.
pub struct RecognitionState {
    pub outcome: Option<Outcome>,
    pub best_text: String,
}

/// The state of recognition, as text.
pub struct StateText {
    pub outcome: Option<OutcomeText>,
    pub best_text: Seq<char>,
}

/// One report of the recognizer: perhaps a transcript, whether it is the last, perhaps an error.
pub struct Report {
    pub text: Option<Seq<char>>,
    pub is_final: bool,
    pub error: Option<Seq<char>>,
}

impl View for RecognitionState {
    type V = StateText;

    open spec fn view(&self) -> StateText {
        StateText {
            outcome: optional_outcome(self.outcome),
            best_text: self.best_text@,
        }
    }
}

/// The state before the first report.
pub open spec fn initial_state() -> StateText {
    StateText { outcome: None, best_text: Seq::empty() }
}

/// The best transcript after a report.
pub open spec fn best_after(best: Seq<char>, report: Report) -> Seq<char> {
    match report.text {
        Some(text) => if report.is_final {
            transcript::chosen_final(text, best)
        } else if transcript::better_partial(text, best) {
            text
        } else {
            best
        },
        None => best,
    }
}

/// What a report decides, when `best` is the best transcript including it: an error ends
/// recognition, with what was heard if anything was, and so does the last transcript.
pub open spec fn decided_by(report: Report, best: Seq<char>) -> Option<OutcomeText> {
    match report.error {
        Some(message) => if text::is_blank(best) {
            Some(Err(message))
        } else {
            Some(Ok(best))
        },
        None => if report.is_final {
            Some(Ok(best))
        } else {
            None
        },
    }
}

/// The state after a report: the first outcome decided stands.
pub open spec fn state_after(state: StateText, report: Report) -> StateText {
    let best = best_after(state.best_text, report);
    StateText {
        outcome: if state.outcome is Some {
            state.outcome
        } else {
            decided_by(report, best)
        },
        best_text: best,
    }
}

/// The state after every report of a sequence.
pub open spec fn state_after_all(state: StateText, reports: Seq<Report>) -> StateText
    decreases reports.len(),
{
    if reports.len() == 0 {
        state
    } else {
        state_after(state_after_all(state, reports.drop_last()), reports.last())
    }
}

/// What a waiting thread does next.
pub enum WaitStep {
    /// Wait for the next change or for the timeout.
    Wait,
    /// Stop waiting: with the outcome, or with the reason why none came.
    Done(Result<Outcome, String>),
}

impl Default for RecognitionState {
    fn default() -> (state: Self)
        ensures
            state@ == initial_state(),
    {
        RecognitionState { outcome: None, best_text: String::new() }
    }
}

impl RecognitionState {
    /// Takes in one report of the recognizer, and says whether it decided the outcome, so that a
    /// waiting thread is to be woken.
    pub fn record(
        &mut self,
        next_text: Option<String>,
        is_final: bool,
        next_error: Option<String>,
    ) -> (notify: bool)
        ensures
            final(self)@ == state_after(
                old(self)@,
                Report {
                    text: optional_text(next_text),
                    is_final,
                    error: optional_text(next_error),
                },
            ),
            notify == (old(self)@.outcome is None && final(self)@.outcome is Some),
    {
        if let Some(text) = next_text {
            if is_final {
                self.best_text = select_final_transcript(text.as_str(), self.best_text.as_str());
            } else if is_better_partial_transcript(text.as_str(), self.best_text.as_str()) {
                self.best_text = text;
            }
        }
        if self.outcome.is_some() {
            return false;
        }
        if let Some(message) = next_error {
            if is_blank_text(self.best_text.as_str()) {
                self.outcome = Some(Err(message));
            } else {
                self.outcome = Some(Ok(self.best_text.clone()));
            }
            true
        } else if is_final {
            self.outcome = Some(Ok(self.best_text.clone()));
            true
        } else {
            false
        }
    }
}

/// What a waiting thread does next, as text: nothing while it is to wait on.
pub open spec fn step_text(step: WaitStep) -> Option<Result<OutcomeText, Seq<char>>> {
    match step {
        WaitStep::Wait => None,
        WaitStep::Done(Ok(outcome)) => Some(Ok(outcome_text(outcome))),
        WaitStep::Done(Err(message)) => Some(Err(message@)),
    }
}

/// What the wait brings in a state, if it ends there.
pub open spec fn wait_brings(
    state: StateText,
    timed_out: bool,
) -> Option<Result<OutcomeText, Seq<char>>> {
    match state.outcome {
        Some(outcome) => Some(Ok(outcome)),
        None => if timed_out {
            Some(Err("Apple Speech recognition timed out."@))
        } else {
            None
        },
    }
}

/// Decides, for a thread that holds the state, whether to go on waiting. `timed_out` says whether
/// the last wait ran into its timeout; before the first wait it is false. An outcome that is there
/// is taken, even if it came with the timeout.
pub fn wait_for_recognition(state: &mut RecognitionState, timed_out: bool) -> (step: WaitStep)
    ensures
        final(state)@.best_text == old(state)@.best_text,
        final(state)@.outcome is None,
        match old(state).outcome {
            Some(outcome) => step == WaitStep::Done(Ok(outcome)),
            None => if timed_out {
                step matches WaitStep::Done(Err(message)) && message@
                    == "Apple Speech recognition timed out."@
            } else {
                step is Wait
            },
        },
        step_text(step) == wait_brings(old(state)@, timed_out),
{
    match state.outcome.take() {
        Some(outcome) => WaitStep::Done(Ok(outcome)),
        None => if timed_out {
            WaitStep::Done(Err("Apple Speech recognition timed out.".to_owned()))
        } else {
            WaitStep::Wait
        },
    }
}

/// The reason given when the state can no longer be locked.
pub fn recognition_poisoned() -> (message: String)
    ensures
        message@ == "Apple Speech recognition mutex poisoned."@,
{
    "Apple Speech recognition mutex poisoned.".to_owned()
}

/// What a result amounts to, when there may be none.
pub open spec fn settled(result: Option<OutcomeText>) -> OutcomeText {
    match result {
        Some(outcome) => outcome,
        None => Err("Apple Speech recognition ended without a result."@),
    }
}

/// `result`, or an error saying that there is none.
pub fn settle(result: Option<Outcome>) -> (outcome: Outcome)
    ensures
        outcome_text(outcome) == settled(optional_outcome(result)),
{
    match result {
        Some(outcome) => outcome,
        None => Err("Apple Speech recognition ended without a result.".to_owned()),
    }
}

/// The text of an error from the recognizer: its description, unless that says nothing.
pub open spec fn error_text(description: Option<Seq<char>>) -> Seq<char> {
    match description {
        Some(description) => if text::is_blank(description) {
            "Apple Speech recognition failed."@
        } else {
            description
        },
        None => "Apple Speech recognition failed."@,
    }
}

/// The message for an error with the given description.
pub fn error_to_string(description: Option<String>) -> (message: String)
    ensures
        message@ == error_text(optional_text(description)),
{
    if let Some(description) = description {
        if !is_blank_text(description.as_str()) {
            return description;
        }
    }
    "Apple Speech recognition failed.".to_owned()
}

/// An error is never reported without a word of explanation.
pub proof fn law_error_text_is_never_blank(description: Option<Seq<char>>)
    ensures
        !text::is_blank(error_text(description)),
{
    reveal_strlit("Apple Speech recognition failed.");
    let message = "Apple Speech recognition failed."@;
    assert(!text::is_white_space(message[0]));
}

/// An outcome once decided is never changed by later reports.
pub proof fn law_first_outcome_stands(state: StateText, reports: Seq<Report>)
    requires
        state.outcome is Some,
    ensures
        state_after_all(state, reports).outcome == state.outcome,
    decreases reports.len(),
{
    if reports.len() > 0 {
        law_first_outcome_stands(state, reports.drop_last());
    }
}

/// What was heard is not lost: the best transcript is blank only while every report so far had no
/// text or a blank one, starting from nothing.
pub proof fn law_best_text_is_blank_iff_nothing_was_heard(reports: Seq<Report>)
    ensures
        text::is_blank(state_after_all(initial_state(), reports).best_text) <==> forall|i: int|
            0 <= i < reports.len() ==> ((#[trigger] reports[i]).text matches Some(t)
                ==> text::is_blank(t)),
    decreases reports.len(),
{
    if reports.len() > 0 {
        let front = reports.drop_last();
        law_best_text_is_blank_iff_nothing_was_heard(front);
        let best = state_after_all(initial_state(), front).best_text;
        if let Some(t) = reports.last().text {
            transcript::law_final_is_blank_iff_both_are(t, best);
            transcript::law_better_partial(t, best);
        }
        assert(forall|i: int| 0 <= i < front.len() ==> front[i] == #[trigger] reports[i]);
        assert(forall|i: int| 0 <= i < front.len() ==> #[trigger] front[i] == reports[i]);
        assert(reports.last() == reports[reports.len() - 1]);
    }
}

/// A transcript once heard is never replaced by a blank one, whatever the state.
pub proof fn law_best_text_never_turns_blank(state: StateText, report: Report)
    requires
        !text::is_blank(state.best_text),
    ensures
        !text::is_blank(state_after(state, report).best_text),
{
    if let Some(t) = report.text {
        transcript::law_final_is_blank_iff_both_are(t, state.best_text);
        transcript::law_better_partial(t, state.best_text);
    }
}

/// No report leaves a best transcript that is suspiciously short beside the one before it.
pub proof fn law_best_text_never_gets_suspiciously_short(best: Seq<char>, report: Report)
    ensures
        !transcript::suspiciously_short(
            text::trimmed(best_after(best, report)),
            text::trimmed(best),
        ),
{
    if let Some(t) = report.text {
        transcript::law_final_is_one_of_the_two(t, best);
        transcript::law_final_is_never_suspiciously_short(t, best);
    }
}

/// A report that ends recognition: it is the last, or an error.
pub open spec fn is_decisive(report: Report) -> bool {
    report.is_final || report.error is Some
}

/// The outcome is open until the first decisive report, and that report settles it for good: an
/// error is the outcome exactly when nothing but blank text had been heard by then, and otherwise
/// the outcome is the best transcript of that moment.
pub proof fn law_first_decisive_report_settles(reports: Seq<Report>, k: int)
    requires
        0 <= k < reports.len(),
        is_decisive(reports[k]),
        forall|i: int| 0 <= i < k ==> !is_decisive(#[trigger] reports[i]),
    ensures
        state_after_all(initial_state(), reports.take(k)).outcome is None,
        ({
            let best = state_after_all(initial_state(), reports.take(k + 1)).best_text;
            state_after_all(initial_state(), reports).outcome == match reports[k].error {
                Some(message) => if text::is_blank(best) {
                    Some(Err(message))
                } else {
                    Some(Ok(best))
                },
                None => Some(Ok(best)),
            }
        }),
    decreases reports.len(),
{
    law_outcome_stays_open_without_a_decisive_report(reports.take(k));
    let upto = reports.take(k + 1);
    assert(upto.drop_last() =~= reports.take(k));
    assert(upto.last() == reports[k]);
    lemma_split(initial_state(), reports, k + 1);
    law_first_outcome_stands(state_after_all(initial_state(), upto), reports.skip(k + 1));
}

/// Without a decisive report the outcome stays open.
pub proof fn law_outcome_stays_open_without_a_decisive_report(reports: Seq<Report>)
    requires
        forall|i: int| 0 <= i < reports.len() ==> !is_decisive(#[trigger] reports[i]),
    ensures
        state_after_all(initial_state(), reports).outcome is None,
    decreases reports.len(),
{
    if reports.len() > 0 {
        let front = reports.drop_last();
        assert forall|i: int| 0 <= i < front.len() implies !is_decisive(#[trigger] front[i]) by {
            assert(front[i] == reports[i]);
        }
        law_outcome_stays_open_without_a_decisive_report(front);
        assert(!is_decisive(reports[reports.len() - 1]));
    }
}

/// Reports can be taken in two parts.
proof fn lemma_split(state: StateText, reports: Seq<Report>, k: int)
    requires
        0 <= k <= reports.len(),
    ensures
        state_after_all(state, reports) == state_after_all(
            state_after_all(state, reports.take(k)),
            reports.skip(k),
        ),
    decreases reports.len(),
{
    if k == reports.len() {
        assert(reports.take(k) =~= reports);
        assert(reports.skip(k).len() == 0);
    } else {
        let front = reports.drop_last();
        lemma_split(state, front, k);
        assert(front.take(k) =~= reports.take(k));
        assert(front.skip(k) =~= reports.skip(k).drop_last());
        assert(reports.skip(k).last() == reports.last());
    }
}

/// A final text that says something and has not lost too much of the best one before becomes the
/// best, trimmed, and settles an open outcome; any other final text leaves the best one, trimmed.
pub proof fn law_final_text_is_the_transcript(state: StateText, report: Report, t: Seq<char>)
    requires
        report.is_final,
        report.text == Some(t),
    ensures
        ({
            let (f, p) = (text::trimmed(t), text::trimmed(state.best_text));
            let lost = text::word_count(state.best_text) >= 6 && text::word_count(state.best_text)
                - text::word_count(t) > 2 && f.len() * 2 < p.len();
            let after = state_after(state, report);
            &&& f.len() > 0 && !lost ==> after.best_text == f
            &&& f.len() == 0 || lost ==> after.best_text == p
            &&& f.len() > 0 && !lost && state.outcome is None ==> after.outcome == Some(
                Ok::<Seq<char>, Seq<char>>(f),
            )
        }),
{
    transcript::law_final_is_chosen_by_what_was_lost(t, state.best_text);
    text::law_trimmed_is_empty_iff_blank(t);
    text::law_trimming_is_idempotent(t);
    text::law_trimmed_is_empty_iff_blank(text::trimmed(t));
}

/// A partial text becomes the best, as it is, exactly when it says something and either has more
/// words or more characters or comes where nothing was heard; otherwise nothing changes. So words
/// and characters of the best text never both shrink.
pub proof fn law_partial_text_replaces_only_a_smaller_one(
    state: StateText,
    report: Report,
    t: Seq<char>,
)
    requires
        !report.is_final,
        report.text == Some(t),
    ensures
        ({
            let (a, b) = (text::trimmed(t), text::trimmed(state.best_text));
            let (x, y) = (text::word_count(t), text::word_count(state.best_text));
            let after = state_after(state, report).best_text;
            &&& a.len() > 0 && (b.len() == 0 || x > y || a.len() > b.len()) ==> after == t
            &&& a.len() == 0 || (b.len() > 0 && x <= y && a.len() <= b.len()) ==> after
                == state.best_text
            &&& text::word_count(after) >= y || text::trimmed(after).len() >= b.len()
        }),
{
    transcript::law_partials_only_grow(t, state.best_text);
    transcript::law_better_partial(t, state.best_text);
    text::law_trimmed_is_empty_iff_blank(t);
    text::law_trimmed_is_empty_iff_blank(state.best_text);
}

/// A report without text leaves the best one as it is.
pub proof fn law_silent_reports_keep_the_text(state: StateText, report: Report)
    requires
        report.text is None,
    ensures
        state_after(state, report).best_text == state.best_text,
{
}

/// An outcome that is there stays. An open one is settled by an error or by the end, and by
/// nothing else: an error is the outcome where no character was heard but white space, and in every
/// other case the best text is, whole.
pub proof fn law_outcome_is_settled_by_the_report(state: StateText, report: Report)
    ensures
        ({
            let after = state_after(state, report);
            let silent = forall|c: char|
                after.best_text.contains(c) ==> text::is_white_space(c);
            &&& state.outcome is Some ==> after.outcome == state.outcome
            &&& state.outcome is None ==> {
                &&& report.error is None && !report.is_final ==> after.outcome is None
                &&& report.error is None && report.is_final ==> after.outcome == Some(
                    Ok::<Seq<char>, Seq<char>>(after.best_text),
                )
                &&& report.error is Some && silent ==> after.outcome == Some(
                    Err::<Seq<char>, Seq<char>>(report.error->0),
                )
                &&& report.error is Some && !silent ==> after.outcome == Some(
                    Ok::<Seq<char>, Seq<char>>(after.best_text),
                )
            }
        }),
{
    text::law_blank_texts_hold_only_white_space(state_after(state, report).best_text);
}

/// Before any report nothing is heard and nothing is decided, and what reports do one after
/// another they do together.
pub proof fn law_reports_are_taken_in_turn(state: StateText, reports: Seq<Report>, report: Report)
    ensures
        initial_state().best_text.len() == 0,
        initial_state().outcome is None,
        state_after_all(state, Seq::empty()) == state,
        state_after_all(state, reports.push(report)) == state_after(
            state_after_all(state, reports),
            report,
        ),
{
    assert(reports.push(report).drop_last() =~= reports);
}

/// A description that has a character other than white space is the message, whole; every other
/// is replaced by one fixed message.
pub proof fn law_descriptions_are_kept_whole(description: Seq<char>)
    ensures
        (exists|c: char| description.contains(c) && !text::is_white_space(c)) ==> error_text(
            Some(description),
        ) == description,
        (forall|c: char| description.contains(c) ==> text::is_white_space(c)) ==> error_text(
            Some(description),
        ) == "Apple Speech recognition failed."@,
        error_text(None) == "Apple Speech recognition failed."@,
{
    text::law_blank_texts_hold_only_white_space(description);
}

/// A result that is there is the one reported, and text stands for an outcome without loss.
pub proof fn law_outcomes_are_kept_whole(outcome: Outcome, text: Seq<char>)
    ensures
        outcome_text(outcome) == Ok::<Seq<char>, Seq<char>>(text) <==> outcome is Ok
            && outcome->Ok_0@ == text,
        outcome_text(outcome) == Err::<Seq<char>, Seq<char>>(text) <==> outcome is Err
            && outcome->Err_0@ == text,
        optional_outcome(Some(outcome)) == Some(outcome_text(outcome)),
        optional_outcome(None) is None,
        settled(Some(outcome_text(outcome))) == outcome_text(outcome),
        settled(None) == Err::<Seq<char>, Seq<char>>(
            "Apple Speech recognition ended without a result."@,
        ),
{
}

/// The wait ends as soon as there is an outcome, and brings just that, in time or not; without one
/// it ends when its time is over, and only then, with the one message and nothing of what was
/// heard.
pub proof fn law_waits_end_with_the_outcome_or_in_time(
    state: StateText,
    timed_out: bool,
    outcome: OutcomeText,
)
    ensures
        wait_brings(state, timed_out) is None <==> state.outcome is None && !timed_out,
        wait_brings(state, timed_out) == Some(
            Ok::<OutcomeText, Seq<char>>(outcome),
        ) <==> state.outcome == Some(outcome),
        wait_brings(state, timed_out) == Some(
            Err::<OutcomeText, Seq<char>>("Apple Speech recognition timed out."@),
        ) <==> state.outcome is None && timed_out,
{
}

/// A text that may be missing is there as it is, an empty one too, or is missing.
pub proof fn law_optional_texts_are_kept_whole(text: String)
    ensures
        optional_text(Some(text)) == Some(text@),
        optional_text(None) is None,
{
}

} // verus!
