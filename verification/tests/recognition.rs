use apple_speech::recognition::{
    error_to_string, recognition_poisoned, wait_for_recognition, RecognitionState, WaitStep,
};

fn text(s: &str) -> Option<String> {
    Some(s.to_string())
}

fn done(step: WaitStep) -> Option<Result<Result<String, String>, String>> {
    match step {
        WaitStep::Wait => None,
        WaitStep::Done(result) => Some(result),
    }
}

#[test]
fn nothing_is_known_at_first() {
    let state = RecognitionState::default();
    assert!(state.outcome.is_none());
    assert_eq!(state.best_text, "");
}

#[test]
fn partials_build_up_the_best_text() {
    let mut state = RecognitionState::default();
    assert!(!state.record(text("hello"), false, None));
    assert!(!state.record(text("hello there"), false, None));
    assert!(!state.record(text("hell"), false, None));
    assert!(!state.record(None, false, None));
    assert_eq!(state.best_text, "hello there");
    assert!(state.outcome.is_none());
}

#[test]
fn the_final_transcript_is_the_outcome() {
    let mut state = RecognitionState::default();
    state.record(text("hello"), false, None);
    assert!(state.record(text(" hello there "), true, None));
    assert_eq!(state.outcome, Some(Ok("hello there".to_string())));
}

#[test]
fn a_final_report_without_text_keeps_the_best() {
    let mut state = RecognitionState::default();
    state.record(text(" hello "), false, None);
    assert!(state.record(None, true, None));
    assert_eq!(state.outcome, Some(Ok(" hello ".to_string())));
}

#[test]
fn an_error_after_speech_still_brings_the_speech() {
    let mut state = RecognitionState::default();
    state.record(text("hello"), false, None);
    assert!(state.record(None, false, text("lost connection")));
    assert_eq!(state.outcome, Some(Ok("hello".to_string())));
}

#[test]
fn an_error_before_speech_is_the_outcome() {
    let mut state = RecognitionState::default();
    state.record(text("  "), false, None);
    assert!(state.record(None, false, text("no speech")));
    assert_eq!(state.outcome, Some(Err("no speech".to_string())));
}

#[test]
fn an_error_counts_before_the_end() {
    let mut state = RecognitionState::default();
    assert!(state.record(None, true, text("no speech")));
    assert_eq!(state.outcome, Some(Err("no speech".to_string())));
}

#[test]
fn the_first_outcome_stands() {
    let mut state = RecognitionState::default();
    assert!(state.record(text("first"), true, None));
    assert!(!state.record(text("second and longer"), true, None));
    assert!(!state.record(None, false, text("too late")));
    assert_eq!(state.outcome, Some(Ok("first".to_string())));
    assert_eq!(state.best_text, "second and longer");
}

#[test]
fn heard_text_never_turns_blank() {
    let mut state = RecognitionState::default();
    state.record(text("heard"), false, None);
    for last in ["", " ", "\n\t"] {
        state.record(text(last), false, None);
        state.record(text(last), true, None);
        assert_eq!(state.best_text, "heard");
    }
}

#[test]
fn waiting_goes_on_until_there_is_an_outcome() {
    let mut state = RecognitionState::default();
    assert!(matches!(wait_for_recognition(&mut state, false), WaitStep::Wait));
    state.record(text("hello"), true, None);
    assert_eq!(
        done(wait_for_recognition(&mut state, false)),
        Some(Ok(Ok("hello".to_string())))
    );
    assert!(state.outcome.is_none());
}

#[test]
fn waiting_ends_with_the_timeout() {
    let mut state = RecognitionState::default();
    assert_eq!(
        done(wait_for_recognition(&mut state, true)),
        Some(Err("Apple Speech recognition timed out.".to_string()))
    );
}

#[test]
fn an_outcome_that_comes_with_the_timeout_counts() {
    let mut state = RecognitionState::default();
    state.record(None, false, text("no speech"));
    assert_eq!(
        done(wait_for_recognition(&mut state, true)),
        Some(Ok(Err("no speech".to_string())))
    );
}

#[test]
fn a_poisoned_state_has_its_own_message() {
    assert_eq!(recognition_poisoned(), "Apple Speech recognition mutex poisoned.");
}

#[test]
fn errors_without_a_description_get_one() {
    assert_eq!(error_to_string(text("no network")), "no network");
    assert_eq!(error_to_string(text(" padded ")), " padded ");
    assert_eq!(error_to_string(text(" \n")), "Apple Speech recognition failed.");
    assert_eq!(error_to_string(None), "Apple Speech recognition failed.");
}

#[test]
fn reports_do_not_shrink_the_best_text_much() {
    let long = "one two three four five six seven";
    let mut state = RecognitionState::default();
    state.record(text(long), false, None);
    for (next, is_final) in [("one", false), ("seven", true), ("", true)] {
        state.record(text(next), is_final, None);
        assert_eq!(state.best_text, long);
    }
}
