use apple_speech::session::{
    request_settings, unavailable, Reply, RequestSettings, Session, Stage, TASK_HINT_DICTATION,
};

const NO_BUNDLE: &str = "Apple Speech permission is not granted. macOS only shows the Speech Recognition permission prompt for app bundles, not the bare dev executable.";

fn words(n: usize) -> Vec<String> {
    (0..n).map(|i| format!("word{i}")).collect()
}

/// The reply that lets a session go on from `stage`.
fn consent(stage: Stage) -> Reply {
    match stage {
        Stage::ReadAuthorization | Stage::RequestAuthorization => Reply::Status(3),
        Stage::ReadBundle => {
            Reply::Bundle { path: Some("/A.app".to_string()), executable: None }
        }
        Stage::ConfigureRequest(_)
        | Stage::EnablePunctuation
        | Stage::AttachContextArray
        | Stage::CancelTask => Reply::Done,
        Stage::AwaitOutcome => Reply::Waited(Ok(Ok("hello".to_string()))),
        _ => Reply::Flag(true),
    }
}

fn session_at(language: Option<&str>, context: usize, stage: Stage) -> Session {
    let mut session = Session::new(language, &words(context));
    while session.stage() != stage {
        let reply = consent(session.stage());
        session = session.advance(reply);
    }
    session
}

fn refused_at(stage: Stage) -> Result<String, String> {
    let session = session_at(Some("en_US"), 2, stage).advance(Reply::Flag(false));
    assert_eq!(session.stage(), Stage::Finished);
    session.into_result()
}

#[test]
fn a_granted_session_goes_through_every_stage() {
    let mut session = Session::new(Some("en_US"), &words(2));
    let mut stages = vec![session.stage()];
    while session.stage() != Stage::Finished {
        let reply = consent(session.stage());
        session = session.advance(reply);
        stages.push(session.stage());
    }
    assert_eq!(
        stages,
        vec![
            Stage::ReadAuthorization,
            Stage::MakeLocaleIdentifier,
            Stage::MakeLocale,
            Stage::MakeRecognizer,
            Stage::CheckOnDevice,
            Stage::CheckAvailable,
            Stage::MakePath,
            Stage::MakeUrl,
            Stage::MakeRequest,
            Stage::ConfigureRequest(request_settings()),
            Stage::CheckPunctuation,
            Stage::EnablePunctuation,
            Stage::MakeContextArray,
            Stage::AddContextString(0),
            Stage::AddContextString(1),
            Stage::RetainContextArray,
            Stage::AttachContextArray,
            Stage::StartTask,
            Stage::RetainTask,
            Stage::AwaitOutcome,
            Stage::Finished,
        ]
    );
    assert_eq!(session.into_result(), Ok("hello".to_string()));
}

#[test]
fn without_language_context_and_punctuation_stages_fall_away() {
    let session = Session::new(None, &[]).advance(Reply::Status(3));
    assert_eq!(session.stage(), Stage::MakeRecognizer);
    let session = session_at(None, 0, Stage::CheckPunctuation).advance(Reply::Flag(false));
    assert_eq!(session.stage(), Stage::StartTask);
    let session = session_at(None, 1, Stage::CheckPunctuation).advance(Reply::Flag(false));
    assert_eq!(session.stage(), Stage::MakeContextArray);
}

#[test]
fn the_session_holds_the_locale_and_the_context() {
    let session = Session::new(Some(" en_US "), &[" a ".to_string(), "".to_string()]);
    assert_eq!(session.locale(), Some("en-US"));
    assert_eq!(*session.contextual_strings(), vec!["a".to_string()]);
    assert_eq!(Session::new(Some("auto"), &[]).locale(), None);
    assert_eq!(
        session.into_result(),
        Err("Apple Speech recognition ended without a result.".to_string())
    );
}

#[test]
fn an_open_answer_is_asked_for_only_from_a_bundle() {
    let session = Session::new(None, &[]).advance(Reply::Status(0));
    assert_eq!(session.stage(), Stage::ReadBundle);
    let session = session.advance(Reply::Bundle {
        path: Some("/src/target/debug".to_string()),
        executable: Some("/src/target/debug/voquill".to_string()),
    });
    assert_eq!(session.stage(), Stage::Finished);
    assert_eq!(session.into_result(), Err(NO_BUNDLE.to_string()));

    let session = Session::new(None, &[]).advance(Reply::Status(0)).advance(Reply::Bundle {
        path: None,
        executable: Some("/Voquill.app/Contents/MacOS/voquill".to_string()),
    });
    assert_eq!(session.stage(), Stage::RequestAuthorization);
}

#[test]
fn other_answers_are_asked_for_again() {
    for status in [1, 2, 7] {
        let session = Session::new(None, &[]).advance(Reply::Status(status));
        assert_eq!(session.stage(), Stage::RequestAuthorization);
    }
}

#[test]
fn a_refused_permission_ends_the_session() {
    for (status, message) in [
        (1, "Apple Speech recognition permission was denied."),
        (2, "Apple Speech recognition is restricted on this Mac."),
        (0, "Apple Speech recognition permission was not granted."),
    ] {
        let session =
            Session::new(None, &[]).advance(Reply::Status(1)).advance(Reply::Status(status));
        assert_eq!(session.stage(), Stage::Finished);
        assert_eq!(session.into_result(), Err(message.to_string()));
    }
    let session = Session::new(None, &[]).advance(Reply::Status(1)).advance(Reply::Poisoned);
    assert_eq!(
        session.into_result(),
        Err("Apple Speech authorization mutex poisoned.".to_string())
    );
}

#[test]
fn each_refusal_has_its_own_message() {
    for (stage, message) in [
        (Stage::MakeLocaleIdentifier, "Apple Speech locale identifier unavailable"),
        (Stage::MakeLocale, "Apple Speech locale unavailable"),
        (Stage::MakeRecognizer, "Apple Speech recognizer unavailable"),
        (
            Stage::CheckOnDevice,
            "Apple Speech on-device recognition is not available for this language.",
        ),
        (Stage::CheckAvailable, "Apple Speech recognizer is not available right now."),
        (Stage::MakePath, "Apple Speech file path unavailable"),
        (Stage::MakeUrl, "Failed to create Apple Speech file URL."),
        (Stage::MakeRequest, "Apple Speech recognition request unavailable"),
        (Stage::MakeContextArray, "Failed to create Apple Speech contextual string array."),
        (Stage::AddContextString(0), "Apple Speech contextual string unavailable"),
        (Stage::AddContextString(1), "Apple Speech contextual string unavailable"),
        (Stage::RetainContextArray, "Apple Speech contextual strings unavailable"),
        (Stage::StartTask, "Failed to start Apple Speech recognition task."),
        (Stage::RetainTask, "Apple Speech recognition task unavailable"),
    ] {
        assert_eq!(refused_at(stage), Err(message.to_string()));
    }
}

#[test]
fn a_failed_wait_cancels_the_task() {
    let session = session_at(None, 0, Stage::AwaitOutcome)
        .advance(Reply::Waited(Err("Apple Speech recognition timed out.".to_string())));
    assert_eq!(session.stage(), Stage::CancelTask);
    let session = session.advance(Reply::Done);
    assert_eq!(session.stage(), Stage::Finished);
    assert_eq!(
        session.into_result(),
        Err("Apple Speech recognition timed out.".to_string())
    );
}

#[test]
fn a_failed_recognition_does_not_cancel_the_task() {
    let session = session_at(None, 0, Stage::AwaitOutcome)
        .advance(Reply::Waited(Ok(Err("no speech".to_string()))));
    assert_eq!(session.stage(), Stage::Finished);
    assert_eq!(session.into_result(), Err("no speech".to_string()));
}

#[test]
fn replies_out_of_turn_change_nothing() {
    let session = Session::new(None, &[]).advance(Reply::Flag(true)).advance(Reply::Done);
    assert_eq!(session.stage(), Stage::ReadAuthorization);
    let session = session_at(None, 0, Stage::CheckOnDevice).advance(Reply::Status(3));
    assert_eq!(session.stage(), Stage::CheckOnDevice);
    let session = session_at(None, 0, Stage::Finished).advance(Reply::Flag(false));
    assert_eq!(session.into_result(), Ok("hello".to_string()));
}

#[test]
fn a_session_never_takes_more_than_its_stages() {
    let mut session = Session::new(Some("de"), &words(300)).advance(Reply::Status(0));
    let mut replies = 1;
    session = session.advance(Reply::Bundle { path: Some("/A.app".to_string()), executable: None });
    replies += 1;
    while session.stage() != Stage::Finished {
        let reply = if session.stage() == Stage::AwaitOutcome {
            Reply::Waited(Err("late".to_string()))
        } else {
            consent(session.stage())
        };
        session = session.advance(reply);
        replies += 1;
    }
    assert_eq!(replies, 121);
}

#[test]
fn missing_objects_are_named() {
    assert_eq!(unavailable("Apple Speech locale"), "Apple Speech locale unavailable");
    assert_eq!(TASK_HINT_DICTATION, 1);
}

#[test]
fn requests_stay_on_the_device_whatever_the_session() {
    let expected = RequestSettings { partial_results: true, on_device: true, task_hint: 1 };
    assert_eq!(request_settings(), expected);
    for (language, context) in [(None, 0), (Some("en_US"), 0), (Some("auto"), 3), (Some("de"), 101)] {
        let mut session = Session::new(language, &words(context));
        let mut configured = Vec::new();
        while session.stage() != Stage::StartTask {
            if let Stage::ConfigureRequest(settings) = session.stage() {
                configured.push(settings);
            }
            let reply = consent(session.stage());
            session = session.advance(reply);
        }
        assert_eq!(configured, vec![expected]);
    }
}

#[test]
fn contextual_strings_are_attached_only_if_any_says_something() {
    for (strings, expected) in [
        (vec!["".to_string(), " \t".to_string()], false),
        (vec![" ".to_string(), "word".to_string()], true),
        (vec![], false),
    ] {
        let mut session = Session::new(None, &strings);
        let mut attached = false;
        while session.stage() != Stage::StartTask {
            attached = attached || session.stage() == Stage::AttachContextArray;
            let reply = consent(session.stage());
            session = session.advance(reply);
        }
        assert_eq!(attached, expected);
    }
}
