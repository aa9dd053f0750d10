//! What holds of every session, whatever the replies.
use vstd::prelude::*;

use crate::authorization;
use crate::context;
use crate::locale;
use crate::recognition;
use crate::session;
use crate::session::Stage;
use crate::text;

verus! {

/// The session after every reply of a sequence.
pub open spec fn session_after_all(
    s: session::SessionText,
    replies: Seq<session::ReplyText>,
) -> session::SessionText
    decreases replies.len(),
{
    if replies.len() == 0 {
        s
    } else {
        session::session_after(session_after_all(s, replies.drop_last()), replies.last())
    }
}

/// Before reply `k` the session was at `stage`.
pub open spec fn was_at(
    s: session::SessionText,
    replies: Seq<session::ReplyText>,
    k: int,
    stage: Stage,
) -> bool {
    0 <= k < replies.len() && session_after_all(s, replies.take(k)).stage == stage
}

/// The place of a stage in the order of stages, with `n` contextual strings.
pub open spec fn rank(stage: Stage, n: nat) -> nat {
    match stage {
        Stage::ReadAuthorization => 0,
        Stage::ReadBundle => 1,
        Stage::RequestAuthorization => 2,
        Stage::MakeLocaleIdentifier => 3,
        Stage::MakeLocale => 4,
        Stage::MakeRecognizer => 5,
        Stage::CheckOnDevice => 6,
        Stage::CheckAvailable => 7,
        Stage::MakePath => 8,
        Stage::MakeUrl => 9,
        Stage::MakeRequest => 10,
        Stage::ConfigureRequest(_) => 11,
        Stage::CheckPunctuation => 12,
        Stage::EnablePunctuation => 13,
        Stage::MakeContextArray => 14,
        Stage::AddContextString(i) => 15 + i as nat,
        Stage::RetainContextArray => 15 + n,
        Stage::AttachContextArray => 16 + n,
        Stage::StartTask => 17 + n,
        Stage::RetainTask => 18 + n,
        Stage::AwaitOutcome => 19 + n,
        Stage::CancelTask => 20 + n,
        Stage::Finished => 21 + n,
    }
}

/// A session is at a stage that its locale and its contextual strings call for, and has a result
/// exactly when it is to be cancelled or has ended. It has no more strings than are handed on.
pub open spec fn is_well_formed(s: session::SessionText) -> bool {
    &&& match s.stage {
        Stage::MakeLocaleIdentifier | Stage::MakeLocale => s.locale is Some,
        Stage::MakeContextArray
        | Stage::RetainContextArray
        | Stage::AttachContextArray => s.context.len() > 0,
        Stage::AddContextString(i) => i < s.context.len(),
        Stage::ConfigureRequest(settings) => settings == session::dictation_settings(),
        _ => true,
    }
    &&& s.context.len() <= context::MAX_CONTEXTUAL_STRINGS
    &&& match s.stage {
        Stage::CancelTask => s.result matches Some(Err(_)),
        Stage::Finished => s.result is Some,
        _ => s.result is None,
    }
}

/// A reply that the stage is waiting for.
pub open spec fn fits(stage: Stage, reply: session::ReplyText) -> bool {
    match stage {
        Stage::ReadAuthorization => reply is Status,
        Stage::ReadBundle => reply is Bundle,
        Stage::RequestAuthorization => reply is Status || reply is Poisoned,
        Stage::CheckPunctuation => reply is Flag,
        Stage::ConfigureRequest(_)
        | Stage::EnablePunctuation
        | Stage::AttachContextArray
        | Stage::CancelTask => reply is Done,
        Stage::AwaitOutcome => reply is Waited,
        Stage::Finished => false,
        _ => reply is Flag,
    }
}

/// A reply that grants the stage: what was to be made or asked is there, or what was to be done is
/// done.
pub open spec fn grants(stage: Stage, reply: session::ReplyText) -> bool {
    fits(stage, reply) && (reply == session::ReplyText::Flag(true) || reply is Done)
}

/// Before reply `k` the session was at `stage`, and the reply granted it.
pub open spec fn was_granted(
    s: session::SessionText,
    replies: Seq<session::ReplyText>,
    k: int,
    stage: Stage,
) -> bool {
    was_at(s, replies, k, stage) && grants(stage, replies[k])
}

/// A stage that every session with this locale and these contextual strings has to be granted
/// before it can go on.
pub open spec fn is_required(s: session::SessionText, stage: Stage) -> bool {
    match stage {
        Stage::MakeLocaleIdentifier | Stage::MakeLocale => s.locale is Some,
        Stage::MakeContextArray
        | Stage::RetainContextArray
        | Stage::AttachContextArray => s.context.len() > 0,
        Stage::AddContextString(i) => i < s.context.len(),
        Stage::ConfigureRequest(settings) => settings == session::dictation_settings(),
        Stage::MakeRecognizer
        | Stage::CheckOnDevice
        | Stage::CheckAvailable
        | Stage::MakePath
        | Stage::MakeUrl
        | Stage::MakeRequest
        | Stage::StartTask
        | Stage::RetainTask => true,
        _ => false,
    }
}

/// The session has gone beyond `stage`: it is still going, or it has brought a transcript.
pub open spec fn is_past(s: session::SessionText, stage: Stage) -> bool {
    ||| s.stage != Stage::Finished && rank(s.stage, s.context.len()) > rank(stage, s.context.len())
    ||| s.result matches Some(Ok(_))
}

/// A new session is well-formed, a reply keeps it so, and neither changes what it is about.
pub proof fn law_sessions_stay_well_formed(
    language: Option<Seq<char>>,
    contextual_strings: Seq<Seq<char>>,
    replies: Seq<session::ReplyText>,
)
    ensures
        ({
            let start = session::fresh_session(language, contextual_strings);
            let end = session_after_all(start, replies);
            is_well_formed(end) && end.locale == start.locale && end.context == start.context
        }),
    decreases replies.len(),
{
    if replies.len() > 0 {
        law_sessions_stay_well_formed(language, contextual_strings, replies.drop_last());
    }
}

/// A reply that the stage waits for moves the session on, to a later stage, and any other leaves
/// it as it is. An ended session never changes.
pub proof fn law_fitting_replies_make_progress(s: session::SessionText, reply: session::ReplyText)
    requires
        is_well_formed(s),
    ensures
        fits(s.stage, reply) ==> rank(s.stage, s.context.len()) < rank(
            session::session_after(s, reply).stage,
            s.context.len(),
        ) <= rank(Stage::Finished, s.context.len()),
        !fits(s.stage, reply) ==> session::session_after(s, reply) == s,
        s.stage == Stage::Finished ==> session::session_after(s, reply) == s,
{
}

/// Every reply of the sequence is one that its stage was waiting for.
pub open spec fn all_fit(s: session::SessionText, replies: Seq<session::ReplyText>) -> bool {
    forall|k: int|
        0 <= k < replies.len() ==> fits(
            session_after_all(s, #[trigger] replies.take(k)).stage,
            replies[k],
        )
}

/// Every session ends: after at most 121 replies that fit there is no further one that does.
pub proof fn law_sessions_end(
    language: Option<Seq<char>>,
    contextual_strings: Seq<Seq<char>>,
    replies: Seq<session::ReplyText>,
)
    requires
        all_fit(session::fresh_session(language, contextual_strings), replies),
    ensures
        ({
            let end = session_after_all(
                session::fresh_session(language, contextual_strings),
                replies,
            );
            replies.len() <= rank(end.stage, end.context.len()) <= 121
        }),
    decreases replies.len(),
{
    let start = session::fresh_session(language, contextual_strings);
    law_sessions_stay_well_formed(language, contextual_strings, replies);
    if replies.len() > 0 {
        lemma_last(start, replies);
        let front = replies.drop_last();
        assert forall|k: int| 0 <= k < front.len() implies fits(
            session_after_all(start, #[trigger] front.take(k)).stage,
            front[k],
        ) by {
            assert(front.take(k) =~= replies.take(k));
        }
        law_sessions_end(language, contextual_strings, front);
        law_sessions_stay_well_formed(language, contextual_strings, front);
        law_fitting_replies_make_progress(session_after_all(start, front), replies.last());
    }
}

/// What the last reply did is seen by looking at the session before it.
proof fn lemma_last(s: session::SessionText, replies: Seq<session::ReplyText>)
    requires
        replies.len() > 0,
    ensures
        session_after_all(s, replies) == session::session_after(
            session_after_all(s, replies.take(replies.len() - 1)),
            replies[replies.len() - 1],
        ),
        replies.drop_last() == replies.take(replies.len() - 1),
{
    assert(replies.drop_last() =~= replies.take(replies.len() - 1));
}

/// What happened before one reply also happened before the next.
proof fn lemma_was_at_grows(
    s: session::SessionText,
    replies: Seq<session::ReplyText>,
    k: int,
    stage: Stage,
)
    requires
        replies.len() > 0,
        was_at(s, replies.drop_last(), k, stage),
    ensures
        was_at(s, replies, k, stage),
        replies[k] == replies.drop_last()[k],
{
    assert(replies.drop_last().take(k) =~= replies.take(k));
}

/// One reply does not carry a session over a required stage, except by granting that stage.
proof fn lemma_no_stage_is_skipped(s: session::SessionText, reply: session::ReplyText, stage: Stage)
    requires
        is_well_formed(s),
        is_required(s, stage),
        !is_past(s, stage),
        is_past(session::session_after(s, reply), stage),
    ensures
        s.stage == stage,
        grants(stage, reply),
{
    if let Stage::AddContextString(i) = stage {
        if let Stage::AddContextString(j) = s.stage {
            assert(j <= i);
        }
    }
}

/// No required stage is skipped: a session that has gone beyond one was at it and was granted it.
/// So nothing is recognized unless the recognizer works on the device and is available, and every
/// contextual string has been added.
pub proof fn law_no_required_stage_is_skipped(
    language: Option<Seq<char>>,
    contextual_strings: Seq<Seq<char>>,
    replies: Seq<session::ReplyText>,
    stage: Stage,
)
    requires
        is_required(session::fresh_session(language, contextual_strings), stage),
        is_past(
            session_after_all(session::fresh_session(language, contextual_strings), replies),
            stage,
        ),
    ensures
        exists|k: int| #[trigger]
            was_granted(session::fresh_session(language, contextual_strings), replies, k, stage),
    decreases replies.len(),
{
    let start = session::fresh_session(language, contextual_strings);
    if replies.len() > 0 {
        lemma_last(start, replies);
        let front = replies.drop_last();
        let before = session_after_all(start, front);
        law_sessions_stay_well_formed(language, contextual_strings, front);
        if is_past(before, stage) {
            law_no_required_stage_is_skipped(language, contextual_strings, front, stage);
            let k = choose|k: int| #[trigger] was_granted(start, front, k, stage);
            lemma_was_at_grows(start, replies, k, stage);
            assert(was_granted(start, replies, k, stage));
        } else {
            lemma_no_stage_is_skipped(before, replies.last(), stage);
            assert(was_granted(start, replies, replies.len() - 1, stage));
        }
    }
}

/// A request with settings that keep it on the device, report partial results and expect
/// dictation.
pub open spec fn is_local_dictation(settings: session::RequestSettings) -> bool {
    settings.on_device && settings.partial_results && settings.task_hint == 1
}

/// Before reply `k` the session was to give the request `settings`, and the reply was that it was
/// done.
pub open spec fn was_configured(
    s: session::SessionText,
    replies: Seq<session::ReplyText>,
    k: int,
    settings: session::RequestSettings,
) -> bool {
    was_at(s, replies, k, Stage::ConfigureRequest(settings)) && replies[k] is Done
}

/// No task is started before its request was told to stay on the device, to report partial
/// results and to expect dictation, whatever the language and the contextual strings, and no
/// request is ever told anything else.
pub proof fn law_started_tasks_stay_on_the_device(
    language: Option<Seq<char>>,
    contextual_strings: Seq<Seq<char>>,
    replies: Seq<session::ReplyText>,
)
    ensures
        ({
            let start = session::fresh_session(language, contextual_strings);
            let end = session_after_all(start, replies);
            &&& end.stage == Stage::StartTask || is_past(end, Stage::StartTask) ==> exists|k: int|
                #[trigger] was_configured(start, replies, k, session::dictation_settings())
            &&& end.stage matches Stage::ConfigureRequest(settings) ==> is_local_dictation(settings)
        }),
{
    let start = session::fresh_session(language, contextual_strings);
    let end = session_after_all(start, replies);
    let stage = Stage::ConfigureRequest(session::dictation_settings());
    law_sessions_stay_well_formed(language, contextual_strings, replies);
    if end.stage == Stage::StartTask || is_past(end, Stage::StartTask) {
        law_no_required_stage_is_skipped(language, contextual_strings, replies, stage);
        let k = choose|k: int| #[trigger] was_granted(start, replies, k, stage);
        assert(was_configured(start, replies, k, session::dictation_settings()));
    }
}

/// The request of a started task was given the contextual strings exactly when any of those
/// offered says something: then the array was attached, and otherwise it never comes to that.
pub proof fn law_contextual_strings_are_attached_iff_any_is_not_blank(
    language: Option<Seq<char>>,
    contextual_strings: Seq<Seq<char>>,
    replies: Seq<session::ReplyText>,
)
    requires
        ({
            let end = session_after_all(
                session::fresh_session(language, contextual_strings),
                replies,
            );
            end.stage == Stage::StartTask || is_past(end, Stage::StartTask)
        }),
    ensures
        (exists|k: int| #[trigger]
            was_granted(
                session::fresh_session(language, contextual_strings),
                replies,
                k,
                Stage::AttachContextArray,
            )) <==> (exists|i: int|
            0 <= i < contextual_strings.len() && !text::is_blank(
                #[trigger] contextual_strings[i],
            )),
{
    let start = session::fresh_session(language, contextual_strings);
    context::law_something_is_kept_iff_any_is_not_blank(contextual_strings);
    if start.context.len() > 0 {
        law_no_required_stage_is_skipped(
            language,
            contextual_strings,
            replies,
            Stage::AttachContextArray,
        );
    } else {
        assert forall|k: int| !#[trigger] was_granted(
            start,
            replies,
            k,
            Stage::AttachContextArray,
        ) by {
            if 0 <= k < replies.len() {
                law_sessions_stay_well_formed(language, contextual_strings, replies.take(k));
            }
        }
    }
}

/// Permission was given: the status said so at once, or the user did when asked.
pub open spec fn permission_given(
    s: session::SessionText,
    replies: Seq<session::ReplyText>,
    k: int,
) -> bool {
    (was_at(s, replies, k, Stage::ReadAuthorization) || was_at(
        s,
        replies,
        k,
        Stage::RequestAuthorization,
    )) && replies[k] == session::ReplyText::Status(authorization::AUTH_STATUS_AUTHORIZED)
}

/// Nothing is asked of the recognizer without permission: a session that has gone beyond asking
/// for permission was given it.
pub proof fn law_permission_comes_first(
    language: Option<Seq<char>>,
    contextual_strings: Seq<Seq<char>>,
    replies: Seq<session::ReplyText>,
)
    requires
        is_past(
            session_after_all(session::fresh_session(language, contextual_strings), replies),
            Stage::RequestAuthorization,
        ),
    ensures
        exists|k: int| #[trigger]
            permission_given(
                session::fresh_session(language, contextual_strings),
                replies,
                k,
            ),
    decreases replies.len(),
{
    let start = session::fresh_session(language, contextual_strings);
    if replies.len() > 0 {
        lemma_last(start, replies);
        let front = replies.drop_last();
        let before = session_after_all(start, front);
        law_sessions_stay_well_formed(language, contextual_strings, front);
        if is_past(before, Stage::RequestAuthorization) {
            law_permission_comes_first(language, contextual_strings, front);
            let k = choose|k: int| #[trigger] permission_given(start, front, k);
            if was_at(start, front, k, Stage::ReadAuthorization) {
                lemma_was_at_grows(start, replies, k, Stage::ReadAuthorization);
            } else {
                lemma_was_at_grows(start, replies, k, Stage::RequestAuthorization);
            }
            assert(permission_given(start, replies, k));
        } else {
            assert(permission_given(start, replies, replies.len() - 1));
        }
    }
}

/// The user may be asked: the status was neither open nor granted, or it was open and the program
/// runs from an application bundle.
pub open spec fn may_ask(
    s: session::SessionText,
    replies: Seq<session::ReplyText>,
    k: int,
) -> bool {
    ||| {
        &&& was_at(s, replies, k, Stage::ReadAuthorization)
        &&& replies[k] matches session::ReplyText::Status(status)
        &&& status != authorization::AUTH_STATUS_AUTHORIZED
        &&& status != authorization::AUTH_STATUS_NOT_DETERMINED
    }
    ||| {
        &&& was_at(s, replies, k, Stage::ReadBundle)
        &&& replies[k] matches session::ReplyText::Bundle { path, executable }
        &&& authorization::runs_from_bundle(path, executable)
    }
}

/// A user whose answer is still open is asked only by a program in an application bundle, where
/// the system shows the question.
pub proof fn law_user_is_asked_only_where_the_system_asks(
    language: Option<Seq<char>>,
    contextual_strings: Seq<Seq<char>>,
    replies: Seq<session::ReplyText>,
)
    requires
        session_after_all(
            session::fresh_session(language, contextual_strings),
            replies,
        ).stage == Stage::RequestAuthorization,
    ensures
        exists|k: int| #[trigger]
            may_ask(session::fresh_session(language, contextual_strings), replies, k),
    decreases replies.len(),
{
    let start = session::fresh_session(language, contextual_strings);
    if replies.len() > 0 {
        lemma_last(start, replies);
        let front = replies.drop_last();
        let before = session_after_all(start, front);
        if before.stage == Stage::RequestAuthorization {
            law_user_is_asked_only_where_the_system_asks(language, contextual_strings, front);
            let k = choose|k: int| #[trigger] may_ask(start, front, k);
            if was_at(start, front, k, Stage::ReadAuthorization) {
                lemma_was_at_grows(start, replies, k, Stage::ReadAuthorization);
            } else {
                lemma_was_at_grows(start, replies, k, Stage::ReadBundle);
            }
            assert(may_ask(start, replies, k));
        } else {
            assert(may_ask(start, replies, replies.len() - 1));
        }
    }
}

/// The wait for the outcome ended in `waited`.
pub open spec fn wait_ended(
    s: session::SessionText,
    replies: Seq<session::ReplyText>,
    k: int,
    waited: Result<recognition::OutcomeText, Seq<char>>,
) -> bool {
    was_at(s, replies, k, Stage::AwaitOutcome) && replies[k] == session::ReplyText::Waited(waited)
}

/// A transcript is never made up: a session with one got it from the wait for the outcome.
pub proof fn law_transcripts_come_from_recognition(
    language: Option<Seq<char>>,
    contextual_strings: Seq<Seq<char>>,
    replies: Seq<session::ReplyText>,
    transcript: Seq<char>,
)
    requires
        session_after_all(session::fresh_session(language, contextual_strings), replies).result
            == Some(Ok::<Seq<char>, Seq<char>>(transcript)),
    ensures
        exists|k: int| #[trigger]
            wait_ended(
                session::fresh_session(language, contextual_strings),
                replies,
                k,
                Ok(Ok(transcript)),
            ),
    decreases replies.len(),
{
    let start = session::fresh_session(language, contextual_strings);
    if replies.len() > 0 {
        lemma_last(start, replies);
        let front = replies.drop_last();
        let before = session_after_all(start, front);
        law_sessions_stay_well_formed(language, contextual_strings, front);
        if before.result is Some {
            law_transcripts_come_from_recognition(
                language,
                contextual_strings,
                front,
                transcript,
            );
            let k = choose|k: int| #[trigger] wait_ended(start, front, k, Ok(Ok(transcript)));
            lemma_was_at_grows(start, replies, k, Stage::AwaitOutcome);
            assert(wait_ended(start, replies, k, Ok(Ok(transcript))));
        } else {
            assert(wait_ended(start, replies, replies.len() - 1, Ok(Ok(transcript))));
        }
    }
}

/// A result once there is never changed by later replies.
pub proof fn law_results_stand(s: session::SessionText, replies: Seq<session::ReplyText>)
    requires
        is_well_formed(s),
        s.result is Some,
    ensures
        session_after_all(s, replies).result == s.result,
        is_well_formed(session_after_all(s, replies)),
    decreases replies.len(),
{
    if replies.len() > 0 {
        law_results_stand(s, replies.drop_last());
    }
}

/// The reply `reply` at `stage` is a failure, and `message` says what failed.
pub open spec fn fails_with(
    stage: Stage,
    reply: session::ReplyText,
    message: Seq<char>,
) -> bool {
    match (stage, reply) {
        (Stage::ReadBundle, session::ReplyText::Bundle { path, executable }) => {
            &&& !authorization::runs_from_bundle(path, executable)
            &&& message
                == "Apple Speech permission is not granted. macOS only shows the Speech Recognition permission prompt for app bundles, not the bare dev executable."@
        },
        (Stage::RequestAuthorization, session::ReplyText::Status(status)) => {
            authorization::answer_text(status) == Err::<(), Seq<char>>(message)
        },
        (Stage::RequestAuthorization, session::ReplyText::Poisoned) => message
            == "Apple Speech authorization mutex poisoned."@,
        (Stage::AwaitOutcome, session::ReplyText::Waited(waited)) => waited == Err::<
            recognition::OutcomeText,
            Seq<char>,
        >(message) || waited == Ok::<recognition::OutcomeText, Seq<char>>(Err(message)),
        (stage, session::ReplyText::Flag(granted)) => !granted && session::refusal(stage) == Some(
            message,
        ),
        _ => false,
    }
}

/// Before reply `k` the session was at `stage`, and the reply was the failure `message`.
pub open spec fn has_failed(
    s: session::SessionText,
    replies: Seq<session::ReplyText>,
    k: int,
    stage: Stage,
    message: Seq<char>,
) -> bool {
    was_at(s, replies, k, stage) && fails_with(stage, replies[k], message)
}

/// An error is never made up: a session with one got it at a stage that failed with just that
/// message.
pub proof fn law_errors_come_from_failures(
    language: Option<Seq<char>>,
    contextual_strings: Seq<Seq<char>>,
    replies: Seq<session::ReplyText>,
    message: Seq<char>,
)
    requires
        session_after_all(session::fresh_session(language, contextual_strings), replies).result
            == Some(Err::<Seq<char>, Seq<char>>(message)),
    ensures
        exists|k: int, stage: Stage| #[trigger]
            has_failed(
                session::fresh_session(language, contextual_strings),
                replies,
                k,
                stage,
                message,
            ),
    decreases replies.len(),
{
    let start = session::fresh_session(language, contextual_strings);
    if replies.len() > 0 {
        lemma_last(start, replies);
        let front = replies.drop_last();
        let before = session_after_all(start, front);
        law_sessions_stay_well_formed(language, contextual_strings, front);
        if before.result is Some {
            law_errors_come_from_failures(language, contextual_strings, front, message);
            let (k, stage) = choose|k: int, stage: Stage| #[trigger]
                has_failed(start, front, k, stage, message);
            lemma_was_at_grows(start, replies, k, stage);
            assert(has_failed(start, replies, k, stage, message));
        } else {
            assert(has_failed(start, replies, replies.len() - 1, before.stage, message));
        }
    }
}

/// A failure ends the session with its message, at once or once the task has been cancelled.
pub proof fn law_failures_are_reported(
    s: session::SessionText,
    reply: session::ReplyText,
    message: Seq<char>,
)
    requires
        is_well_formed(s),
        fails_with(s.stage, reply, message),
    ensures
        session::session_after(s, reply).result == Some(Err::<Seq<char>, Seq<char>>(message)),
        session::session_after(s, reply).stage == Stage::Finished || session::session_after(
            s,
            reply,
        ).stage == Stage::CancelTask,
{
}

/// A task is cancelled exactly when the wait for it failed, and the failure is then the result.
pub proof fn law_a_failed_wait_cancels_the_task(
    s: session::SessionText,
    reply: session::ReplyText,
    message: Seq<char>,
)
    requires
        is_well_formed(s),
        s.stage != Stage::CancelTask,
    ensures
        session::session_after(s, reply).stage == Stage::CancelTask && session::session_after(
            s,
            reply,
        ).result == Some(Err::<Seq<char>, Seq<char>>(message)) <==> s.stage
            == Stage::AwaitOutcome && reply == session::ReplyText::Waited(Err(message)),
{
}

/// Once the task has been cancelled the session ends with the result that it had.
pub proof fn law_cancelling_keeps_the_result(s: session::SessionText)
    requires
        is_well_formed(s),
        s.stage == Stage::CancelTask,
    ensures
        session::session_after(s, session::ReplyText::Done) == (session::SessionText {
            stage: Stage::Finished,
            ..s
        }),
{
}

/// A new session has still to read the status, has no result, and asks for just the locale of its
/// language and just the contextual strings that are to be handed on.
pub proof fn law_new_sessions_are_about_what_was_asked(
    language: Option<Seq<char>>,
    contextual_strings: Seq<Seq<char>>,
)
    ensures
        ({
            let start = session::fresh_session(language, contextual_strings);
            &&& start.stage == Stage::ReadAuthorization
            &&& start.result is None
            &&& start.locale == locale::locale_of(language)
            &&& start.context == context::sanitized(contextual_strings)
        }),
{
}

/// A stage that every session with this locale and these contextual strings comes to if nothing
/// is refused, once it has permission.
pub open spec fn is_due(s: session::SessionText, stage: Stage) -> bool {
    is_required(s, stage) || stage == Stage::CheckPunctuation || stage == Stage::AwaitOutcome
}

/// A reply after which a session goes on in order: permission, a stage granted, or the answer that
/// punctuation cannot be had.
pub open spec fn goes_on(stage: Stage, reply: session::ReplyText) -> bool {
    match stage {
        Stage::ReadAuthorization | Stage::RequestAuthorization => reply
            == session::ReplyText::Status(3),
        Stage::CheckPunctuation => reply == session::ReplyText::Flag(false),
        Stage::CancelTask => false,
        _ => grants(stage, reply),
    }
}

/// A session that goes on goes to the nearest stage that is due: one that is due, later than where
/// it was, and with no other due stage in between.
pub proof fn law_sessions_go_on_to_the_nearest_due_stage(
    s: session::SessionText,
    reply: session::ReplyText,
    stage: Stage,
)
    requires
        is_well_formed(s),
        goes_on(s.stage, reply),
    ensures
        ({
            let n = s.context.len();
            let next = session::session_after(s, reply);
            &&& is_due(s, next.stage)
            &&& rank(s.stage, n) < rank(next.stage, n)
            &&& is_due(s, stage) && rank(s.stage, n) < rank(stage, n) ==> rank(next.stage, n)
                <= rank(stage, n)
            &&& next.result is None
            &&& next.locale == s.locale
            &&& next.context == s.context
        }),
{
}

/// Permission that was given is not asked for again; where the status is open the bundle is looked
/// at first, and for every other status, and in a bundle, the user is asked.
pub proof fn law_the_user_is_asked_unless_permission_is_there(
    s: session::SessionText,
    status: i64,
    path: Option<Seq<char>>,
    executable: Option<Seq<char>>,
)
    ensures
        s.stage == Stage::ReadAuthorization ==> {
            let next = session::session_after(s, session::ReplyText::Status(status));
            &&& next.stage == Stage::ReadBundle <==> status == 0
            &&& next.stage == Stage::RequestAuthorization <==> status != 0 && status != 3
            &&& next.result == s.result
        },
        s.stage == Stage::ReadBundle ==> {
            let next = session::session_after(s, session::ReplyText::Bundle { path, executable });
            &&& next.stage == Stage::RequestAuthorization <==> authorization::runs_from_bundle(
                path,
                executable,
            )
        },
{
}

/// Where no object can be had, or the recognizer cannot be used, the session ends with a message
/// that names what was missing, whatever the language and the contextual strings.
pub proof fn law_refusals_name_what_was_missing(s: session::SessionText)
    requires
        is_well_formed(s),
        fits(s.stage, session::ReplyText::Flag(false)),
        s.stage != Stage::CheckPunctuation,
    ensures
        ({
            let end = session::session_after(s, session::ReplyText::Flag(false));
            &&& end.stage == Stage::Finished
            &&& end.result matches Some(Err(message)) && message == match s.stage {
                Stage::MakeLocaleIdentifier => "Apple Speech locale identifier"@
                    + " unavailable"@,
                Stage::MakeLocale => "Apple Speech locale"@ + " unavailable"@,
                Stage::MakeRecognizer => "Apple Speech recognizer"@ + " unavailable"@,
                Stage::CheckOnDevice =>
                    "Apple Speech on-device recognition is not available for this language."@,
                Stage::CheckAvailable => "Apple Speech recognizer is not available right now."@,
                Stage::MakePath => "Apple Speech file path"@ + " unavailable"@,
                Stage::MakeUrl => "Failed to create Apple Speech file URL."@,
                Stage::MakeRequest => "Apple Speech recognition request"@ + " unavailable"@,
                Stage::MakeContextArray =>
                    "Failed to create Apple Speech contextual string array."@,
                Stage::AddContextString(_) => "Apple Speech contextual string"@
                    + " unavailable"@,
                Stage::RetainContextArray => "Apple Speech contextual strings"@
                    + " unavailable"@,
                Stage::StartTask => "Failed to start Apple Speech recognition task."@,
                _ => "Apple Speech recognition task"@ + " unavailable"@,
            }
        }),
{
}

/// What the wait for the outcome brought is the result of the session from then on, whole and
/// whatever follows: the outcome as it is, or the reason why none came.
pub proof fn law_result_is_what_the_wait_brought(
    language: Option<Seq<char>>,
    contextual_strings: Seq<Seq<char>>,
    replies: Seq<session::ReplyText>,
    k: int,
    waited: Result<recognition::OutcomeText, Seq<char>>,
)
    requires
        wait_ended(session::fresh_session(language, contextual_strings), replies, k, waited),
    ensures
        ({
            let result = session_after_all(
                session::fresh_session(language, contextual_strings),
                replies,
            ).result;
            &&& waited matches Ok(outcome) ==> result == Some(outcome)
            &&& waited matches Err(message) ==> result == Some(
                Err::<Seq<char>, Seq<char>>(message),
            )
        }),
    decreases replies.len(),
{
    let start = session::fresh_session(language, contextual_strings);
    let front = replies.drop_last();
    lemma_last(start, replies);
    law_sessions_stay_well_formed(language, contextual_strings, front);
    if k < front.len() {
        assert(front.take(k) =~= replies.take(k));
        assert(wait_ended(start, front, k, waited));
        law_result_is_what_the_wait_brought(language, contextual_strings, front, k, waited);
    }
}

/// Before reply `k` the request was asked whether it can add punctuation, and the reply was `b`.
pub open spec fn punctuation_answered(
    s: session::SessionText,
    replies: Seq<session::ReplyText>,
    k: int,
    b: bool,
) -> bool {
    was_at(s, replies, k, Stage::CheckPunctuation) && replies[k] == session::ReplyText::Flag(b)
}

/// A session that has gone beyond asking about punctuation got an answer; one that is to enable
/// punctuation got the answer that it can be had.
proof fn lemma_punctuation_is_asked_about(
    language: Option<Seq<char>>,
    contextual_strings: Seq<Seq<char>>,
    replies: Seq<session::ReplyText>,
)
    ensures
        ({
            let start = session::fresh_session(language, contextual_strings);
            let end = session_after_all(start, replies);
            &&& is_past(end, Stage::CheckPunctuation) ==> exists|k: int, b: bool| #[trigger]
                punctuation_answered(start, replies, k, b)
            &&& end.stage == Stage::EnablePunctuation ==> exists|k: int| #[trigger]
                punctuation_answered(start, replies, k, true)
        }),
    decreases replies.len(),
{
    let start = session::fresh_session(language, contextual_strings);
    let end = session_after_all(start, replies);
    if replies.len() > 0 {
        lemma_last(start, replies);
        let front = replies.drop_last();
        let before = session_after_all(start, front);
        let last = replies.len() - 1;
        law_sessions_stay_well_formed(language, contextual_strings, front);
        lemma_punctuation_is_asked_about(language, contextual_strings, front);
        if is_past(end, Stage::CheckPunctuation) {
            if is_past(before, Stage::CheckPunctuation) {
                let (k, b) = choose|k: int, b: bool| #[trigger]
                    punctuation_answered(start, front, k, b);
                lemma_was_at_grows(start, replies, k, Stage::CheckPunctuation);
                assert(punctuation_answered(start, replies, k, b));
            } else {
                assert(before.stage == Stage::CheckPunctuation);
                assert(replies[last] is Flag);
                assert(punctuation_answered(start, replies, last, replies[last]->Flag_0));
            }
        }
        if end.stage == Stage::EnablePunctuation {
            if before.stage == Stage::EnablePunctuation {
                let k = choose|k: int| #[trigger] punctuation_answered(start, front, k, true);
                lemma_was_at_grows(start, replies, k, Stage::CheckPunctuation);
                assert(punctuation_answered(start, replies, k, true));
            } else {
                assert(punctuation_answered(start, replies, last, true));
            }
        }
    }
}

/// A session that was told that punctuation can be had is about to enable it, or has done so.
proof fn lemma_punctuation_is_enabled(
    language: Option<Seq<char>>,
    contextual_strings: Seq<Seq<char>>,
    replies: Seq<session::ReplyText>,
    k: int,
)
    requires
        punctuation_answered(
            session::fresh_session(language, contextual_strings),
            replies,
            k,
            true,
        ),
    ensures
        ({
            let start = session::fresh_session(language, contextual_strings);
            ||| session_after_all(start, replies).stage == Stage::EnablePunctuation
            ||| exists|j: int| #[trigger]
                was_granted(start, replies, j, Stage::EnablePunctuation)
        }),
    decreases replies.len(),
{
    let start = session::fresh_session(language, contextual_strings);
    let front = replies.drop_last();
    let before = session_after_all(start, front);
    let last = replies.len() - 1;
    lemma_last(start, replies);
    if k < last {
        assert(front.take(k) =~= replies.take(k));
        assert(punctuation_answered(start, front, k, true));
        lemma_punctuation_is_enabled(language, contextual_strings, front, k);
        if before.stage == Stage::EnablePunctuation {
            if replies[last] is Done {
                assert(was_granted(start, replies, last, Stage::EnablePunctuation));
            }
        } else {
            let j = choose|j: int| #[trigger]
                was_granted(start, front, j, Stage::EnablePunctuation);
            lemma_was_at_grows(start, replies, j, Stage::EnablePunctuation);
            assert(was_granted(start, replies, j, Stage::EnablePunctuation));
        }
    }
}

/// Every request of a started task was asked whether it can add punctuation, and was told to do so
/// exactly when the answer was that it can, whatever the language and the contextual strings.
pub proof fn law_punctuation_is_enabled_iff_it_can_be_had(
    language: Option<Seq<char>>,
    contextual_strings: Seq<Seq<char>>,
    replies: Seq<session::ReplyText>,
)
    requires
        ({
            let end = session_after_all(
                session::fresh_session(language, contextual_strings),
                replies,
            );
            end.stage == Stage::StartTask || is_past(end, Stage::StartTask)
        }),
    ensures
        ({
            let start = session::fresh_session(language, contextual_strings);
            &&& exists|k: int, b: bool| #[trigger] punctuation_answered(start, replies, k, b)
            &&& (exists|k: int| #[trigger]
                was_granted(start, replies, k, Stage::EnablePunctuation)) <==> (exists|k: int|
                #[trigger] punctuation_answered(start, replies, k, true))
        }),
{
    let start = session::fresh_session(language, contextual_strings);
    lemma_punctuation_is_asked_about(language, contextual_strings, replies);
    if exists|k: int| #[trigger] punctuation_answered(start, replies, k, true) {
        let k = choose|k: int| #[trigger] punctuation_answered(start, replies, k, true);
        law_sessions_stay_well_formed(language, contextual_strings, replies);
        lemma_punctuation_is_enabled(language, contextual_strings, replies, k);
    }
    if exists|k: int| #[trigger] was_granted(start, replies, k, Stage::EnablePunctuation) {
        let k = choose|k: int| #[trigger] was_granted(start, replies, k, Stage::EnablePunctuation);
        let front = replies.take(k);
        lemma_punctuation_is_asked_about(language, contextual_strings, front);
        let j = choose|j: int| #[trigger] punctuation_answered(start, front, j, true);
        assert(front.take(j) =~= replies.take(j));
        assert(punctuation_answered(start, replies, j, true));
    }
}

} // verus!
