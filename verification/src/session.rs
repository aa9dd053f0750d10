//! The conversation with the speech framework, from permission to transcript.
//!
//! A `Session` says what to do next; the caller does it and reports back. Nothing is done out of
//! turn: each stage is reached only when every one before it was granted.
use vstd::prelude::*;

use crate::authorization;
use crate::authorization::{
    authorization_answer, is_running_from_app_bundle, AUTH_STATUS_AUTHORIZED,
    AUTH_STATUS_NOT_DETERMINED,
};
use crate::context;
use crate::context::sanitize_contextual_strings;
use crate::locale;
use crate::locale::normalize_locale_identifier;
use crate::recognition;
use crate::recognition::{settle, Outcome};
use crate::text::join;

verus! {

/// The hint that tells the recognizer to expect dictation.
pub const TASK_HINT_DICTATION: i64 = 1;

/// How a recognition request is to work.
#[derive(Clone, Copy, PartialEq, Eq, Structural, Debug)]
pub struct RequestSettings {
    /// Transcripts are reported while they are still growing.
    pub partial_results: bool,
    /// The audio does not leave the device.
    pub on_device: bool,
    /// What kind of speech to expect.
    pub task_hint: i64,
}

/// The settings of every request: partial results, on the device, dictation.
pub open spec fn dictation_settings() -> RequestSettings {
    RequestSettings { partial_results: true, on_device: true, task_hint: TASK_HINT_DICTATION }
}

/// The settings of every request.
pub fn request_settings() -> (settings: RequestSettings)
    ensures
        settings == (RequestSettings {
            partial_results: true,
            on_device: true,
            task_hint: TASK_HINT_DICTATION,
        }),
{
    RequestSettings { partial_results: true, on_device: true, task_hint: TASK_HINT_DICTATION }
}

/// What is to be done next.
#[derive(Clone, Copy, PartialEq, Eq, Structural, Debug)]
pub enum Stage {
    /// Read the authorization status. Reply: `Status`.
    ReadAuthorization,
    /// Read the paths of the main bundle. Reply: `Bundle`.
    ReadBundle,
    /// Ask the user for permission. Reply: `Status`, or `Poisoned` if the answer was lost.
    RequestAuthorization,
    /// Make a string of the locale identifier. Reply: `Flag`, whether there is one.
    MakeLocaleIdentifier,
    /// Make a locale of that string. Reply: `Flag`, whether there is one.
    MakeLocale,
    /// Make a recognizer, for the locale if one was made. Reply: `Flag`, whether there is one.
    MakeRecognizer,
    /// Ask the recognizer whether it can work on the device. Reply: `Flag`.
    CheckOnDevice,
    /// Ask the recognizer whether it is available. Reply: `Flag`.
    CheckAvailable,
    /// Make a string of the path of the audio file. Reply: `Flag`, whether there is one.
    MakePath,
    /// Make a file URL of that path. Reply: `Flag`, whether there is one.
    MakeUrl,
    /// Make a recognition request for that URL. Reply: `Flag`, whether there is one.
    MakeRequest,
    /// Give the request these settings. Reply: `Done`.
    ConfigureRequest(RequestSettings),
    /// Ask the request whether it can add punctuation. Reply: `Flag`.
    CheckPunctuation,
    /// Ask for punctuation. Reply: `Done`.
    EnablePunctuation,
    /// Make an array for the contextual strings. Reply: `Flag`, whether there is one.
    MakeContextArray,
    /// Add the contextual string of this index to the array. Reply: `Flag`, whether there was a
    /// string to add.
    AddContextString(usize),
    /// Keep the array. Reply: `Flag`, whether there is one.
    RetainContextArray,
    /// Give the array to the request. Reply: `Done`.
    AttachContextArray,
    /// Start the recognition task. Reply: `Flag`, whether there is one.
    StartTask,
    /// Keep the task. Reply: `Flag`, whether there is one.
    RetainTask,
    /// Wait for the outcome. Reply: `Waited`.
    AwaitOutcome,
    /// Cancel the task. Reply: `Done`.
    CancelTask,
    /// Nothing: the result is there.
    Finished,
}

/// What came of it.
pub enum Reply {
    Status(i64),
    Bundle { path: Option<String>, executable: Option<String> },
    Poisoned,
    Flag(bool),
    Done,
    Waited(Result<Outcome, String>),
}

/// A reply, as text.
pub enum ReplyText {
    Status(i64),
    Bundle { path: Option<Seq<char>>, executable: Option<Seq<char>> },
    Poisoned,
    Flag(bool),
    Done,
    Waited(Result<recognition::OutcomeText, Seq<char>>),
}

impl View for Reply {
    type V = ReplyText;

    open spec fn view(&self) -> ReplyText {
        match *self {
            Reply::Status(status) => ReplyText::Status(status),
            Reply::Bundle { path, executable } => ReplyText::Bundle {
                path: recognition::optional_text(path),
                executable: recognition::optional_text(executable),
            },
            Reply::Poisoned => ReplyText::Poisoned,
            Reply::Flag(b) => ReplyText::Flag(b),
            Reply::Done => ReplyText::Done,
            Reply::Waited(Ok(outcome)) => ReplyText::Waited(
                Ok(recognition::outcome_text(outcome)),
            ),
            Reply::Waited(Err(message)) => ReplyText::Waited(Err(message@)),
        }
    }
}

/// A conversation with the speech framework.
pub struct Session {
    stage: Stage,
    locale: Option<String>,
    context: Vec<String>,
    result: Option<Outcome>,
}

/// A conversation, as text.
pub struct SessionText {
    pub stage: Stage,
    pub locale: Option<Seq<char>>,
    pub context: Seq<Seq<char>>,
    pub result: Option<recognition::OutcomeText>,
}

impl View for Session {
    type V = SessionText;

    closed spec fn view(&self) -> SessionText {
        SessionText {
            stage: self.stage,
            locale: recognition::optional_text(self.locale),
            context: context::texts(self.context@),
            result: recognition::optional_outcome(self.result),
        }
    }
}

/// The message for an object that could not be had.
pub open spec fn unavailable_text(what: Seq<char>) -> Seq<char> {
    what + " unavailable"@
}

/// Why a session ends when a stage is not granted; none for a stage that cannot be refused.
pub open spec fn refusal(stage: Stage) -> Option<Seq<char>> {
    match stage {
        Stage::MakeLocaleIdentifier => Some(unavailable_text("Apple Speech locale identifier"@)),
        Stage::MakeLocale => Some(unavailable_text("Apple Speech locale"@)),
        Stage::MakeRecognizer => Some(unavailable_text("Apple Speech recognizer"@)),
        Stage::CheckOnDevice => Some(
            "Apple Speech on-device recognition is not available for this language."@,
        ),
        Stage::CheckAvailable => Some("Apple Speech recognizer is not available right now."@),
        Stage::MakePath => Some(unavailable_text("Apple Speech file path"@)),
        Stage::MakeUrl => Some("Failed to create Apple Speech file URL."@),
        Stage::MakeRequest => Some(unavailable_text("Apple Speech recognition request"@)),
        Stage::MakeContextArray => Some(
            "Failed to create Apple Speech contextual string array."@,
        ),
        Stage::AddContextString(_) => Some(unavailable_text("Apple Speech contextual string"@)),
        Stage::RetainContextArray => Some(unavailable_text("Apple Speech contextual strings"@)),
        Stage::StartTask => Some("Failed to start Apple Speech recognition task."@),
        Stage::RetainTask => Some(unavailable_text("Apple Speech recognition task"@)),
        _ => None,
    }
}

/// The stage that follows when a stage was granted, or when punctuation cannot be had.
pub open spec fn successor(s: SessionText) -> Stage {
    match s.stage {
        Stage::ReadAuthorization => first_stage(s),
        Stage::ReadBundle => Stage::RequestAuthorization,
        Stage::RequestAuthorization => first_stage(s),
        Stage::MakeLocaleIdentifier => Stage::MakeLocale,
        Stage::MakeLocale => Stage::MakeRecognizer,
        Stage::MakeRecognizer => Stage::CheckOnDevice,
        Stage::CheckOnDevice => Stage::CheckAvailable,
        Stage::CheckAvailable => Stage::MakePath,
        Stage::MakePath => Stage::MakeUrl,
        Stage::MakeUrl => Stage::MakeRequest,
        Stage::MakeRequest => Stage::ConfigureRequest(dictation_settings()),
        Stage::ConfigureRequest(_) => Stage::CheckPunctuation,
        Stage::CheckPunctuation | Stage::EnablePunctuation => if s.context.len() > 0 {
            Stage::MakeContextArray
        } else {
            Stage::StartTask
        },
        Stage::MakeContextArray => Stage::AddContextString(0),
        Stage::AddContextString(i) => if i + 1 < s.context.len() {
            Stage::AddContextString((i + 1) as usize)
        } else {
            Stage::RetainContextArray
        },
        Stage::RetainContextArray => Stage::AttachContextArray,
        Stage::AttachContextArray => Stage::StartTask,
        Stage::StartTask => Stage::RetainTask,
        Stage::RetainTask => Stage::AwaitOutcome,
        Stage::AwaitOutcome | Stage::CancelTask | Stage::Finished => Stage::Finished,
    }
}

/// The stage after permission: the locale comes first, if one is asked for.
pub open spec fn first_stage(s: SessionText) -> Stage {
    if s.locale is Some {
        Stage::MakeLocaleIdentifier
    } else {
        Stage::MakeRecognizer
    }
}

/// `s` at another stage.
pub open spec fn at_stage(s: SessionText, stage: Stage) -> SessionText {
    SessionText { stage, ..s }
}

/// `s` at its end.
pub open spec fn ended(s: SessionText, result: recognition::OutcomeText) -> SessionText {
    SessionText { stage: Stage::Finished, result: Some(result), ..s }
}

/// The session after a reply. A reply that does not belong to the stage changes nothing.
pub open spec fn session_after(s: SessionText, reply: ReplyText) -> SessionText {
    match (s.stage, reply) {
        (Stage::ReadAuthorization, ReplyText::Status(status)) => if status
            == AUTH_STATUS_AUTHORIZED {
            at_stage(s, successor(s))
        } else if status == AUTH_STATUS_NOT_DETERMINED {
            at_stage(s, Stage::ReadBundle)
        } else {
            at_stage(s, Stage::RequestAuthorization)
        },
        (Stage::ReadBundle, ReplyText::Bundle { path, executable }) => {
            if authorization::runs_from_bundle(path, executable) {
                at_stage(s, successor(s))
            } else {
                ended(
                    s,
                    Err(
                        "Apple Speech permission is not granted. macOS only shows the Speech Recognition permission prompt for app bundles, not the bare dev executable."@,
                    ),
                )
            }
        },
        (Stage::RequestAuthorization, ReplyText::Status(status)) => {
            match authorization::answer_text(status) {
                Ok(_) => at_stage(s, successor(s)),
                Err(message) => ended(s, Err(message)),
            }
        },
        (Stage::RequestAuthorization, ReplyText::Poisoned) => ended(
            s,
            Err("Apple Speech authorization mutex poisoned."@),
        ),
        (Stage::CheckPunctuation, ReplyText::Flag(b)) => if b {
            at_stage(s, Stage::EnablePunctuation)
        } else {
            at_stage(s, successor(s))
        },
        (Stage::AwaitOutcome, ReplyText::Waited(Ok(outcome))) => ended(s, outcome),
        (Stage::AwaitOutcome, ReplyText::Waited(Err(message))) => SessionText {
            stage: Stage::CancelTask,
            result: Some(Err(message)),
            ..s
        },
        (
            Stage::ConfigureRequest(_)
            | Stage::EnablePunctuation
            | Stage::AttachContextArray
            | Stage::CancelTask,
            ReplyText::Done,
        ) => at_stage(s, successor(s)),
        (stage, ReplyText::Flag(granted)) => match refusal(stage) {
            Some(message) => if granted {
                at_stage(s, successor(s))
            } else {
                ended(s, Err(message))
            },
            None => s,
        },
        _ => s,
    }
}

/// The message for an object that could not be had.
pub fn unavailable(what: &str) -> (message: String)
    ensures
        message@ == unavailable_text(what@),
{
    join(what, " unavailable")
}

/// Why a session ends when `stage` is not granted.
fn refusal_message(stage: Stage) -> (message: Option<String>)
    ensures
        recognition::optional_text(message) == refusal(stage),
{
    match stage {
        Stage::MakeLocaleIdentifier => Some(unavailable("Apple Speech locale identifier")),
        Stage::MakeLocale => Some(unavailable("Apple Speech locale")),
        Stage::MakeRecognizer => Some(unavailable("Apple Speech recognizer")),
        Stage::CheckOnDevice => Some(
            "Apple Speech on-device recognition is not available for this language.".to_owned(),
        ),
        Stage::CheckAvailable => Some(
            "Apple Speech recognizer is not available right now.".to_owned(),
        ),
        Stage::MakePath => Some(unavailable("Apple Speech file path")),
        Stage::MakeUrl => Some("Failed to create Apple Speech file URL.".to_owned()),
        Stage::MakeRequest => Some(unavailable("Apple Speech recognition request")),
        Stage::MakeContextArray => Some(
            "Failed to create Apple Speech contextual string array.".to_owned(),
        ),
        Stage::AddContextString(_) => Some(unavailable("Apple Speech contextual string")),
        Stage::RetainContextArray => Some(unavailable("Apple Speech contextual strings")),
        Stage::StartTask => Some("Failed to start Apple Speech recognition task.".to_owned()),
        Stage::RetainTask => Some(unavailable("Apple Speech recognition task")),
        _ => None,
    }
}

/// The session before its first reply.
pub open spec fn fresh_session(
    language: Option<Seq<char>>,
    contextual_strings: Seq<Seq<char>>,
) -> SessionText {
    SessionText {
        stage: Stage::ReadAuthorization,
        locale: locale::locale_of(language),
        context: context::sanitized(contextual_strings),
        result: None,
    }
}

impl Session {
    /// A session to transcribe audio in `language`, told to expect `contextual_strings`.
    pub fn new(language: Option<&str>, contextual_strings: &[String]) -> (session: Session)
        ensures
            session@ == fresh_session(
                locale::optional_str(language),
                context::texts(contextual_strings@),
            ),
    {
        Session {
            stage: Stage::ReadAuthorization,
            locale: normalize_locale_identifier(language),
            context: sanitize_contextual_strings(contextual_strings),
            result: None,
        }
    }

    /// What is to be done next.
    pub fn stage(&self) -> (stage: Stage)
        ensures
            stage == self@.stage,
    {
        self.stage
    }

    /// The locale identifier to ask for, if any.
    pub fn locale(&self) -> (locale: Option<&str>)
        ensures
            locale::optional_str(locale) == self@.locale,
    {
        match &self.locale {
            Some(locale) => Some(locale.as_str()),
            None => None,
        }
    }

    /// The contextual strings to hand on.
    pub fn contextual_strings(&self) -> (strings: &Vec<String>)
        ensures
            context::texts(strings@) == self@.context,
    {
        &self.context
    }

    /// The transcript, or the reason why there is none.
    pub fn into_result(self) -> (result: Outcome)
        ensures
            recognition::outcome_text(result) == recognition::settled(self@.result),
    {
        settle(self.result)
    }

    /// The stage that follows when the stage was granted.
    fn next_stage(&self) -> (stage: Stage)
        ensures
            stage == successor(self@),
    {
        assert(self@.context.len() == self.context@.len());
        match self.stage {
            Stage::ReadAuthorization | Stage::RequestAuthorization => if self.locale.is_some() {
                Stage::MakeLocaleIdentifier
            } else {
                Stage::MakeRecognizer
            },
            Stage::ReadBundle => Stage::RequestAuthorization,
            Stage::MakeLocaleIdentifier => Stage::MakeLocale,
            Stage::MakeLocale => Stage::MakeRecognizer,
            Stage::MakeRecognizer => Stage::CheckOnDevice,
            Stage::CheckOnDevice => Stage::CheckAvailable,
            Stage::CheckAvailable => Stage::MakePath,
            Stage::MakePath => Stage::MakeUrl,
            Stage::MakeUrl => Stage::MakeRequest,
            Stage::MakeRequest => Stage::ConfigureRequest(request_settings()),
            Stage::ConfigureRequest(_) => Stage::CheckPunctuation,
            Stage::CheckPunctuation | Stage::EnablePunctuation => if self.context.len() > 0 {
                Stage::MakeContextArray
            } else {
                Stage::StartTask
            },
            Stage::MakeContextArray => Stage::AddContextString(0),
            Stage::AddContextString(i) => if self.context.len() > 0 && i < self.context.len()
                - 1 {
                Stage::AddContextString(i + 1)
            } else {
                Stage::RetainContextArray
            },
            Stage::RetainContextArray => Stage::AttachContextArray,
            Stage::AttachContextArray => Stage::StartTask,
            Stage::StartTask => Stage::RetainTask,
            Stage::RetainTask => Stage::AwaitOutcome,
            Stage::AwaitOutcome | Stage::CancelTask | Stage::Finished => Stage::Finished,
        }
    }

    /// The session with the stage granted.
    fn granted(self) -> (session: Session)
        ensures
            session@ == at_stage(self@, successor(self@)),
    {
        let stage: Stage = self.next_stage();
        self.at(stage)
    }

    /// The session at `stage`.
    fn at(self, stage: Stage) -> (session: Session)
        ensures
            session@ == at_stage(self@, stage),
    {
        Session { stage, locale: self.locale, context: self.context, result: self.result }
    }

    /// The session at its end.
    fn end(self, result: Outcome) -> (session: Session)
        ensures
            session@ == ended(self@, recognition::outcome_text(result)),
    {
        Session {
            stage: Stage::Finished,
            locale: self.locale,
            context: self.context,
            result: Some(result),
        }
    }

    /// Takes in the reply to the stage.
    pub fn advance(self, reply: Reply) -> (session: Session)
        ensures
            session@ == session_after(self@, reply@),
    {
        match (self.stage, reply) {
            (Stage::ReadAuthorization, Reply::Status(status)) => {
                if status == AUTH_STATUS_AUTHORIZED {
                    self.granted()
                } else if status == AUTH_STATUS_NOT_DETERMINED {
                    self.at(Stage::ReadBundle)
                } else {
                    self.at(Stage::RequestAuthorization)
                }
            },
            (Stage::ReadBundle, Reply::Bundle { path, executable }) => {
                if is_running_from_app_bundle(&path, &executable) {
                    self.granted()
                } else {
                    self.end(
                        Err(
                            "Apple Speech permission is not granted. macOS only shows the Speech Recognition permission prompt for app bundles, not the bare dev executable.".to_owned(),
                        ),
                    )
                }
            },
            (Stage::RequestAuthorization, Reply::Status(status)) => {
                match authorization_answer(status) {
                    Ok(_) => self.granted(),
                    Err(message) => self.end(Err(message)),
                }
            },
            (Stage::RequestAuthorization, Reply::Poisoned) => self.end(
                Err("Apple Speech authorization mutex poisoned.".to_owned()),
            ),
            (Stage::CheckPunctuation, Reply::Flag(b)) => {
                if b {
                    self.at(Stage::EnablePunctuation)
                } else {
                    self.granted()
                }
            },
            (Stage::AwaitOutcome, Reply::Waited(Ok(outcome))) => self.end(outcome),
            (Stage::AwaitOutcome, Reply::Waited(Err(message))) => Session {
                stage: Stage::CancelTask,
                locale: self.locale,
                context: self.context,
                result: Some(Err(message)),
            },
            (
                Stage::ConfigureRequest(_)
                | Stage::EnablePunctuation
                | Stage::AttachContextArray
                | Stage::CancelTask,
                Reply::Done,
            ) => self.granted(),
            (stage, Reply::Flag(granted)) => match refusal_message(stage) {
                Some(message) => if granted {
                    self.granted()
                } else {
                    self.end(Err(message))
                },
                None => self,
            },
            _ => self,
        }
    }
}

/// A message for an object that could not be had ends the same way whatever the object, and says
/// before that all that names the object.
pub proof fn law_unavailable_names_the_whole_object(start: Seq<char>, rest: Seq<char>)
    ensures
        unavailable_text(start + rest) == start + unavailable_text(rest),
        unavailable_text(Seq::empty()) == " unavailable"@,
{
}

/// A reply is taken as it was given, with nothing left out.
pub proof fn law_replies_are_taken_as_given(reply: Reply)
    ensures
        match reply {
            Reply::Status(status) => reply@ == ReplyText::Status(status),
            Reply::Bundle { path, executable } => {
                &&& reply@ is Bundle
                &&& reply@->path == recognition::optional_text(path)
                &&& reply@->executable == recognition::optional_text(executable)
            },
            Reply::Poisoned => reply@ is Poisoned,
            Reply::Flag(b) => reply@ == ReplyText::Flag(b),
            Reply::Done => reply@ is Done,
            Reply::Waited(Ok(Ok(transcript))) => reply@ == ReplyText::Waited(
                Ok(Ok(transcript@)),
            ),
            Reply::Waited(Ok(Err(message))) => reply@ == ReplyText::Waited(Ok(Err(message@))),
            Reply::Waited(Err(message)) => reply@ == ReplyText::Waited(Err(message@)),
        },
{
}

} // verus!
