//! Permission to recognize speech.
use vstd::prelude::*;

use crate::recognition;
use crate::text;
use crate::text::{contains, ends_with};

verus! {

/// The user has not been asked yet.
pub const AUTH_STATUS_NOT_DETERMINED: i64 = 0;

/// The user has refused.
pub const AUTH_STATUS_DENIED: i64 = 1;

/// The machine does not allow it.
pub const AUTH_STATUS_RESTRICTED: i64 = 2;

/// The user has agreed.
pub const AUTH_STATUS_AUTHORIZED: i64 = 3;

/// What an answer to the request for permission amounts to.
pub open spec fn answer_text(status: i64) -> Result<(), Seq<char>> {
    if status == AUTH_STATUS_AUTHORIZED {
        Ok(())
    } else if status == AUTH_STATUS_DENIED {
        Err("Apple Speech recognition permission was denied."@)
    } else if status == AUTH_STATUS_RESTRICTED {
        Err("Apple Speech recognition is restricted on this Mac."@)
    } else {
        Err("Apple Speech recognition permission was not granted."@)
    }
}

/// The permission that the status `status`, given in answer to a request, grants.
pub fn authorization_answer(status: i64) -> (answer: Result<(), String>)
    ensures
        answer is Ok <==> status == AUTH_STATUS_AUTHORIZED,
        answer matches Err(message) ==> answer_text(status) == Err::<(), Seq<char>>(message@),
{
    if status == AUTH_STATUS_AUTHORIZED {
        Ok(())
    } else if status == AUTH_STATUS_DENIED {
        Err("Apple Speech recognition permission was denied.".to_owned())
    } else if status == AUTH_STATUS_RESTRICTED {
        Err("Apple Speech recognition is restricted on this Mac.".to_owned())
    } else {
        Err("Apple Speech recognition permission was not granted.".to_owned())
    }
}

/// A path of an application bundle, or of something in one.
pub open spec fn is_bundle_path(path: Seq<char>) -> bool {
    text::occurs_at(path, ".app"@, path.len() - ".app"@.len()) || text::occurs_in(path, ".app/"@)
}

/// A path of the executable of an application bundle.
pub open spec fn is_bundle_executable(path: Seq<char>) -> bool {
    text::occurs_in(path, ".app/Contents/MacOS/"@)
}

/// A program whose main bundle has these paths runs from an application bundle.
pub open spec fn runs_from_bundle(
    bundle_path: Option<Seq<char>>,
    executable_path: Option<Seq<char>>,
) -> bool {
    ||| bundle_path matches Some(path) && is_bundle_path(path)
    ||| executable_path matches Some(path) && is_bundle_executable(path)
}

/// Whether a program whose main bundle has these paths runs from an application bundle. A program
/// without a main bundle has neither path.
pub fn is_running_from_app_bundle(
    bundle_path: &Option<String>,
    executable_path: &Option<String>,
) -> (b: bool)
    ensures
        b == runs_from_bundle(
            recognition::optional_text(*bundle_path),
            recognition::optional_text(*executable_path),
        ),
{
    if let Some(path) = bundle_path {
        if ends_with(path.as_str(), ".app") || contains(path.as_str(), ".app/") {
            return true;
        }
    }
    if let Some(path) = executable_path {
        return contains(path.as_str(), ".app/Contents/MacOS/");
    }
    false
}

/// Only the status 3 grants; 1 and 2 have messages of their own, and every other the same one.
pub proof fn law_answers(status: i64)
    ensures
        answer_text(status) is Ok <==> status == 3,
        status == 1 ==> answer_text(status) == Err::<(), Seq<char>>(
            "Apple Speech recognition permission was denied."@,
        ),
        status == 2 ==> answer_text(status) == Err::<(), Seq<char>>(
            "Apple Speech recognition is restricted on this Mac."@,
        ),
        status < 1 || status > 3 ==> answer_text(status) == Err::<(), Seq<char>>(
            "Apple Speech recognition permission was not granted."@,
        ),
{
}

/// A program runs from a bundle exactly when its bundle path is something followed by `.app`,
/// or has `.app/` with anything before and behind, or its executable path has
/// `.app/Contents/MacOS/` with anything before and behind.
pub proof fn law_bundles_are_known_by_their_paths(
    bundle_path: Option<Seq<char>>,
    executable_path: Option<Seq<char>>,
)
    ensures
        runs_from_bundle(bundle_path, executable_path) <==> {
            ||| bundle_path is Some && exists|a: Seq<char>|
                bundle_path->0 == #[trigger] (a + ".app"@)
            ||| bundle_path is Some && exists|a: Seq<char>, b: Seq<char>|
                bundle_path->0 == #[trigger] (a + ".app/"@ + b)
            ||| executable_path is Some && exists|a: Seq<char>, b: Seq<char>|
                executable_path->0 == #[trigger] (a + ".app/Contents/MacOS/"@ + b)
        },
{
    if let Some(path) = bundle_path {
        text::law_a_text_stands_in_another_iff_the_rest_completes_it(path, ".app"@);
        text::law_a_text_stands_in_another_iff_the_rest_completes_it(path, ".app/"@);
    }
    if let Some(path) = executable_path {
        text::law_a_text_stands_in_another_iff_the_rest_completes_it(path, ".app/Contents/MacOS/"@);
    }
}

} // verus!
