use vstd::prelude::*;

use crate::labels::prefixed;

verus! {

/// The GitHub account that publishes releases.
pub const REPO_OWNER: &'static str = "dikmri";

/// The repository that publishes releases.
pub const REPO_NAME: &'static str = "rndWalker";

/// The executable's name inside a release archive.
pub const BIN_NAME: &'static str = "rndWalker";

/// The state of the update check, as reported to the user.
#[derive(Debug, Clone, PartialEq, Eq)]
pub enum UpdateMessage {
    Checking,
    Skipped(String),
    UpToDate(String),
    Updated(String),
    Failed(String),
}

/// The next step after the newest release is known.
#[derive(Debug, Clone, PartialEq, Eq)]
pub enum ReleaseStep {
    /// Nothing to install; the check ends with this message.
    Done(UpdateMessage),
    /// Install the release with this tag.
    Install(String),
}

/// What `self_update::version::bump_is_greater(current, other)` gives: `Ok(b)` when both parse
/// as semantic versions, `b` telling whether `other` is greater than `current`; when either does
/// not parse, `Err` with the text of the parse error.
pub uninterp spec fn bump_is_greater_outcome(current: Seq<char>, other: Seq<char>) -> Result<bool, Seq<char>>;

/// Calls `self_update::version::bump_is_greater`: whether `other` is a greater semantic version
/// than `current`, or the text of its error. The result is a function of the two strings.
#[verifier::external_body]
fn bump_is_greater(current: &str, other: &str) -> (r: Result<bool, String>)
    ensures
        match r {
            Ok(b) => bump_is_greater_outcome(current@, other@) == Ok::<bool, Seq<char>>(b),
            Err(e) => bump_is_greater_outcome(current@, other@) == Err::<bool, Seq<char>>(e@),
        },
{
    match self_update::version::bump_is_greater(current, other) {
        Ok(b) => Ok(b),
        Err(e) => Err(e.to_string()),
    }
}

/// Whether to check for updates: a debug build skips the check, with this message.
pub fn check_for_update(debug_build: bool) -> (r: Option<UpdateMessage>)
    ensures
        debug_build <==> r is Some,
        r matches Some(m) ==> (m matches UpdateMessage::Skipped(text) && text@
            == "debug build: update check skipped"@),
{
    if debug_build {
        Some(UpdateMessage::Skipped(String::from_str("debug build: update check skipped")))
    } else {
        None
    }
}

/// The step after comparing versions: an error ends the check; a release that is not newer
/// leaves the current version; a newer one is installed by its tag ("v" and its version).
pub fn plan_release(current: &str, latest: &str, is_newer: Result<bool, String>) -> (r: Result<
    ReleaseStep,
    String,
>)
    ensures
        match is_newer {
            Err(e) => r == Err::<ReleaseStep, String>(e),
            Ok(false) => r matches Ok(ReleaseStep::Done(UpdateMessage::UpToDate(v))) && v@ == current@,
            Ok(true) => r matches Ok(ReleaseStep::Install(tag)) && tag@ == "v"@ + latest@,
        },
{
    match is_newer {
        Err(e) => Err(e),
        Ok(false) => Ok(ReleaseStep::Done(UpdateMessage::UpToDate(String::from_str(current)))),
        Ok(true) => Ok(ReleaseStep::Install(prefixed("v", latest))),
    }
}

/// Compares the running version with the newest release and says what to do next.
pub fn release_step(current: &str, latest: &str) -> (r: Result<ReleaseStep, String>)
    ensures
        bump_is_greater_outcome(current@, latest@) matches Err(text) ==> (r matches Err(e) && e@ == text),
        bump_is_greater_outcome(current@, latest@) == Ok::<bool, Seq<char>>(false) ==> (r matches Ok(
            ReleaseStep::Done(UpdateMessage::UpToDate(v)),
        ) && v@ == current@),
        bump_is_greater_outcome(current@, latest@) == Ok::<bool, Seq<char>>(true) ==> (r matches Ok(
            ReleaseStep::Install(tag),
        ) && tag@ == "v"@ + latest@),
{
    let is_newer = bump_is_greater(current, latest);
    plan_release(current, latest, is_newer)
}

/// The message after an installation attempt that reported `version`.
pub fn update_status_message(updated: bool, version: &str) -> (r: UpdateMessage)
    ensures
        updated ==> (r matches UpdateMessage::Updated(v) && v@ == version@),
        !updated ==> (r matches UpdateMessage::UpToDate(v) && v@ == version@),
{
    if updated {
        UpdateMessage::Updated(String::from_str(version))
    } else {
        UpdateMessage::UpToDate(String::from_str(version))
    }
}

/// The final message of a check: its own message, or the failure's text.
pub fn finish_update_check(result: Result<UpdateMessage, String>) -> (r: UpdateMessage)
    ensures
        match result {
            Ok(m) => r == m,
            Err(e) => r == UpdateMessage::Failed(e),
        },
{
    match result {
        Ok(message) => message,
        Err(error) => UpdateMessage::Failed(error),
    }
}

/// The notice shown to the user for an update message (none while checking).
pub fn update_notice(message: &UpdateMessage) -> (r: Option<String>)
    ensures
        match *message {
            UpdateMessage::Checking => r is None,
            UpdateMessage::Skipped(reason) => r matches Some(t) && t@ == reason@,
            UpdateMessage::UpToDate(v) => r matches Some(t) && t@ == "最新バージョンです: v"@ + v@,
            UpdateMessage::Updated(v) => r matches Some(t) && t@ == "更新完了: v"@ + v@ + ". 再起動してください"@,
            UpdateMessage::Failed(e) => r matches Some(t) && t@ == "更新チェック失敗: "@ + e@,
        },
{
    match message {
        UpdateMessage::Checking => None,
        UpdateMessage::Skipped(reason) => Some(reason.clone()),
        UpdateMessage::UpToDate(version) => Some(prefixed("最新バージョンです: v", version.as_str())),
        UpdateMessage::Updated(version) => {
            let mut text = prefixed("更新完了: v", version.as_str());
            text.append(". 再起動してください");
            Some(text)
        },
        UpdateMessage::Failed(error) => Some(prefixed("更新チェック失敗: ", error.as_str())),
    }
}

} // verus!
