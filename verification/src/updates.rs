//! The state of the self-update check, and how a check's outcome sets it.

use vstd::prelude::*;
use vstd::string::*;

verus! {

/// Where the update check and install stand.
#[derive(Clone, Debug)]
pub enum UpdateStatus {
    Idle,
    Checking,
    UpdateAvailable(String),
    UpToDate,
    Downloading,
    RestartRequired,
    Error(String),
}

/// The abstract state of an `UpdateStatus`.
pub enum UpdateState {
    Idle,
    Checking,
    UpdateAvailable(Seq<char>),
    UpToDate,
    Downloading,
    RestartRequired,
    Error(Seq<char>),
}

impl View for UpdateStatus {
    type V = UpdateState;

    open spec fn view(&self) -> UpdateState {
        match self {
            UpdateStatus::Idle => UpdateState::Idle,
            UpdateStatus::Checking => UpdateState::Checking,
            UpdateStatus::UpdateAvailable(v) => UpdateState::UpdateAvailable(v@),
            UpdateStatus::UpToDate => UpdateState::UpToDate,
            UpdateStatus::Downloading => UpdateState::Downloading,
            UpdateStatus::RestartRequired => UpdateState::RestartRequired,
            UpdateStatus::Error(e) => UpdateState::Error(e@),
        }
    }
}

/// What asking one release repository for its latest release gave: the
/// release's version, or the error's message.
pub enum ReleaseCheck {
    Found(String),
    Failed(String),
}

/// What `self_update::version::bump_is_greater` says of two version strings:
/// whether `other` is a greater semantic version than `current`, or `None`
/// when either does not parse.
pub uninterp spec fn version_bump_is_greater(current: Seq<char>, other: Seq<char>) -> Option<bool>;

/// Compares two versions with `self_update::version::bump_is_greater`. The
/// contract names the result and claims nothing of semantic versioning.
#[verifier::external_body]
fn bump_is_greater(current: &str, other: &str) -> (r: Option<bool>)
    ensures
        r == version_bump_is_greater(current@, other@),
{
    self_update::version::bump_is_greater(current, other).ok()
}

/// The state after finding a release: an update when the release is known to
/// be newer, else up to date.
pub open spec fn release_state(is_newer: Option<bool>, version: Seq<char>) -> UpdateState {
    if is_newer == Some(true) {
        UpdateState::UpdateAvailable(version)
    } else {
        UpdateState::UpToDate
    }
}

/// The status after finding a release, given whether it is newer.
pub fn release_status(is_newer: Option<bool>, version: String) -> (r: UpdateStatus)
    ensures
        r@ == release_state(is_newer, version@),
{
    match is_newer {
        Some(true) => UpdateStatus::UpdateAvailable(version),
        _ => UpdateStatus::UpToDate,
    }
}

/// The status after finding a release of the given version.
pub fn status_for_release(current: &str, version: String) -> (r: UpdateStatus)
    ensures
        r@ == release_state(version_bump_is_greater(current@, version@), version@),
{
    let newer = bump_is_greater(current, version.as_str());
    release_status(newer, version)
}

/// The state that an update check ends in: the primary repository's release
/// when it was found; else the legacy repository's release, or its error;
/// else, when the legacy repository could not even be asked, the primary error.
pub open spec fn checked_state(current: Seq<char>, primary: ReleaseCheck, legacy: Option<ReleaseCheck>) -> UpdateState {
    match primary {
        ReleaseCheck::Found(v) => release_state(version_bump_is_greater(current, v@), v@),
        ReleaseCheck::Failed(e) => match legacy {
            Some(ReleaseCheck::Found(v)) => release_state(version_bump_is_greater(current, v@), v@),
            Some(ReleaseCheck::Failed(err)) => UpdateState::Error(err@),
            None => UpdateState::Error(e@),
        },
    }
}

/// The status that an update check ends in, from what the primary and the
/// legacy release repositories gave.
pub fn update_status_from_checks(current: &str, primary: ReleaseCheck, legacy: Option<ReleaseCheck>) -> (r: UpdateStatus)
    ensures
        r@ == checked_state(current@, primary, legacy),
{
    match primary {
        ReleaseCheck::Found(v) => status_for_release(current, v),
        ReleaseCheck::Failed(e) => match legacy {
            Some(ReleaseCheck::Found(v)) => status_for_release(current, v),
            Some(ReleaseCheck::Failed(err)) => UpdateStatus::Error(err),
            None => UpdateStatus::Error(e),
        },
    }
}

/// The status after an install attempt: a restart when it succeeded, else
/// the error.
pub fn status_after_install(result: Result<(), String>) -> (r: UpdateStatus)
    ensures
        r@ == match result {
            Ok(()) => UpdateState::RestartRequired,
            Err(e) => UpdateState::Error(e@),
        },
{
    match result {
        Ok(()) => UpdateStatus::RestartRequired,
        Err(e) => UpdateStatus::Error(e),
    }
}

/// The owner of the release repositories.
pub const REPO_OWNER: &'static str = "KolbyML";

/// The release repository that updates come from.
pub const REPO_NAME: &'static str = "Manatan";

/// The repository that releases came from under the application's former name.
pub const LEGACY_REPO_NAME: &'static str = "Mangatan";

/// The name of the executable in a release.
pub const BIN_NAME: &'static str = "manatan";

/// The release repositories that an install tries, in order.
#[derive(Debug, Clone, Copy, PartialEq, Eq, Structural)]
pub enum UpdateSource {
    Current,
    Legacy,
}

/// The next step of an install.
#[derive(Debug, Clone, Copy, PartialEq, Eq, Structural)]
pub enum UpdateStep {
    /// Build an updater for this repository and install from it.
    Install(UpdateSource),
    /// The install is over: whether it succeeded.
    Finished(bool),
}

/// The step of an install after `last`, the repository last tried and
/// whether its install succeeded (`None` before the first): the current
/// repository first; the legacy one only when that failed; and the install
/// ends as the last attempt did.
pub fn perform_update(last: Option<(UpdateSource, bool)>) -> (r: UpdateStep)
    ensures
        r == match last {
            None => UpdateStep::Install(UpdateSource::Current),
            Some((UpdateSource::Current, true)) => UpdateStep::Finished(true),
            Some((UpdateSource::Current, false)) => UpdateStep::Install(UpdateSource::Legacy),
            Some((UpdateSource::Legacy, ok)) => UpdateStep::Finished(ok),
        },
{
    match last {
        None => UpdateStep::Install(UpdateSource::Current),
        Some((UpdateSource::Current, true)) => UpdateStep::Finished(true),
        Some((UpdateSource::Current, false)) => UpdateStep::Install(UpdateSource::Legacy),
        Some((UpdateSource::Legacy, ok)) => UpdateStep::Finished(ok),
    }
}

/// The repository name of an update source.
pub fn repo_name(source: UpdateSource) -> (r: &'static str)
    ensures
        r@ == match source {
            UpdateSource::Current => REPO_NAME@,
            UpdateSource::Legacy => LEGACY_REPO_NAME@,
        },
{
    match source {
        UpdateSource::Current => REPO_NAME,
        UpdateSource::Legacy => LEGACY_REPO_NAME,
    }
}

/// The part of an update error that the window shows: its first 40
/// characters.
pub fn update_error_excerpt(error: &str) -> (r: String)
    ensures
        r@ == if error@.len() <= 40 {
            error@
        } else {
            error@.take(40)
        },
{
    let n = error.unicode_len();
    if n <= 40 {
        error.to_owned()
    } else {
        error.substring_char(0, 40).to_owned()
    }
}

} // verus!
