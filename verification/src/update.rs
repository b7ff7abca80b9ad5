//! The update check: whether a published release is newer than the running
//! version.

use vstd::prelude::*;

verus! {

/// A newer release that can be installed.
pub struct UpdateInfo {
    pub version: String,
    pub body: String,
}

/// Whether `other` is a greater semantic version than `current`, as
/// `self_update::version::bump_is_greater` decides it; `None` where either
/// string is not a semantic version.
pub uninterp spec fn version_is_greater(current: Seq<char>, other: Seq<char>) -> Option<bool>;

#[verifier::external_type_specification]
#[verifier::external_body]
pub struct ExUpdateError(self_update::errors::Error);

/// Calls `self_update::version::bump_is_greater`, which parses both strings
/// as semantic versions and compares them. The contract claims that the
/// result is `version_is_greater` of the arguments, an error exactly where
/// that is `None`, and that a version is never greater than itself (the
/// comparison is `semver::Version`'s derived `Ord`).
#[verifier::external_body]
fn bump_is_greater(current: &str, other: &str) -> (r: Result<bool, self_update::errors::Error>)
    ensures
        match r {
            Ok(b) => version_is_greater(current@, other@) == Some(b),
            Err(_) => version_is_greater(current@, other@) is None,
        },
        current@ == other@ ==> !(r matches Ok(true)),
{
    self_update::version::bump_is_greater(current, other)
}

/// Why an update check failed.
#[derive(Debug, Clone, Copy, PartialEq, Eq, Structural)]
pub enum UpdateCheckError {
    /// A version string is not a semantic version.
    InvalidVersion,
}

/// The offer to make once it is known whether the release is newer: its
/// version and release notes (empty when it has none), or nothing.
pub fn update_offer(is_newer: bool, version: String, body: Option<String>) -> (r: Option<UpdateInfo>)
    ensures
        is_newer <==> r is Some,
        r matches Some(info) ==> info.version@ == version@ && info.body@ == match body {
            Some(b) => b@,
            None => Seq::<char>::empty(),
        },
{
    if is_newer {
        let body = match body {
            Some(b) => b,
            None => String::new(),
        };
        Some(UpdateInfo { version, body })
    } else {
        None
    }
}

/// Decides whether the latest release, `latest_version` with notes
/// `latest_body`, is an update for the running version `current`.
pub fn check_release(current: &str, latest_version: String, latest_body: Option<String>) -> (r: Result<
    Option<UpdateInfo>,
    UpdateCheckError,
>)
    ensures
        match version_is_greater(current@, latest_version@) {
            None => r == Err::<Option<UpdateInfo>, UpdateCheckError>(UpdateCheckError::InvalidVersion),
            Some(newer) => r matches Ok(o) && (o is Some <==> newer) && (o matches Some(info) ==> {
                &&& info.version@ == latest_version@
                &&& info.body@ == match latest_body {
                    Some(b) => b@,
                    None => Seq::<char>::empty(),
                }
            }),
        },
        current@ == latest_version@ ==> !(r matches Ok(Some(_))),
{
    match bump_is_greater(current, latest_version.as_str()) {
        Ok(newer) => Ok(update_offer(newer, latest_version, latest_body)),
        Err(_) => Err(UpdateCheckError::InvalidVersion),
    }
}

} // verus!
