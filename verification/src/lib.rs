//! Run a command as another operating-system user: harvest that user's login
//! environment by impersonation, optionally bootstrap the user's platform
//! session first, and supervise the child process and its output streams.
use vstd::prelude::*;
use vstd::string::StringExecFns;

pub mod envmap;
pub mod harvest;
pub mod session;
pub mod supervise;

verus! {

/// Identifiers under which a child process runs: a user record resolved by
/// the platform's user directory, held here as plain values.
pub struct UserIdentity {
    pub username: String,
    pub uid: u32,
    pub gid: u32,
    pub home: String,
}

/// The effective user id of the superuser: the privilege every operation
/// of this library demands before it touches the platform.
pub const ROOT_UID: u32 = 0;

/// A privileged caller is one whose effective user id is the superuser's.
pub open spec fn is_privileged(euid: u32) -> bool {
    euid == ROOT_UID
}

/// Decides the privilege precondition from an effective user id.
pub fn privileged(euid: u32) -> (r: bool)
    ensures
        r == is_privileged(euid),
{
    euid == ROOT_UID
}

/// Relies on users::get_effective_uid: the effective user id of the calling
/// process, read from the operating system.
#[verifier::external_body]
pub(crate) fn effective_uid() -> u32 {
    users::get_effective_uid()
}

/// Why a command could not be prepared or started for a user.
#[derive(Debug, PartialEq, Eq)]
pub enum CmdError {
    /// The platform's user directory knows no such user.
    UserNotFound,
    /// The user's login environment could not be harvested.
    FailedGettingEnv(harvest::Error),
    /// The workload process itself could not be started; carries the
    /// operating system's error text.
    SpawnFailed(String),
}

impl CmdError {
    /// A short description of the failure, for diagnostics.
    pub fn message(&self) -> (r: String)
        ensures
            *self == CmdError::UserNotFound ==> r@ == "User not found"@,
            *self matches CmdError::FailedGettingEnv(e) ==> r@
                == "Failed to get user environment: "@ + harvest::error_message(e),
            *self matches CmdError::SpawnFailed(t) ==> r@ == "Failed to start process: "@ + t@,
    {
        match self {
            CmdError::UserNotFound => "User not found".to_owned(),
            CmdError::FailedGettingEnv(e) => {
                let inner = e.message();
                "Failed to get user environment: ".to_owned().concat(inner.as_str())
            },
            CmdError::SpawnFailed(t) => "Failed to start process: ".to_owned().concat(t.as_str()),
        }
    }
}

} // verus!
