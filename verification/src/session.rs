//! Session bootstrap: validates a target account and opens a login-equivalent
//! platform session, so that side effects normally performed at first login
//! (such as home-directory creation) occur before anything else runs as the
//! user. The bootstrap is three ordered steps — context initialisation,
//! account validation, session opening — each a possible point of failure
//! that aborts the rest. The platform calls themselves are made by a runner;
//! this module decides, step by step, what to ask of it and what each
//! step's outcome means.
use vstd::prelude::*;

use crate::UserIdentity;
use crate::is_privileged;

verus! {

/// Why a session bootstrap failed.
#[derive(Debug, Clone, PartialEq, Eq)]
pub enum SessionError {
    /// The caller does not hold superuser privilege; nothing was attempted.
    InsufficientPrivilege,
    /// The authentication context could not be initialised; carries the
    /// platform's error text.
    ContextInitFailed(String),
    /// The account is disabled, expired or locked; carries the platform's
    /// error text. The session is never opened after this.
    AccountInvalid(String),
    /// The session itself could not be opened; carries the platform's error
    /// text.
    SessionOpenFailed(String),
}

/// A platform operation the bootstrap asks its runner to perform.
#[derive(Debug, Clone, Copy, PartialEq, Eq)]
pub enum BootstrapStep {
    /// Initialise an authentication context for the user, with
    /// authentication already satisfied externally.
    InitContext,
    /// Validate the account: enabled, not expired, not locked.
    CheckAccount,
    /// Open the session, triggering the platform's provisioning hooks.
    OpenSession,
}

/// An open platform session for one user. The platform-side resource is
/// scope-bound in the runner that opened it and must be released there
/// exactly once; this handle records for whom the session was opened.
pub struct SessionHandle {
    pub username: String,
}

/// Where a bootstrap stands.
#[derive(Clone, Copy)]
enum Phase {
    ContextInit,
    AccountCheck,
    SessionOpen,
    Complete,
    Aborted,
}

/// A session bootstrap in flight: the three ordered steps for one user, each
/// fallible, a failure aborting all that follow.
pub struct SessionBootstrap {
    username: String,
    phase: Phase,
    failure: Option<SessionError>,
}

impl SessionBootstrap {
    /// The user being bootstrapped.
    pub closed spec fn username(&self) -> Seq<char> {
        self.username@
    }

    /// A failure is recorded exactly when the bootstrap has aborted.
    pub closed spec fn wf(&self) -> bool {
        self.failure is Some <==> self.phase is Aborted
    }

    /// The step the runner must perform next, if one remains.
    pub closed spec fn pending(&self) -> Option<BootstrapStep> {
        match self.phase {
            Phase::ContextInit => Some(BootstrapStep::InitContext),
            Phase::AccountCheck => Some(BootstrapStep::CheckAccount),
            Phase::SessionOpen => Some(BootstrapStep::OpenSession),
            Phase::Complete => None,
            Phase::Aborted => None,
        }
    }

    /// Whether every step has succeeded.
    pub closed spec fn done(&self) -> bool {
        self.phase is Complete
    }

    /// The failure that aborted the bootstrap, if one did.
    pub closed spec fn failed(&self) -> Option<SessionError> {
        self.failure
    }

    /// Begins a bootstrap for a caller with the given effective user id. An
    /// unprivileged caller is refused before any platform step is asked for,
    /// so no platform operation can be performed on its behalf.
    pub fn begin(identity: &UserIdentity, euid: u32) -> (r: Result<SessionBootstrap, SessionError>)
        ensures
            !is_privileged(euid) ==> r == Err::<SessionBootstrap, SessionError>(
                SessionError::InsufficientPrivilege,
            ),
            is_privileged(euid) ==> (r matches Ok(b) && b.wf() && b.username()
                == identity.username@ && b.pending() == Some(BootstrapStep::InitContext)
                && !b.done() && b.failed() is None),
    {
        if !crate::privileged(euid) {
            return Err(SessionError::InsufficientPrivilege);
        }
        Ok(
            (SessionBootstrap {
                username: identity.username.clone(),
                phase: Phase::ContextInit,
                failure: None,
            }),
        )
    }

    /// Begins a bootstrap for the calling process itself: reads the caller's
    /// effective user id from the operating system and decides accordingly.
    /// Whatever the id read, the result is either a bootstrap awaiting its
    /// first step or a privilege refusal.
    pub fn begin_here(identity: &UserIdentity) -> (r: Result<SessionBootstrap, SessionError>)
        ensures
            r matches Err(e) ==> e == SessionError::InsufficientPrivilege,
            r matches Ok(b) ==> (b.wf() && b.username() == identity.username@ && b.pending()
                == Some(BootstrapStep::InitContext) && !b.done() && b.failed() is None),
    {
        let euid = crate::effective_uid();
        SessionBootstrap::begin(identity, euid)
    }

    /// The step the runner must perform next, if one remains.
    pub fn next_step(&self) -> (r: Option<BootstrapStep>)
        ensures
            r == self.pending(),
    {
        match self.phase {
            Phase::ContextInit => Some(BootstrapStep::InitContext),
            Phase::AccountCheck => Some(BootstrapStep::CheckAccount),
            Phase::SessionOpen => Some(BootstrapStep::OpenSession),
            Phase::Complete => None,
            Phase::Aborted => None,
        }
    }

    /// Records the outcome of the pending step. Success moves to the next
    /// step in order, or completes the bootstrap after the session opened; a
    /// failure aborts the bootstrap with the error kind of exactly the step
    /// that failed, carrying the platform's error text.
    pub fn advance(&mut self, outcome: Result<(), String>)
        requires
            old(self).wf(),
            old(self).pending() is Some,
        ensures
            final(self).wf(),
            final(self).username() == old(self).username(),
            outcome is Ok ==> final(self).failed() is None,
            outcome is Ok && old(self).pending() == Some(BootstrapStep::InitContext)
                ==> final(self).pending() == Some(BootstrapStep::CheckAccount)
                && !final(self).done(),
            outcome is Ok && old(self).pending() == Some(BootstrapStep::CheckAccount)
                ==> final(self).pending() == Some(BootstrapStep::OpenSession)
                && !final(self).done(),
            outcome is Ok && old(self).pending() == Some(BootstrapStep::OpenSession)
                ==> final(self).pending() is None && final(self).done(),
            outcome matches Err(text) ==> final(self).pending() is None && !final(self).done()
                && final(self).failed() == Some(
                match old(self).pending() {
                    Some(BootstrapStep::InitContext) => SessionError::ContextInitFailed(text),
                    Some(BootstrapStep::CheckAccount) => SessionError::AccountInvalid(text),
                    Some(BootstrapStep::OpenSession) => SessionError::SessionOpenFailed(text),
                    None => SessionError::InsufficientPrivilege,
                },
            ),
    {
        match outcome {
            Ok(_) => {
                match self.phase {
                    Phase::ContextInit => {
                        self.phase = Phase::AccountCheck;
                    },
                    Phase::AccountCheck => {
                        self.phase = Phase::SessionOpen;
                    },
                    Phase::SessionOpen => {
                        self.phase = Phase::Complete;
                    },
                    Phase::Complete => {
                        proof {
                            assert(false);
                        }
                    },
                    Phase::Aborted => {
                        proof {
                            assert(false);
                        }
                    },
                }
            },
            Err(text) => {
                let e = match self.phase {
                    Phase::ContextInit => SessionError::ContextInitFailed(text),
                    Phase::AccountCheck => SessionError::AccountInvalid(text),
                    Phase::SessionOpen => SessionError::SessionOpenFailed(text),
                    Phase::Complete => vstd::pervasive::unreached(),
                    Phase::Aborted => vstd::pervasive::unreached(),
                };
                self.phase = Phase::Aborted;
                self.failure = Some(e);
            },
        }
    }

    /// Closes the bootstrap once no step remains: the session handle when
    /// every step succeeded, else the failure that aborted it.
    pub fn finish(self) -> (r: Result<SessionHandle, SessionError>)
        requires
            self.wf(),
            self.pending() is None,
        ensures
            self.done() ==> (r matches Ok(h) && h.username@ == self.username()),
            !self.done() ==> (r matches Err(e) && Some(e) == self.failed()),
    {
        match self.phase {
            Phase::Complete => Ok((SessionHandle { username: self.username })),
            _ => {
                match self.failure {
                    Some(e) => Err(e),
                    None => vstd::pervasive::unreached(),
                }
            },
        }
    }
}

} // verus!
