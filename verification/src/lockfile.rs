//! Exclusive advisory daemon locks.
//!
//! A second daemon that shares either the sandbox data root or the state root
//! must fail to start. Ownership is decided by holding the advisory lock, never
//! by the mere existence of the lock file. The data-root lock is acquired first,
//! then the state-root lock; if the second acquisition fails, the first is
//! released before startup aborts.

use crate::text;
use vstd::prelude::*;

verus! {

/// The logical role a lock plays.
#[derive(Debug, Clone, Copy, PartialEq, Eq, Structural)]
pub enum LockRole {
    /// The data-root lock.
    Registry,
    /// The state-root lock.
    State,
}

/// The text of a role.
pub open spec fn role_text(role: LockRole) -> Seq<char> {
    match role {
        LockRole::Registry => "registry lock (sandbox data root)"@,
        LockRole::State => "daemon lock (state root)"@,
    }
}

impl LockRole {
    /// The operator-facing name.
    pub fn text(&self) -> (r: &'static str)
        ensures
            r@ == role_text(*self),
    {
        match self {
            LockRole::Registry => "registry lock (sandbox data root)",
            LockRole::State => "daemon lock (state root)",
        }
    }
}

/// The failure class of a lock acquisition.
#[derive(Debug, Clone, Copy, PartialEq, Eq, Structural)]
pub enum Failure {
    /// The lock's parent directory does not exist.
    MissingParentDirectory,
    /// The lock path is a symlink or not a regular file.
    Symlink,
    /// Another process holds the advisory lock.
    HeldByOtherDaemon,
    /// Any other failure; the source carries the detail.
    Io,
}

/// The text of a failure class.
pub open spec fn failure_text(failure: Failure) -> Seq<char> {
    match failure {
        Failure::MissingParentDirectory => "lock parent directory is missing"@,
        Failure::Symlink => "lock path is a symlink or not a regular file"@,
        Failure::HeldByOtherDaemon => "another daemon already holds this lock"@,
        Failure::Io => "cannot open or lock lock file"@,
    }
}

/// Errors from lock acquisition.
#[derive(Debug)]
pub struct Error {
    failure: Failure,
    path: String,
    role: Option<LockRole>,
    source: Option<String>,
}

/// The contents of an [`Error`].
pub struct ErrorView {
    pub failure: Failure,
    pub path: Seq<char>,
    pub role: Option<LockRole>,
    pub source: Option<Seq<char>>,
}

impl View for Error {
    type V = ErrorView;

    closed spec fn view(&self) -> ErrorView {
        ErrorView {
            failure: self.failure,
            path: self.path@,
            role: self.role,
            source: text::optional(self.source),
        }
    }
}

/// The text of an error: the role, the failure, the path, and the detail.
pub open spec fn error_text(error: ErrorView) -> Seq<char> {
    let lead = match error.role {
        Some(role) => role_text(role) + ": "@,
        None => seq![],
    };
    let body = lead + failure_text(error.failure) + ": "@ + error.path;
    match error.source {
        Some(source) => body + ": "@ + source,
        None => body,
    }
}

/// An error without a role.
pub open spec fn failed(path: Seq<char>, failure: Failure, source: Option<Seq<char>>) -> ErrorView {
    ErrorView { failure, path, role: None, source }
}

impl Error {
    fn new(path: &str, failure: Failure, source: Option<String>) -> (r: Error)
        ensures
            r@ == failed(path@, failure, text::optional(source)),
    {
        Error { failure, path: path.to_owned(), role: None, source }
    }

    /// Attach the logical role of the lock to the error.
    pub fn with_role(self, role: LockRole) -> (r: Error)
        ensures
            r@ == (ErrorView { role: Some(role), ..self@ }),
    {
        Error { failure: self.failure, path: self.path, role: Some(role), source: self.source }
    }

    /// The failure class.
    pub fn failure(&self) -> (r: Failure)
        ensures
            r == self@.failure,
    {
        self.failure
    }

    /// The logical role attached at acquisition, if any.
    pub fn role(&self) -> (r: Option<LockRole>)
        ensures
            r == self@.role,
    {
        self.role
    }

    /// The operator-facing description.
    pub fn message(&self) -> (r: String)
        ensures
            r@ == error_text(self@),
    {
        let mut out = match self.role {
            Some(role) => text::cat2(role.text(), ": "),
            None => String::new(),
        };
        let failure = match self.failure {
            Failure::MissingParentDirectory => "lock parent directory is missing",
            Failure::Symlink => "lock path is a symlink or not a regular file",
            Failure::HeldByOtherDaemon => "another daemon already holds this lock",
            Failure::Io => "cannot open or lock lock file",
        };
        proof {
            assert(out@ =~= (match self@.role {
                Some(role) => role_text(role) + ": "@,
                None => seq![],
            }));
        }
        out.append(failure);
        out.append(": ");
        out.append(self.path.as_str());
        if let Some(source) = &self.source {
            out.append(": ");
            out.append(source.as_str());
        }
        out
    }
}

/// What a stat of an opened lock file reported.
#[derive(Debug, Clone, Copy, PartialEq, Eq)]
pub struct LockStat {
    pub is_file: bool,
    pub uid: u32,
    pub mode: u32,
}

/// How opening a lock file went, links not followed.
#[derive(Debug)]
pub enum LockOpen<H> {
    Opened { file: H, stat: Result<LockStat, String> },
    Failed { not_found: bool, is_symlink: bool, source: String },
}

/// How locking an opened file went.
#[derive(Debug)]
pub enum LockAttempt {
    Held,
    WouldBlock,
    Failed { source: String },
}

/// Why an opened lock file is refused, if it is: it has to be a regular file,
/// owned by the daemon user, not group or world writable.
pub open spec fn stat_error(
    path: Seq<char>,
    stat: Result<LockStat, String>,
    euid: u32,
) -> Option<ErrorView> {
    match stat {
        Err(source) => Some(failed(path, Failure::Io, Some(source@))),
        Ok(stat) => if !stat.is_file {
            Some(failed(path, Failure::Symlink, None))
        } else if stat.uid != euid || stat.mode & 0o022 != 0 {
            Some(failed(path, Failure::Io, None))
        } else {
            None
        },
    }
}

/// Why a lock file could not be opened.
pub open spec fn open_error(
    path: Seq<char>,
    not_found: bool,
    is_symlink: bool,
    source: Seq<char>,
) -> ErrorView {
    let failure = if not_found {
        Failure::MissingParentDirectory
    } else if is_symlink {
        Failure::Symlink
    } else {
        Failure::Io
    };
    failed(path, failure, Some(source))
}

/// Why a lock attempt failed, if it did.
pub open spec fn attempt_error(path: Seq<char>, attempt: LockAttempt) -> Option<ErrorView> {
    match attempt {
        LockAttempt::Held => None,
        LockAttempt::WouldBlock => Some(failed(path, Failure::HeldByOtherDaemon, None)),
        LockAttempt::Failed { source } => Some(failed(path, Failure::Io, Some(source@))),
    }
}

fn validate_lock_file(path: &str, stat: Result<LockStat, String>, euid: u32) -> (r: Result<
    (),
    Error,
>)
    ensures
        match stat_error(path@, stat, euid) {
            None => r is Ok,
            Some(expected) => r matches Err(error) && error@ == expected,
        },
{
    match stat {
        Err(source) => Err(Error::new(path, Failure::Io, Some(source))),
        Ok(stat) => {
            if !stat.is_file {
                return Err(Error::new(path, Failure::Symlink, None));
            }
            if stat.uid != euid {
                return Err(Error::new(path, Failure::Io, None));
            }
            if stat.mode & 0o022 != 0 {
                return Err(Error::new(path, Failure::Io, None));
            }
            Ok(())
        },
    }
}

/// A single held lock file; dropping the file releases the lock.
#[derive(Debug)]
pub struct LockFile<H> {
    pub path: String,
    pub file: H,
}

impl<H> LockFile<H> {
    /// Acquire one lock. `lock` takes the advisory lock without waiting; it is
    /// only asked for a file that passed every check.
    pub fn acquire<F: FnOnce(&H) -> LockAttempt>(
        path: &str,
        open: LockOpen<H>,
        euid: u32,
        lock: F,
    ) -> (r: Result<LockFile<H>, Error>)
        requires
            open matches LockOpen::Opened { file, stat } ==> (stat_error(path@, stat, euid) is None
                ==> lock.requires((&file,))),
        ensures
            match open {
                LockOpen::Failed { not_found, is_symlink, source } => r matches Err(error) && error@
                    == open_error(path@, not_found, is_symlink, source@),
                LockOpen::Opened { file, stat } => match stat_error(path@, stat, euid) {
                    Some(expected) => r matches Err(error) && error@ == expected,
                    None => exists|attempt: LockAttempt|
                        #[trigger] lock.ensures((&file,), attempt) && (match attempt_error(
                            path@,
                            attempt,
                        ) {
                            Some(expected) => r matches Err(error) && error@ == expected,
                            None => r matches Ok(held) && held.path@ == path@ && held.file == file,
                        }),
                },
            },
    {
        match open {
            LockOpen::Failed { not_found, is_symlink, source } => {
                let failure = if not_found {
                    Failure::MissingParentDirectory
                } else if is_symlink {
                    Failure::Symlink
                } else {
                    Failure::Io
                };
                Err(Error::new(path, failure, Some(source)))
            },
            LockOpen::Opened { file, stat } => {
                match validate_lock_file(path, stat, euid) {
                    Ok(_) => {},
                    Err(error) => {
                        return Err(error);
                    },
                }
                let attempt = lock(&file);
                assert(lock.ensures((&file,), attempt));
                match attempt {
                    LockAttempt::Held => Ok(LockFile { path: path.to_owned(), file }),
                    LockAttempt::WouldBlock => Err(
                        Error::new(path, Failure::HeldByOtherDaemon, None),
                    ),
                    LockAttempt::Failed { source } => Err(
                        Error::new(path, Failure::Io, Some(source)),
                    ),
                }
            },
        }
    }
}

/// Held advisory locks; dropping this value releases both.
#[derive(Debug)]
pub struct Locks<H> {
    pub registry: LockFile<H>,
    pub state: LockFile<H>,
}

/// An acquisition was made, with this outcome.
pub open spec fn acquired<H, F: FnOnce() -> Result<LockFile<H>, Error>>(
    acquire: F,
    outcome: Result<LockFile<H>, Error>,
) -> bool {
    acquire.ensures((), outcome)
}

/// The second acquisition runs only after the first succeeded, every error
/// carries the role of the lock it is about, and locks are held only together.
pub open spec fn acquired_both<
    H,
    R: FnOnce() -> Result<LockFile<H>, Error>,
    S: FnOnce() -> Result<LockFile<H>, Error>,
>(r: Result<Locks<H>, Error>, registry: R, state: S) -> bool {
    exists|first: Result<LockFile<H>, Error>|
        #[trigger] acquired(registry, first) && (match first {
            Err(expected) => r matches Err(error) && error@ == (ErrorView {
                role: Some(LockRole::Registry),
                ..expected@
            }),
            Ok(held) => exists|second: Result<LockFile<H>, Error>|
                #[trigger] acquired(state, second) && (match second {
                    Err(expected) => r matches Err(error) && error@ == (ErrorView {
                        role: Some(LockRole::State),
                        ..expected@
                    }),
                    Ok(other) => r matches Ok(locks) && locks.registry == held && locks.state
                        == other,
                }),
        })
}

impl<H> Locks<H> {
    /// Acquire the registry lock and then the daemon state lock. A partial
    /// acquisition is dropped, which releases it, before the caller sees the
    /// failure.
    pub fn acquire<
        R: FnOnce() -> Result<LockFile<H>, Error>,
        S: FnOnce() -> Result<LockFile<H>, Error>,
    >(registry: R, state: S) -> (r: Result<Locks<H>, Error>)
        requires
            registry.requires(()),
            forall|first: Result<LockFile<H>, Error>|
                first is Ok && #[trigger] acquired(registry, first) ==> state.requires(()),
        ensures
            acquired_both(r, registry, state),
    {
        let first = registry();
        assert(acquired(registry, first));
        match first {
            Err(error) => Err(error.with_role(LockRole::Registry)),
            Ok(held) => {
                let second = state();
                assert(acquired(state, second));
                match second {
                    Err(error) => Err(error.with_role(LockRole::State)),
                    Ok(other) => Ok(Locks { registry: held, state: other }),
                }
            },
        }
    }
}

// ---------------------------------------------------------------------------
// Laws

/// A lock file is used exactly when it is a regular file of the daemon user that
/// nobody else can write, and the lock is held exactly when it was granted.
pub proof fn only_safe_lock_files_are_held(
    path: Seq<char>,
    stat: Result<LockStat, String>,
    euid: u32,
    attempt: LockAttempt,
)
    ensures
        stat_error(path, stat, euid) is None <==> (stat matches Ok(stat) && stat.is_file && stat.uid
            == euid && stat.mode & 0o022 == 0),
        stat matches Ok(found) && !found.is_file ==> (stat_error(path, stat, euid) matches Some(
            error,
        ) && error.failure == Failure::Symlink),
        attempt_error(path, attempt) is None <==> attempt is Held,
        attempt is WouldBlock <==> (attempt_error(path, attempt) matches Some(error)
            && error.failure == Failure::HeldByOtherDaemon),
{
}

/// A lock file that cannot be opened is reported by its cause: a missing parent
/// first, then a symlink, and else the failure itself; every report names the
/// path.
pub proof fn open_failures_name_their_cause(
    path: Seq<char>,
    not_found: bool,
    is_symlink: bool,
    source: Seq<char>,
)
    ensures
        ({
            let error = open_error(path, not_found, is_symlink, source);
            &&& error.failure == Failure::MissingParentDirectory <==> not_found
            &&& error.failure == Failure::Symlink <==> !not_found && is_symlink
            &&& error.failure == Failure::Io <==> !not_found && !is_symlink
            &&& error.path == path
            &&& error.source == Some(source)
            &&& error.role is None
        }),
{
}

/// An error starts with the role of the lock, where it is known, and ends with
/// the path and what caused it.
pub proof fn messages_name_the_lock(error: ErrorView)
    ensures
        error.role matches Some(role) ==> role_text(role).is_prefix_of(error_text(error)),
        match error.source {
            Some(source) => (error.path + ": "@ + source).is_suffix_of(error_text(error)),
            None => error.path.is_suffix_of(error_text(error)),
        },
{
    let body = failure_text(error.failure) + ": "@;
    let lead = match error.role {
        Some(role) => role_text(role) + ": "@,
        None => seq![],
    };
    let end = match error.source {
        Some(source) => error.path + ": "@ + source,
        None => error.path,
    };
    text::lemma_ends(lead + body, end);
    assert(error_text(error) =~= lead + body + end);
    if let Some(role) = error.role {
        text::lemma_ends(role_text(role), ": "@ + body + end);
        assert(error_text(error) =~= role_text(role) + (": "@ + body + end));
    }
}

} // verus!
