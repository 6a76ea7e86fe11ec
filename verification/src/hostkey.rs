//! Ed25519 host key loading and atomic creation.
//!
//! The host key is created once, atomically, owner-only, and is never replaced:
//! an existing key that is corrupt, unsupported, wrongly owned, or loosely
//! permissioned is a startup error, not something the daemon repairs by
//! regenerating.

use crate::paths;
use crate::text;
use vstd::prelude::*;

verus! {

/// Upper bound for an unencrypted OpenSSH Ed25519 private key file.
pub const MAX_KEY_BYTES: usize = 65536;

/// How many temporary names are tried.
pub const MAX_ATTEMPTS: u32 = 8;

/// How many suffixes a temporary name is drawn from.
pub const SUFFIXES: u32 = 1_000_000;

// ---------------------------------------------------------------------------
// Errors

/// Host key errors.
#[derive(Debug)]
pub enum Error {
    /// The key does not exist yet; creation is allowed.
    Missing { path: String },
    /// A key exists but must never be replaced.
    Invalid { path: String, reason: String },
    /// Environmental failure while creating or reading the key.
    Io { path: String, message: String, source: String },
}

/// The contents of an [`Error`].
pub enum ErrorView {
    Missing { path: Seq<char> },
    Invalid { path: Seq<char>, reason: Seq<char> },
    Io { path: Seq<char>, message: Seq<char>, source: Seq<char> },
}

impl View for Error {
    type V = ErrorView;

    open spec fn view(&self) -> ErrorView {
        match self {
            Error::Missing { path } => ErrorView::Missing { path: path@ },
            Error::Invalid { path, reason } => ErrorView::Invalid { path: path@, reason: reason@ },
            Error::Io { path, message, source } => ErrorView::Io {
                path: path@,
                message: message@,
                source: source@,
            },
        }
    }
}

/// The text of an error.
pub open spec fn error_text(error: ErrorView) -> Seq<char> {
    match error {
        ErrorView::Missing { path } => "host key is missing: "@ + path,
        ErrorView::Invalid { path, reason } => "invalid host key at "@ + path + " ("@ + reason
            + "); shbox never replaces an existing host key"@,
        ErrorView::Io { path, message, source } => message + ": "@ + path + ": "@ + source,
    }
}

impl Error {
    fn io(path: &str, message: &str, source: String) -> (r: Error)
        ensures
            r@ == (ErrorView::Io { path: path@, message: message@, source: source@ }),
    {
        Error::Io { path: path.to_owned(), message: message.to_owned(), source }
    }

    fn invalid(path: &str, reason: &str) -> (r: Error)
        ensures
            r@ == (ErrorView::Invalid { path: path@, reason: reason@ }),
    {
        Error::Invalid { path: path.to_owned(), reason: reason.to_owned() }
    }

    /// The operator-facing description.
    pub fn message(&self) -> (r: String)
        ensures
            r@ == error_text(self@),
    {
        match self {
            Error::Missing { path } => text::cat2("host key is missing: ", path.as_str()),
            Error::Invalid { path, reason } => text::cat5(
                "invalid host key at ",
                path.as_str(),
                " (",
                reason.as_str(),
                "); shbox never replaces an existing host key",
            ),
            Error::Io { path, message, source } => text::cat5(
                message.as_str(),
                ": ",
                path.as_str(),
                ": ",
                source.as_str(),
            ),
        }
    }
}

// ---------------------------------------------------------------------------
// Private keys

/// The key that OpenSSH private key text carries, if it is well formed: whether
/// it is an Ed25519 key, and the text of its algorithm.
pub uninterp spec fn openssh_private_key(pem: Seq<char>) -> Option<(bool, Seq<char>)>;

/// `russh::keys::PrivateKey::from_openssh`, with the parsed key reduced to
/// whether its `algorithm()` is Ed25519 and to that algorithm's debug text. The
/// reduction is a function of the text alone.
#[verifier::external_body]
fn parse_private_key(pem: &str) -> (r: Option<(bool, String)>)
    ensures
        match r {
            Some((ed25519, algorithm)) => openssh_private_key(pem@) == Some((ed25519, algorithm@)),
            None => openssh_private_key(pem@) is None,
        },
{
    match russh::keys::PrivateKey::from_openssh(pem) {
        Ok(key) => Some((
            key.algorithm() == russh::keys::Algorithm::Ed25519,
            format!("{:?}", key.algorithm()),
        )),
        Err(_) => None,
    }
}

/// Why no key could be made.
#[derive(Debug)]
pub enum KeyFailure {
    Generate { source: String },
    Encode { source: String },
}

/// `russh::keys::PrivateKey::random` with the thread's random generator, for
/// Ed25519, and the key's `to_openssh` text. Which key comes out is chance; the
/// text of a generated key reads back as an Ed25519 key.
#[verifier::external_body]
fn random_private_key() -> (r: Result<String, KeyFailure>)
    ensures
        r matches Ok(pem) ==> is_ed25519(pem@),
{
    let algorithm = russh::keys::Algorithm::Ed25519;
    let key = match russh::keys::PrivateKey::random(&mut rand::rng(), algorithm) {
        Ok(key) => key,
        Err(error) => return Err(KeyFailure::Generate { source: error.to_string() }),
    };
    match key.to_openssh(russh::keys::ssh_key::LineEnding::LF) {
        Ok(pem) => Ok(pem.to_string()),
        Err(error) => Err(KeyFailure::Encode { source: error.to_string() }),
    }
}

/// `rand::random_range` from zero: any value below the bound. It panics on an
/// empty range.
#[verifier::external_body]
fn random_below(bound: u32) -> (r: u32)
    requires
        bound > 0,
    ensures
        r < bound,
{
    rand::random_range(0..bound)
}

// ---------------------------------------------------------------------------
// Loading

/// What a stat of an opened key file reported.
#[derive(Debug, Clone, Copy, PartialEq, Eq)]
pub struct KeyStat {
    pub is_file: bool,
    pub uid: u32,
    pub mode: u32,
}

/// What reading the key file gave, links not followed.
#[derive(Debug)]
pub enum KeyRead {
    Missing,
    OpenFailed { source: String },
    Opened { stat: Result<KeyStat, String>, content: Result<String, String> },
}

/// The loaded daemon host key.
#[derive(Debug)]
pub struct HostKey {
    pem: String,
}

impl View for HostKey {
    type V = Seq<char>;

    /// The OpenSSH private key text.
    closed spec fn view(&self) -> Seq<char> {
        self.pem@
    }
}

/// An environmental failure.
pub open spec fn io_error(path: Seq<char>, message: Seq<char>, source: Seq<char>) -> ErrorView {
    ErrorView::Io { path, message, source }
}

/// A key that must never be replaced.
pub open spec fn invalid_key(path: Seq<char>, reason: Seq<char>) -> ErrorView {
    ErrorView::Invalid { path, reason }
}

/// Why an opened key file is refused, if it is: it has to be a regular file of
/// the daemon, without permissions for anybody else.
pub open spec fn file_error(
    path: Seq<char>,
    stat: Result<KeyStat, String>,
    euid: u32,
) -> Option<ErrorView> {
    match stat {
        Err(source) => Some(io_error(path, "cannot stat host key"@, source@)),
        Ok(stat) => if !stat.is_file {
            Some(invalid_key(path, "host key is not a regular file"@))
        } else if stat.uid != euid {
            Some(invalid_key(path, "host key is not owned by the daemon user"@))
        } else if stat.mode & 0o077 != 0 {
            Some(invalid_key(path, "host key is readable or writable by group or others"@))
        } else {
            None
        },
    }
}

/// Why key text is refused, if it is.
pub open spec fn text_error(path: Seq<char>, pem: Seq<char>) -> Option<ErrorView> {
    if vstd::utf8::encode_utf8(pem).len() > MAX_KEY_BYTES {
        Some(invalid_key(path, "host key file is too large"@))
    } else {
        match openssh_private_key(pem) {
            None => Some(invalid_key(path, "not a valid OpenSSH private key"@)),
            Some((ed25519, algorithm)) => if !ed25519 {
                Some(
                    invalid_key(
                        path,
                        "host key algorithm is "@ + algorithm + ", Ed25519 is required"@,
                    ),
                )
            } else {
                None
            },
        }
    }
}

/// The key that a read gives.
pub open spec fn load_outcome(path: Seq<char>, read: KeyRead, euid: u32) -> Result<
    Seq<char>,
    ErrorView,
> {
    match read {
        KeyRead::Missing => Err(ErrorView::Missing { path }),
        KeyRead::OpenFailed { source } => Err(io_error(path, "cannot open host key"@, source@)),
        KeyRead::Opened { stat, content } => match file_error(path, stat, euid) {
            Some(error) => Err(error),
            None => match content {
                Err(source) => Err(io_error(path, "cannot read host key"@, source@)),
                Ok(pem) => match text_error(path, pem@) {
                    Some(error) => Err(error),
                    None => Ok(pem@),
                },
            },
        },
    }
}

/// Whether a result is the key of a read.
pub open spec fn is_loaded(
    r: Result<HostKey, Error>,
    path: Seq<char>,
    read: KeyRead,
    euid: u32,
) -> bool {
    match load_outcome(path, read, euid) {
        Ok(expected) => r matches Ok(key) && key@ == expected,
        Err(expected) => r matches Err(error) && error@ == expected,
    }
}

fn validate_file(path: &str, stat: Result<KeyStat, String>, euid: u32) -> (r: Result<(), Error>)
    ensures
        match file_error(path@, stat, euid) {
            None => r is Ok,
            Some(expected) => r matches Err(error) && error@ == expected,
        },
{
    match stat {
        Err(source) => Err(Error::io(path, "cannot stat host key", source)),
        Ok(stat) => {
            if !stat.is_file {
                return Err(Error::invalid(path, "host key is not a regular file"));
            }
            if stat.uid != euid {
                return Err(Error::invalid(path, "host key is not owned by the daemon user"));
            }
            if stat.mode & 0o077 != 0 {
                return Err(
                    Error::invalid(path, "host key is readable or writable by group or others"),
                );
            }
            Ok(())
        },
    }
}

/// Decide on a parsed key: it has to be an Ed25519 key.
pub fn check_algorithm(path: &str, parsed: Option<(bool, String)>) -> (r: Result<(), Error>)
    ensures
        match parsed {
            None => r matches Err(error) && error@ == invalid_key(
                path@,
                "not a valid OpenSSH private key"@,
            ),
            Some((ed25519, algorithm)) => if ed25519 {
                r is Ok
            } else {
                r matches Err(error) && error@ == invalid_key(
                    path@,
                    "host key algorithm is "@ + algorithm@ + ", Ed25519 is required"@,
                )
            },
        },
{
    match parsed {
        None => Err(Error::invalid(path, "not a valid OpenSSH private key")),
        Some((ed25519, algorithm)) => {
            if ed25519 {
                Ok(())
            } else {
                let reason = text::cat3(
                    "host key algorithm is ",
                    algorithm.as_str(),
                    ", Ed25519 is required",
                );
                Err(Error::invalid(path, reason.as_str()))
            }
        },
    }
}

impl HostKey {
    /// The OpenSSH private key text.
    pub fn key(&self) -> (r: &str)
        ensures
            r@ == self@,
    {
        self.pem.as_str()
    }

    /// Load an existing key without creating one.
    pub fn load(path: &str, read: KeyRead, euid: u32) -> (r: Result<HostKey, Error>)
        ensures
            is_loaded(r, path@, read, euid),
    {
        match read {
            KeyRead::Missing => Err(Error::Missing { path: path.to_owned() }),
            KeyRead::OpenFailed { source } => Err(Error::io(path, "cannot open host key", source)),
            KeyRead::Opened { stat, content } => {
                match validate_file(path, stat, euid) {
                    Ok(_) => {},
                    Err(error) => {
                        return Err(error);
                    },
                }
                let pem = match content {
                    Err(source) => {
                        return Err(Error::io(path, "cannot read host key", source));
                    },
                    Ok(pem) => pem,
                };
                let chars = text::chars_of(pem.as_str());
                if text::utf8_longer_than(chars.as_slice(), MAX_KEY_BYTES) {
                    return Err(Error::invalid(path, "host key file is too large"));
                }
                match check_algorithm(path, parse_private_key(pem.as_str())) {
                    Ok(_) => Ok(HostKey { pem }),
                    Err(error) => Err(error),
                }
            },
        }
    }
}

// ---------------------------------------------------------------------------
// Creation

/// The work of publishing a new key, in order.
#[derive(Debug, Clone, Copy, PartialEq, Eq, Structural)]
pub enum KeyPhase {
    /// Create the temporary file, owner-only, new.
    CreateTemp,
    /// Write the key text.
    Write,
    /// Flush the file.
    Flush,
    /// Link the file into place; an existing key is never replaced.
    Link,
    /// Remove the temporary name.
    RemoveTemp,
    /// Flush the directory.
    FlushDirectory,
}

/// Work on the key's directory: which attempt it belongs to, what is done, under
/// which temporary name, with which key text.
#[derive(Debug)]
pub struct KeyWork {
    pub attempt: u32,
    pub phase: KeyPhase,
    pub temp: String,
    pub pem: String,
}

/// How one piece of work went.
#[derive(Debug)]
pub enum KeyOutcome {
    Done,
    Failed { exists: bool, source: String },
}

/// What follows a piece of work.
#[derive(Debug)]
pub enum KeyDecision {
    Continue(KeyPhase),
    /// The name is taken: draw another one.
    Retry,
    /// A key is in place: load it. The temporary name may still have to go.
    Load { remove_temp: bool },
    Fail { error: Error, remove_temp: bool },
}

/// The contents of a [`KeyDecision`].
pub enum DecisionView {
    Continue(KeyPhase),
    Retry,
    Load { remove_temp: bool },
    Fail { error: ErrorView, remove_temp: bool },
}

impl View for KeyDecision {
    type V = DecisionView;

    open spec fn view(&self) -> DecisionView {
        match self {
            KeyDecision::Continue(phase) => DecisionView::Continue(*phase),
            KeyDecision::Retry => DecisionView::Retry,
            KeyDecision::Load { remove_temp } => DecisionView::Load { remove_temp: *remove_temp },
            KeyDecision::Fail { error, remove_temp } => DecisionView::Fail {
                error: error@,
                remove_temp: *remove_temp,
            },
        }
    }
}

/// What follows a piece of work on the `attempt`-th name, counted from 0.
pub open spec fn decision(
    path: Seq<char>,
    phase: KeyPhase,
    attempt: u32,
    outcome: KeyOutcome,
) -> DecisionView {
    match (phase, outcome) {
        (KeyPhase::CreateTemp, KeyOutcome::Done) => DecisionView::Continue(KeyPhase::Write),
        (KeyPhase::CreateTemp, KeyOutcome::Failed { exists, source }) => if !exists {
            DecisionView::Fail {
                error: io_error(path, "cannot create host key file"@, source@),
                remove_temp: false,
            }
        } else if attempt + 1 < MAX_ATTEMPTS {
            DecisionView::Retry
        } else {
            DecisionView::Fail {
                error: io_error(
                    path,
                    "cannot create host key"@,
                    "no free temporary file name"@,
                ),
                remove_temp: false,
            }
        },
        (KeyPhase::Write, KeyOutcome::Done) => DecisionView::Continue(KeyPhase::Flush),
        (KeyPhase::Write, KeyOutcome::Failed { exists, source }) => DecisionView::Fail {
            error: io_error(path, "cannot write host key"@, source@),
            remove_temp: true,
        },
        (KeyPhase::Flush, KeyOutcome::Done) => DecisionView::Continue(KeyPhase::Link),
        (KeyPhase::Flush, KeyOutcome::Failed { exists, source }) => DecisionView::Fail {
            error: io_error(path, "cannot flush host key"@, source@),
            remove_temp: true,
        },
        (KeyPhase::Link, KeyOutcome::Done) => DecisionView::Continue(KeyPhase::RemoveTemp),
        (KeyPhase::Link, KeyOutcome::Failed { exists, source }) => if exists {
            DecisionView::Load { remove_temp: true }
        } else {
            DecisionView::Fail {
                error: io_error(path, "cannot publish host key"@, source@),
                remove_temp: true,
            }
        },
        (KeyPhase::RemoveTemp, _) => DecisionView::Continue(KeyPhase::FlushDirectory),
        (KeyPhase::FlushDirectory, KeyOutcome::Done) => DecisionView::Load { remove_temp: false },
        (KeyPhase::FlushDirectory, KeyOutcome::Failed { exists, source }) => DecisionView::Fail {
            error: io_error(path, "cannot flush host key directory"@, source@),
            remove_temp: false,
        },
    }
}

/// Decide what follows a piece of work on the `attempt`-th name.
pub fn decide(path: &str, phase: KeyPhase, attempt: u32, outcome: KeyOutcome) -> (r: KeyDecision)
    requires
        attempt < MAX_ATTEMPTS,
    ensures
        r@ == decision(path@, phase, attempt, outcome),
{
    match outcome {
        KeyOutcome::Done => match phase {
            KeyPhase::CreateTemp => KeyDecision::Continue(KeyPhase::Write),
            KeyPhase::Write => KeyDecision::Continue(KeyPhase::Flush),
            KeyPhase::Flush => KeyDecision::Continue(KeyPhase::Link),
            KeyPhase::Link => KeyDecision::Continue(KeyPhase::RemoveTemp),
            KeyPhase::RemoveTemp => KeyDecision::Continue(KeyPhase::FlushDirectory),
            KeyPhase::FlushDirectory => KeyDecision::Load { remove_temp: false },
        },
        KeyOutcome::Failed { exists, source } => match phase {
            KeyPhase::CreateTemp => {
                if !exists {
                    KeyDecision::Fail {
                        error: Error::io(path, "cannot create host key file", source),
                        remove_temp: false,
                    }
                } else if attempt + 1 < MAX_ATTEMPTS {
                    KeyDecision::Retry
                } else {
                    KeyDecision::Fail {
                        error: Error::io(
                            path,
                            "cannot create host key",
                            String::from_str("no free temporary file name"),
                        ),
                        remove_temp: false,
                    }
                }
            },
            KeyPhase::Write => KeyDecision::Fail {
                error: Error::io(path, "cannot write host key", source),
                remove_temp: true,
            },
            KeyPhase::Flush => KeyDecision::Fail {
                error: Error::io(path, "cannot flush host key", source),
                remove_temp: true,
            },
            KeyPhase::Link => {
                if exists {
                    KeyDecision::Load { remove_temp: true }
                } else {
                    KeyDecision::Fail {
                        error: Error::io(path, "cannot publish host key", source),
                        remove_temp: true,
                    }
                }
            },
            KeyPhase::RemoveTemp => KeyDecision::Continue(KeyPhase::FlushDirectory),
            KeyPhase::FlushDirectory => KeyDecision::Fail {
                error: Error::io(path, "cannot flush host key directory", source),
                remove_temp: false,
            },
        },
    }
}

/// The directory of a key.
pub open spec fn directory_of(path: Seq<char>) -> Seq<char> {
    match paths::parent_of(path) {
        Some(parent) => parent,
        None => "."@,
    }
}

/// The temporary name of an attempt.
pub open spec fn temp_name(path: Seq<char>, pid: u32, number: u32) -> Seq<char> {
    paths::join_of(
        directory_of(path),
        ".host_key.tmp."@ + text::decimal(pid as nat) + "."@ + text::decimal(number as nat),
    )
}

/// Write the temporary name of an attempt.
pub fn temp_path(path: &str, pid: u32, number: u32) -> (r: String)
    ensures
        r@ == temp_name(path@, pid, number),
{
    let parent = match paths::parent(path) {
        Some(parent) => parent,
        None => String::from_str("."),
    };
    let name = text::cat4(
        ".host_key.tmp.",
        text::decimal_text(pid as u64).as_str(),
        ".",
        text::decimal_text(number as u64).as_str(),
    );
    paths::join(parent.as_str(), name.as_str())
}

/// A piece of work for a key was performed on a temporary name, with this
/// outcome.
pub open spec fn performed<F: Fn(&KeyWork) -> KeyOutcome>(
    perform: F,
    pem: Seq<char>,
    attempt: u32,
    phase: KeyPhase,
    temp: Seq<char>,
    outcome: KeyOutcome,
) -> bool {
    exists|item: &KeyWork|
        item.attempt == attempt && item.phase == phase && item.temp@ == temp && item.pem@ == pem
            && #[trigger] perform.ensures((item,), outcome)
}

/// The number that an attempt draws.
pub open spec fn is_number(attempt: u32, number: u32) -> bool {
    attempt <= number < attempt + SUFFIXES
}

/// The temporary name of an attempt was taken.
pub open spec fn name_taken<F: Fn(&KeyWork) -> KeyOutcome>(
    perform: F,
    path: Seq<char>,
    pid: u32,
    pem: Seq<char>,
    attempt: u32,
) -> bool {
    exists|number: u32, outcome: KeyOutcome|
        is_number(attempt, number) && decision(path, KeyPhase::CreateTemp, attempt, outcome)
            is Retry && #[trigger] performed(
            perform,
            pem,
            attempt,
            KeyPhase::CreateTemp,
            temp_name(path, pid, number),
            outcome,
        )
}

pub open spec fn phase_rank(phase: KeyPhase) -> int {
    match phase {
        KeyPhase::CreateTemp => 0,
        KeyPhase::Write => 1,
        KeyPhase::Flush => 2,
        KeyPhase::Link => 3,
        KeyPhase::RemoveTemp => 4,
        KeyPhase::FlushDirectory => 5,
    }
}

/// A phase of an attempt was performed and lets the next one follow: it was
/// done, or it is the removal of the temporary name, whatever came of it.
pub open spec fn phase_passed<F: Fn(&KeyWork) -> KeyOutcome>(
    perform: F,
    pem: Seq<char>,
    attempt: u32,
    phase: KeyPhase,
    temp: Seq<char>,
) -> bool {
    exists|outcome: KeyOutcome|
        (outcome is Done || phase == KeyPhase::RemoveTemp) && #[trigger] performed(
            perform,
            pem,
            attempt,
            phase,
            temp,
            outcome,
        )
}

/// The run is at this phase of this attempt: the names of all attempts before
/// it were taken, and every phase before this one passed on its own name.
pub open spec fn run_at<F: Fn(&KeyWork) -> KeyOutcome>(
    perform: F,
    path: Seq<char>,
    pid: u32,
    pem: Seq<char>,
    attempt: u32,
    number: u32,
    phase: KeyPhase,
) -> bool {
    &&& attempt < MAX_ATTEMPTS
    &&& is_number(attempt, number)
    &&& forall|earlier: u32|
        earlier < attempt ==> #[trigger] name_taken(perform, path, pid, pem, earlier)
    &&& forall|before: KeyPhase|
        phase_rank(before) < phase_rank(phase) ==> #[trigger] phase_passed(
            perform,
            pem,
            attempt,
            before,
            temp_name(path, pid, number),
        )
}

/// The run ended at this phase of this attempt, with this outcome.
pub open spec fn run_ended<F: Fn(&KeyWork) -> KeyOutcome>(
    perform: F,
    path: Seq<char>,
    pid: u32,
    pem: Seq<char>,
    attempt: u32,
    number: u32,
    phase: KeyPhase,
    outcome: KeyOutcome,
) -> bool {
    &&& run_at(perform, path, pid, pem, attempt, number, phase)
    &&& performed(perform, pem, attempt, phase, temp_name(path, pid, number), outcome)
    &&& match decision(path, phase, attempt, outcome) {
        DecisionView::Load { .. } => true,
        DecisionView::Fail { .. } => true,
        _ => false,
    }
}

/// Whether the temporary name still has to go once the run ended.
pub open spec fn leaves_temp(
    path: Seq<char>,
    phase: KeyPhase,
    attempt: u32,
    outcome: KeyOutcome,
) -> bool {
    match decision(path, phase, attempt, outcome) {
        DecisionView::Load { remove_temp } => remove_temp,
        DecisionView::Fail { remove_temp, .. } => remove_temp,
        _ => false,
    }
}

/// The work is due: it is that of the phase the run is at, or the removal of
/// the temporary name that a run left behind.
pub open spec fn work_due<F: Fn(&KeyWork) -> KeyOutcome>(
    perform: F,
    path: Seq<char>,
    pid: u32,
    pem: Seq<char>,
    work: KeyWork,
) -> bool {
    work.pem@ == pem && {
        ||| exists|number: u32|
            work.temp@ == temp_name(path, pid, number) && #[trigger] run_at(
                perform,
                path,
                pid,
                pem,
                work.attempt,
                number,
                work.phase,
            )
        ||| work.phase == KeyPhase::RemoveTemp && exists|
            number: u32,
            phase: KeyPhase,
            outcome: KeyOutcome,
        |
            work.temp@ == temp_name(path, pid, number) && leaves_temp(
                path,
                phase,
                work.attempt,
                outcome,
            ) && #[trigger] run_ended(
                perform,
                path,
                pid,
                pem,
                work.attempt,
                number,
                phase,
                outcome,
            )
    }
}

/// The run ended at this phase of this attempt, and its temporary name was
/// removed where it was left behind.
pub open spec fn stopped<F: Fn(&KeyWork) -> KeyOutcome>(
    perform: F,
    path: Seq<char>,
    pid: u32,
    pem: Seq<char>,
    attempt: u32,
    number: u32,
    phase: KeyPhase,
    outcome: KeyOutcome,
) -> bool {
    &&& run_ended(perform, path, pid, pem, attempt, number, phase, outcome)
    &&& leaves_temp(path, phase, attempt, outcome) ==> phase_passed(
        perform,
        pem,
        attempt,
        KeyPhase::RemoveTemp,
        temp_name(path, pid, number),
    )
}

/// How publishing a key went: a key is in place, linked by this run or found
/// there by its link, or the error of the phase that failed.
pub open spec fn publishing<F: Fn(&KeyWork) -> KeyOutcome>(
    r: Result<(), Error>,
    path: Seq<char>,
    pid: u32,
    pem: Seq<char>,
    perform: F,
) -> bool {
    exists|attempt: u32, number: u32, phase: KeyPhase, outcome: KeyOutcome|
        #[trigger] stopped(perform, path, pid, pem, attempt, number, phase, outcome) && (
        match decision(path, phase, attempt, outcome) {
            DecisionView::Load { .. } => r is Ok,
            DecisionView::Fail { error: expected, .. } => r matches Err(error) && error@
                == expected,
            _ => false,
        })
}

/// Whether work is the removal of this temporary name.
pub open spec fn is_removal(
    work: KeyWork,
    attempt: u32,
    temp: Seq<char>,
    pem: Seq<char>,
) -> bool {
    work.attempt == attempt && work.phase == KeyPhase::RemoveTemp && work.temp@ == temp && work.pem@
        == pem
}

fn remove_temp_file<F: Fn(&KeyWork) -> KeyOutcome>(
    attempt: u32,
    temp: &String,
    pem: &String,
    perform: &F,
)
    requires
        forall|work: &KeyWork|
            is_removal(*work, attempt, temp@, pem@) ==> #[trigger] perform.requires((work,)),
    ensures
        phase_passed(*perform, pem@, attempt, KeyPhase::RemoveTemp, temp@),
{
    let item = KeyWork {
        attempt,
        phase: KeyPhase::RemoveTemp,
        temp: temp.clone(),
        pem: pem.clone(),
    };
    let outcome = perform(&item);
    proof {
        let asked: &KeyWork = &item;
        assert(perform.ensures((asked,), outcome));
        assert(performed(*perform, pem@, attempt, KeyPhase::RemoveTemp, temp@, outcome));
    }
}

/// Publish a key: write a temporary file, flush it, link it into place, then
/// flush the directory. Nothing is asked for before what comes ahead of it
/// passed.
pub fn publish<F: Fn(&KeyWork) -> KeyOutcome>(path: &str, pid: u32, pem: &String, perform: &F) -> (r:
    Result<(), Error>)
    requires
        forall|work: &KeyWork| #[trigger]
            work_due(*perform, path@, pid, pem@, *work) ==> perform.requires((work,)),
    ensures
        publishing(r, path@, pid, pem@, *perform),
{
    let mut attempt: u32 = 0;
    let mut number: u32 = random_below(SUFFIXES);
    let mut temp = temp_path(path, pid, number);
    let mut phase = KeyPhase::CreateTemp;
    loop
        invariant
            forall|work: &KeyWork| #[trigger]
                work_due(*perform, path@, pid, pem@, *work) ==> perform.requires((work,)),
            temp@ == temp_name(path@, pid, number),
            run_at(*perform, path@, pid, pem@, attempt, number, phase),
        decreases MAX_ATTEMPTS - attempt, 6 - phase_rank(phase),
    {
        let item = KeyWork { attempt, phase, temp: temp.clone(), pem: pem.clone() };
        let ghost asked: &KeyWork = &item;
        assert(asked.pem@ == pem@ && asked.temp@ == temp@);
        assert(run_at(*perform, path@, pid, pem@, asked.attempt, number, asked.phase));
        assert(work_due(*perform, path@, pid, pem@, *asked));
        let outcome = perform(&item);
        let ghost seen = outcome;
        proof {
            assert(perform.ensures((asked,), seen));
            assert(performed(*perform, pem@, attempt, phase, temp@, seen));
        }
        match decide(path, phase, attempt, outcome) {
            KeyDecision::Continue(next) => {
                assert(phase_passed(*perform, pem@, attempt, phase, temp@));
                phase = next;
            },
            KeyDecision::Retry => {
                assert(name_taken(*perform, path@, pid, pem@, attempt));
                attempt = attempt + 1;
                number = attempt + random_below(SUFFIXES);
                temp = temp_path(path, pid, number);
            },
            KeyDecision::Load { remove_temp } => {
                assert(run_ended(*perform, path@, pid, pem@, attempt, number, phase, seen));
                if remove_temp {
                    assert forall|work: &KeyWork|
                        is_removal(*work, attempt, temp@, pem@) implies #[trigger] perform.requires(
                        (work,),
                    ) by {
                        assert(work_due(*perform, path@, pid, pem@, *work));
                    }
                    remove_temp_file(attempt, &temp, pem, perform);
                }
                assert(stopped(*perform, path@, pid, pem@, attempt, number, phase, seen));
                return Ok(());
            },
            KeyDecision::Fail { error, remove_temp } => {
                assert(run_ended(*perform, path@, pid, pem@, attempt, number, phase, seen));
                if remove_temp {
                    assert forall|work: &KeyWork|
                        is_removal(*work, attempt, temp@, pem@) implies #[trigger] perform.requires(
                        (work,),
                    ) by {
                        assert(work_due(*perform, path@, pid, pem@, *work));
                    }
                    remove_temp_file(attempt, &temp, pem, perform);
                }
                assert(stopped(*perform, path@, pid, pem@, attempt, number, phase, seen));
                return Err(error);
            },
        }
    }
}

/// The error of a key that could not be made.
pub open spec fn creation_error(path: Seq<char>, failure: KeyFailure) -> ErrorView {
    match failure {
        KeyFailure::Generate { source } => io_error(
            path,
            "cannot generate Ed25519 host key"@,
            source@,
        ),
        KeyFailure::Encode { source } => io_error(path, "cannot encode host key"@, source@),
    }
}

/// The text of a key that was made, or the error of one that was not.
pub fn made_key_text(path: &str, made: Result<String, KeyFailure>) -> (r: Result<String, Error>)
    ensures
        match made {
            Ok(pem) => r == Ok::<String, Error>(pem),
            Err(failure) => r matches Err(error) && error@ == creation_error(path@, failure),
        },
{
    match made {
        Ok(pem) => Ok(pem),
        Err(KeyFailure::Generate { source }) => Err(
            Error::io(path, "cannot generate Ed25519 host key", source),
        ),
        Err(KeyFailure::Encode { source }) => Err(
            Error::io(path, "cannot encode host key", source),
        ),
    }
}

/// The text of a new key.
pub fn new_key_text(path: &str) -> (r: Result<String, Error>)
    ensures
        match r {
            Ok(pem) => is_ed25519(pem@),
            Err(error) => exists|failure: KeyFailure|
                error@ == #[trigger] creation_error(path@, failure),
        },
{
    let made = random_private_key();
    let ghost outcome = made;
    let r = made_key_text(path, made);
    proof {
        if let Err(failure) = outcome {
            assert(r->Err_0@ == creation_error(path@, failure));
        }
    }
    r
}

/// Which of the reads of a key this is.
#[derive(Debug, Clone, Copy, PartialEq, Eq, Structural)]
pub enum ReadTime {
    /// The read that decides whether a key is created.
    First,
    /// The read after a key was created.
    AfterCreation,
}

/// A read was made, with this outcome.
pub open spec fn read_gave<R: Fn(ReadTime) -> KeyRead>(
    read: R,
    time: ReadTime,
    outcome: KeyRead,
) -> bool {
    read.ensures((time,), outcome)
}

/// Whether a result is the key of the read after its creation.
pub open spec fn is_read<R: Fn(ReadTime) -> KeyRead>(
    r: Result<HostKey, Error>,
    path: Seq<char>,
    euid: u32,
    read: R,
) -> bool {
    exists|outcome: KeyRead| #[trigger]
        read_gave(read, ReadTime::AfterCreation, outcome) && is_loaded(r, path, outcome, euid)
}

/// Whether the first read found no key.
pub open spec fn found_missing<R: Fn(ReadTime) -> KeyRead>(
    path: Seq<char>,
    euid: u32,
    read: R,
    first: KeyRead,
) -> bool {
    read_gave(read, ReadTime::First, first) && load_outcome(path, first, euid) matches Err(
        ErrorView::Missing { .. },
    )
}

/// Key text that carries an Ed25519 key.
pub open spec fn is_ed25519(pem: Seq<char>) -> bool {
    openssh_private_key(pem) matches Some(key) && key.0
}

/// How the creation of a key went: no key could be made, or a new Ed25519 key
/// was published.
pub open spec fn is_created<F: Fn(&KeyWork) -> KeyOutcome>(
    r: Result<(), Error>,
    path: Seq<char>,
    pid: u32,
    perform: F,
) -> bool {
    ||| exists|failure: KeyFailure|
        r matches Err(error) && error@ == #[trigger] creation_error(path, failure)
    ||| exists|pem: Seq<char>|
        is_ed25519(pem) && #[trigger] publishing(r, path, pid, pem, perform)
}

/// The outcome behind a missing key: the error of its creation, or what the
/// read after it gave.
pub open spec fn is_created_and_read<R: Fn(ReadTime) -> KeyRead, F: Fn(&KeyWork) -> KeyOutcome>(
    r: Result<HostKey, Error>,
    path: Seq<char>,
    pid: u32,
    euid: u32,
    read: R,
    perform: F,
) -> bool {
    exists|creation: Result<(), Error>|
        #[trigger] is_created(creation, path, pid, perform) && (match creation {
            Err(expected) => r matches Err(error) && error@ == expected@,
            Ok(_) => is_read(r, path, euid, read),
        })
}

impl HostKey {
    /// Create a new Ed25519 key atomically. An existing key is never replaced:
    /// a creator that comes second leaves the first one's key in place.
    pub fn create<F: Fn(&KeyWork) -> KeyOutcome>(path: &str, pid: u32, perform: &F) -> (r: Result<
        (),
        Error,
    >)
        requires
            forall|pem: Seq<char>, work: &KeyWork|
                is_ed25519(pem) && #[trigger] work_due(*perform, path@, pid, pem, *work)
                    ==> perform.requires((work,)),
        ensures
            is_created(r, path@, pid, *perform),
    {
        let pem = match new_key_text(path) {
            Ok(pem) => pem,
            Err(error) => {
                return Err(error);
            },
        };
        let r = publish(path, pid, &pem, perform);
        assert(publishing(r, path@, pid, pem@, *perform));
        r
    }

    /// Load the host key, creating it atomically when absent. Only a missing
    /// key is created; what is returned is always what a read gave, and a
    /// created key is read again.
    pub fn load_or_create<R: Fn(ReadTime) -> KeyRead, F: Fn(&KeyWork) -> KeyOutcome>(
        path: &str,
        pid: u32,
        euid: u32,
        read: &R,
        perform: &F,
    ) -> (r: Result<HostKey, Error>)
        requires
            read.requires((ReadTime::First,)),
            forall|first: KeyRead, pem: Seq<char>, work: &KeyWork| #[trigger]
                found_missing(path@, euid, *read, first) && is_ed25519(pem) && #[trigger] work_due(
                    *perform,
                    path@,
                    pid,
                    pem,
                    *work,
                ) ==> perform.requires((work,)),
            forall|first: KeyRead, creation: Result<(), Error>| #[trigger]
                found_missing(path@, euid, *read, first) && creation is Ok && #[trigger] is_created(
                    creation,
                    path@,
                    pid,
                    *perform,
                ) ==> read.requires((ReadTime::AfterCreation,)),
        ensures
            exists|first: KeyRead| #[trigger]
                read_gave(*read, ReadTime::First, first) && (match load_outcome(path@, first, euid) {
                    Err(ErrorView::Missing { .. }) => is_created_and_read(
                        r,
                        path@,
                        pid,
                        euid,
                        *read,
                        *perform,
                    ),
                    _ => is_loaded(r, path@, first, euid),
                }),
    {
        let first = read(ReadTime::First);
        let ghost seen = first;
        assert(read_gave(*read, ReadTime::First, seen));
        match HostKey::load(path, first, euid) {
            Ok(key) => Ok(key),
            Err(error) => match error {
                Error::Missing { path: _ } => {
                    assert(found_missing(path@, euid, *read, seen));
                    let creation = HostKey::create(path, pid, perform);
                    let ghost made = creation;
                    assert(is_created(made, path@, pid, *perform));
                    match creation {
                        Err(error) => Err(error),
                        Ok(_) => {
                            let second = read(ReadTime::AfterCreation);
                            let ghost again = second;
                            assert(read_gave(*read, ReadTime::AfterCreation, again));
                            HostKey::load(path, second, euid)
                        },
                    }
                },
                other => Err(other),
            },
        }
    }
}

/// A loaded key is an Ed25519 key, from a private regular file of the daemon.
pub proof fn loaded_keys_are_private_ed25519(path: Seq<char>, read: KeyRead, euid: u32)
    requires
        load_outcome(path, read, euid) is Ok,
    ensures
        is_ed25519(load_outcome(path, read, euid)->Ok_0),
        read matches KeyRead::Opened { stat: Ok(stat), .. } && stat.is_file && stat.uid == euid
            && stat.mode & 0o077 == 0,
{
}

/// Only a missing file lets a key be created: any other read of an existing
/// file is decided as it is, and nothing replaces it.
pub proof fn existing_keys_are_never_replaced(path: Seq<char>, read: KeyRead, euid: u32)
    ensures
        load_outcome(path, read, euid) matches Err(ErrorView::Missing { .. }) ==> read
            == KeyRead::Missing,
{
}

/// No failure after the temporary file was created leaves it behind, and a key
/// is loaded only after it was linked or found linked.
pub proof fn failed_creations_clean_up(
    path: Seq<char>,
    phase: KeyPhase,
    attempt: u32,
    outcome: KeyOutcome,
)
    ensures
        decision(path, phase, attempt, outcome) matches DecisionView::Fail { remove_temp, .. } ==> (
        remove_temp <==> 1 <= phase_rank(phase) <= 3),
        decision(path, phase, attempt, outcome) is Load ==> phase_rank(phase) >= 3,
{
}

// ---------------------------------------------------------------------------
// What is loaded and made

/// A host key is loaded, unchanged, exactly when its file is a regular file that
/// only the daemon user can read, and its text is an Ed25519 key of at most
/// 64 KiB.
pub proof fn only_private_keys_are_loaded(path: Seq<char>, read: KeyRead, euid: u32)
    ensures
        load_outcome(path, read, euid) is Ok <==> {
            &&& read matches KeyRead::Opened { stat: Ok(stat), .. } && stat.is_file && stat.uid
                == euid && stat.mode & 0o077 == 0
            &&& read matches KeyRead::Opened { content: Ok(pem), .. } && is_ed25519(pem@)
                && vstd::utf8::encode_utf8(pem@).len() <= 65536
        },
        load_outcome(path, read, euid) matches Ok(pem) ==> (read matches KeyRead::Opened {
            content: Ok(text),
            ..
        } && text@ == pem),
        read is Missing <==> (load_outcome(path, read, euid) matches Err(error) && error
            is Missing),
{
}

/// A key is made in order: it is written and flushed before it is linked into
/// place, and the directory is flushed last. A taken name is tried again, up to
/// eight times in all, and a key that somebody else put there is loaded.
pub proof fn keys_are_flushed_before_they_are_linked(
    path: Seq<char>,
    attempt: u32,
    outcome: KeyOutcome,
    phase: KeyPhase,
)
    ensures
        decision(path, KeyPhase::CreateTemp, attempt, KeyOutcome::Done) == DecisionView::Continue(
            KeyPhase::Write,
        ),
        decision(path, KeyPhase::Write, attempt, KeyOutcome::Done) == DecisionView::Continue(
            KeyPhase::Flush,
        ),
        decision(path, KeyPhase::Flush, attempt, KeyOutcome::Done) == DecisionView::Continue(
            KeyPhase::Link,
        ),
        decision(path, KeyPhase::Link, attempt, KeyOutcome::Done) == DecisionView::Continue(
            KeyPhase::RemoveTemp,
        ),
        decision(path, KeyPhase::RemoveTemp, attempt, outcome) == DecisionView::Continue(
            KeyPhase::FlushDirectory,
        ),
        decision(path, phase, attempt, outcome) is Retry <==> phase == KeyPhase::CreateTemp && (
        outcome matches KeyOutcome::Failed { exists, .. } && exists) && attempt < 7,
        decision(path, phase, attempt, outcome) is Load <==> {
            ||| phase == KeyPhase::FlushDirectory && outcome is Done
            ||| phase == KeyPhase::Link && (outcome matches KeyOutcome::Failed { exists, .. }
                && exists)
        },
        leaves_temp(path, phase, attempt, outcome) <==> outcome is Failed && (phase
            == KeyPhase::Write || phase == KeyPhase::Flush || phase == KeyPhase::Link),
{
}

proof fn lemma_temp_component(pid: u32, number: u32)
    ensures
        paths::is_component(
            ".host_key.tmp."@ + text::decimal(pid as nat) + "."@ + text::decimal(number as nat),
        ),
{
    let p = text::decimal(pid as nat);
    let n = text::decimal(number as nat);
    let name = ".host_key.tmp."@ + p + "."@ + n;
    reveal_strlit(".host_key.tmp.");
    reveal_strlit(".");
    reveal_strlit("..");
    text::lemma_decimal_value(pid as nat);
    text::lemma_decimal_value(number as nat);
    assert(name.len() > 2);
    assert forall|i: int| 0 <= i < name.len() implies name[i] != '/' by {
        if 14 <= i < 14 + p.len() {
            assert(name[i] == p[i - 14]);
            assert(text::is_digit(p[i - 14]));
        } else if i > 14 + p.len() {
            assert(name[i] == n[i - 15 - p.len()]);
            assert(text::is_digit(n[i - 15 - p.len()]));
        }
    }
}

/// A temporary key lies in the directory of the key, under a name of its own for
/// each number.
pub proof fn temporary_keys_lie_beside_the_key(path: Seq<char>, pid: u32, one: u32, two: u32)
    requires
        directory_of(path).len() > 0,
    ensures
        paths::parent_of(temp_name(path, pid, one)) == Some(paths::trimmed_of(directory_of(path))),
        temp_name(path, pid, one) == temp_name(path, pid, two) ==> one == two,
{
    let p = text::decimal(pid as nat);
    let a = text::decimal(one as nat);
    let b = text::decimal(two as nat);
    let left = ".host_key.tmp."@ + p + "."@ + a;
    let right = ".host_key.tmp."@ + p + "."@ + b;
    lemma_temp_component(pid, one);
    lemma_temp_component(pid, two);
    paths::joined_paths_come_apart(directory_of(path), left);
    paths::joined_paths_come_apart(directory_of(path), right);
    if temp_name(path, pid, one) == temp_name(path, pid, two) {
        let n = (".host_key.tmp."@ + p + "."@).len() as int;
        assert(left.skip(n) =~= a);
        assert(right.skip(n) =~= b);
        text::lemma_decimal_value(one as nat);
        text::lemma_decimal_value(two as nat);
    }
}

/// An error names the key, and ends with what failed.
pub proof fn messages_name_the_key(error: ErrorView)
    ensures
        match error {
            ErrorView::Missing { path } => path.is_suffix_of(error_text(error)),
            ErrorView::Invalid { path, reason } => ("invalid host key at "@ + path + " ("@
                + reason).is_prefix_of(error_text(error)),
            ErrorView::Io { path, message, source } => message.is_prefix_of(error_text(error)) && (
            path + ": "@ + source).is_suffix_of(error_text(error)),
        },
{
    match error {
        ErrorView::Missing { path } => {
            text::lemma_ends("host key is missing: "@, path);
        },
        ErrorView::Invalid { path, reason } => {
            let start = "invalid host key at "@ + path + " ("@ + reason;
            text::lemma_ends(start, "); shbox never replaces an existing host key"@);
        },
        ErrorView::Io { path, message, source } => {
            let end = path + ": "@ + source;
            text::lemma_ends(message + ": "@, end);
            assert(error_text(error) =~= message + ": "@ + end);
            text::lemma_ends(message, ": "@ + end);
            assert(error_text(error) =~= message + (": "@ + end));
        },
    }
}

} // verus!
