//! Key sources: the authorized-keys grammar and the safety of its files.

use crate::auth::fingerprint::{self, KeyFingerprint};
use crate::paths;
use crate::text;
use vstd::prelude::*;

verus! {

/// Maximum size of an authorized-keys file.
pub const MAX_AUTHORIZED_KEYS_BYTES: u64 = 1048576;

/// Maximum size of a single authorized-keys line.
pub const MAX_AUTHORIZED_KEYS_LINE_BYTES: usize = 8192;

// ---------------------------------------------------------------------------
// Errors

/// Authentication and key source errors.
#[derive(Debug)]
pub enum Error {
    Home { message: String },
    Invalid { path: String, reason: String },
    Io { path: String, message: String, source: String },
    EmptyAuthSnapshot { host_path: String, allowed_path: String },
}

/// The contents of an [`Error`].
pub enum ErrorView {
    Home { message: Seq<char> },
    Invalid { path: Seq<char>, reason: Seq<char> },
    Io { path: Seq<char>, message: Seq<char>, source: Seq<char> },
    EmptyAuthSnapshot { host_path: Seq<char>, allowed_path: Seq<char> },
}

impl View for Error {
    type V = ErrorView;

    open spec fn view(&self) -> ErrorView {
        match self {
            Error::Home { message } => ErrorView::Home { message: message@ },
            Error::Invalid { path, reason } => ErrorView::Invalid {
                path: path@,
                reason: reason@,
            },
            Error::Io { path, message, source } => ErrorView::Io {
                path: path@,
                message: message@,
                source: source@,
            },
            Error::EmptyAuthSnapshot { host_path, allowed_path } => ErrorView::EmptyAuthSnapshot {
                host_path: host_path@,
                allowed_path: allowed_path@,
            },
        }
    }
}

/// The text of an error.
pub open spec fn error_text(error: ErrorView) -> Seq<char> {
    match error {
        ErrorView::Home { message } => "cannot resolve the daemon home directory: "@ + message,
        ErrorView::Invalid { path, reason } => "invalid key source at "@ + path + ": "@ + reason,
        ErrorView::Io { path, message, source } => message + ": "@ + path + ": "@ + source,
        ErrorView::EmptyAuthSnapshot { host_path, allowed_path } => "no accepted keys found in "@
            + host_path + " or "@ + allowed_path,
    }
}

impl Error {
    /// The operator-facing description.
    pub fn message(&self) -> (r: String)
        ensures
            r@ == error_text(self@),
    {
        match self {
            Error::Home { message } => {
                let mut m = String::from_str("cannot resolve the daemon home directory: ");
                m.append(message.as_str());
                m
            },
            Error::Invalid { path, reason } => {
                let mut m = String::from_str("invalid key source at ");
                m.append(path.as_str());
                m.append(": ");
                m.append(reason.as_str());
                m
            },
            Error::Io { path, message, source } => {
                let mut m = message.clone();
                m.append(": ");
                m.append(path.as_str());
                m.append(": ");
                m.append(source.as_str());
                m
            },
            Error::EmptyAuthSnapshot { host_path, allowed_path } => {
                let mut m = String::from_str("no accepted keys found in ");
                m.append(host_path.as_str());
                m.append(" or ");
                m.append(allowed_path.as_str());
                m
            },
        }
    }
}

/// Resolve the daemon user's `~/.ssh/authorized_keys` from the outcome of the
/// home directory lookup.
pub fn resolve_authorized_keys_path(home: Result<String, String>) -> (r: Result<String, Error>)
    ensures
        match home {
            Ok(home) => r matches Ok(path) && path@ == paths::join_of(
                paths::join_of(home@, ".ssh"@),
                "authorized_keys"@,
            ),
            Err(message) => r matches Err(error) && error@ == (ErrorView::Home {
                message: message@,
            }),
        },
{
    match home {
        Ok(home) => {
            let ssh = paths::join(home.as_str(), ".ssh");
            Ok(paths::join(ssh.as_str(), "authorized_keys"))
        },
        Err(message) => Err(Error::Home { message }),
    }
}

// ---------------------------------------------------------------------------
// File safety

/// What a stat of the key source itself reported, links not followed.
#[derive(Debug)]
pub enum SourceStat {
    Missing,
    Failed { source: String },
    Found { is_file: bool, len: u64, uid: u32, mode: u32 },
}

/// What a stat of a containing directory reported, links followed.
#[derive(Debug)]
pub enum ParentTarget {
    Failed { source: String },
    Found { is_dir: bool, mode: u32, uid: u32 },
}

/// What a stat of a containing directory's own entry reported.
#[derive(Debug)]
pub enum ParentLink {
    Failed { source: String },
    Found { is_symlink: bool },
}

/// One directory of the chain that contains a key source.
#[derive(Debug)]
pub struct ParentFacts {
    pub path: String,
    pub link: ParentLink,
    pub target: ParentTarget,
}

/// Group or world may write.
pub open spec fn writable_by_others(mode: u32) -> bool {
    mode & 0o022 != 0
}

pub open spec fn parent_invalid(path: Seq<char>, name: Seq<char>, what: Seq<char>) -> ErrorView {
    ErrorView::Invalid { path, reason: name + what }
}

/// What is wrong with one containing directory, if anything. The immediate
/// parent must be no symlink and belong to the daemon user.
pub open spec fn parent_error(
    facts: ParentFacts,
    name: Seq<char>,
    immediate: bool,
    euid: u32,
) -> Option<ErrorView> {
    let path = facts.path@;
    match facts.link {
        ParentLink::Failed { source } => Some(
            ErrorView::Io { path, message: "cannot stat "@ + name + " parent"@, source: source@ },
        ),
        ParentLink::Found { is_symlink } => {
            if immediate && is_symlink {
                Some(parent_invalid(path, name, " parent must not be a symlink"@))
            } else {
                match facts.target {
                    ParentTarget::Failed { source } => Some(
                        ErrorView::Io {
                            path,
                            message: "cannot stat "@ + name + " parent"@,
                            source: source@,
                        },
                    ),
                    ParentTarget::Found { is_dir, mode, uid } => {
                        if !is_dir {
                            Some(parent_invalid(path, name, " parent is not a directory"@))
                        } else if writable_by_others(mode) {
                            Some(parent_invalid(path, name, " parent is group or world writable"@))
                        } else if immediate && uid != euid {
                            Some(
                                parent_invalid(
                                    path,
                                    name,
                                    " parent is not owned by the daemon user"@,
                                ),
                            )
                        } else {
                            None
                        }
                    },
                }
            }
        },
    }
}

/// The first problem along the directory chain from position `from`, nearest
/// directory first.
pub open spec fn parents_error(
    parents: Seq<ParentFacts>,
    from: int,
    name: Seq<char>,
    euid: u32,
) -> Option<ErrorView>
    decreases parents.len() - from,
{
    if from < 0 || from >= parents.len() {
        None
    } else {
        match parent_error(parents[from], name, from == 0, euid) {
            Some(error) => Some(error),
            None => parents_error(parents, from + 1, name, euid),
        }
    }
}

/// The outcome of validating a key source: absent, usable, or rejected with
/// the first problem found.
pub open spec fn file_outcome(
    path: Seq<char>,
    name: Seq<char>,
    stat: SourceStat,
    parents: Seq<ParentFacts>,
    euid: u32,
) -> Result<bool, ErrorView> {
    match stat {
        SourceStat::Missing => Ok(false),
        SourceStat::Failed { source } => Err(
            ErrorView::Io { path, message: "cannot stat "@ + name, source: source@ },
        ),
        SourceStat::Found { is_file, len, uid, mode } => {
            if !is_file {
                Err(parent_invalid(path, name, " is not a regular file"@))
            } else if len > MAX_AUTHORIZED_KEYS_BYTES {
                Err(parent_invalid(path, name, " exceeds the 1048576 byte limit"@))
            } else if uid != euid {
                Err(parent_invalid(path, name, " is not owned by the daemon user"@))
            } else if writable_by_others(mode) {
                Err(parent_invalid(path, name, " is group or world writable"@))
            } else {
                match parents_error(parents, 0, name, euid) {
                    Some(error) => Err(error),
                    None => Ok(true),
                }
            }
        },
    }
}

fn invalid(path: &str, name: &str, what: &str) -> (r: Error)
    ensures
        r@ == parent_invalid(path@, name@, what@),
{
    let mut reason = name.to_owned();
    reason.append(what);
    Error::Invalid { path: path.to_owned(), reason }
}

fn parent_stat_failed(path: &str, name: &str, source: &String) -> (r: Error)
    ensures
        r@ == (ErrorView::Io {
            path: path@,
            message: "cannot stat "@ + name@ + " parent"@,
            source: source@,
        }),
{
    let mut message = String::from_str("cannot stat ");
    message.append(name);
    message.append(" parent");
    Error::Io { path: path.to_owned(), message, source: source.clone() }
}

/// Validate one containing directory.
pub fn validate_key_source_parent(
    facts: &ParentFacts,
    source_name: &str,
    immediate: bool,
    euid: u32,
) -> (r: Result<(), Error>)
    ensures
        match r {
            Ok(_) => parent_error(*facts, source_name@, immediate, euid) is None,
            Err(error) => parent_error(*facts, source_name@, immediate, euid) == Some(error@),
        },
{
    let path = facts.path.as_str();
    match &facts.link {
        ParentLink::Failed { source } => {
            return Err(parent_stat_failed(path, source_name, source));
        },
        ParentLink::Found { is_symlink } => {
            if immediate && *is_symlink {
                return Err(invalid(path, source_name, " parent must not be a symlink"));
            }
        },
    }
    match &facts.target {
        ParentTarget::Failed { source } => Err(parent_stat_failed(path, source_name, source)),
        ParentTarget::Found { is_dir, mode, uid } => {
            if !*is_dir {
                Err(invalid(path, source_name, " parent is not a directory"))
            } else if *mode & 0o022 != 0 {
                Err(invalid(path, source_name, " parent is group or world writable"))
            } else if immediate && *uid != euid {
                Err(invalid(path, source_name, " parent is not owned by the daemon user"))
            } else {
                Ok(())
            }
        },
    }
}

/// Validate the containing directory chain, nearest directory first. The
/// immediate parent must belong to the daemon account and must not be a
/// symlink; higher ancestors may be system-owned, but none may be writable by
/// group or other.
pub fn validate_key_source_parents(
    parents: &Vec<ParentFacts>,
    source_name: &str,
    euid: u32,
) -> (r: Result<(), Error>)
    ensures
        match r {
            Ok(_) => parents_error(parents@, 0, source_name@, euid) is None,
            Err(error) => parents_error(parents@, 0, source_name@, euid) == Some(error@),
        },
{
    let mut i: usize = 0;
    while i < parents.len()
        invariant
            i <= parents@.len(),
            parents_error(parents@, 0, source_name@, euid) == parents_error(
                parents@,
                i as int,
                source_name@,
                euid,
            ),
        decreases parents@.len() - i,
    {
        match validate_key_source_parent(&parents[i], source_name, i == 0, euid) {
            Ok(_) => {},
            Err(error) => {
                return Err(error);
            },
        }
        i = i + 1;
    }
    Ok(())
}

/// Validate file-level safety of a key source: if present, it must be a
/// regular file the daemon user owns, be group/world unwritable, fit the size
/// limit, and have safe directory ancestors. An absent source is `Ok(false)`.
pub fn validate_key_source_file(
    path: &str,
    source_name: &str,
    stat: &SourceStat,
    parents: &Vec<ParentFacts>,
    euid: u32,
) -> (r: Result<bool, Error>)
    ensures
        match r {
            Ok(present) => file_outcome(path@, source_name@, *stat, parents@, euid) == Ok::<
                bool,
                ErrorView,
            >(present),
            Err(error) => file_outcome(path@, source_name@, *stat, parents@, euid) == Err::<
                bool,
                ErrorView,
            >(error@),
        },
{
    match stat {
        SourceStat::Missing => Ok(false),
        SourceStat::Failed { source } => {
            let mut message = String::from_str("cannot stat ");
            message.append(source_name);
            Err(Error::Io { path: path.to_owned(), message, source: source.clone() })
        },
        SourceStat::Found { is_file, len, uid, mode } => {
            if !*is_file {
                return Err(invalid(path, source_name, " is not a regular file"));
            }
            if *len > MAX_AUTHORIZED_KEYS_BYTES {
                return Err(invalid(path, source_name, " exceeds the 1048576 byte limit"));
            }
            if *uid != euid {
                return Err(invalid(path, source_name, " is not owned by the daemon user"));
            }
            if *mode & 0o022 != 0 {
                return Err(invalid(path, source_name, " is group or world writable"));
            }
            match validate_key_source_parents(parents, source_name, euid) {
                Ok(_) => Ok(true),
                Err(error) => Err(error),
            }
        },
    }
}

/// Why the bytes of a validated key source could not be read.
#[derive(Debug)]
pub enum ReadFailure {
    Open { source: String },
    Read { source: String },
}

/// What reading a validated key source means.
pub open spec fn read_outcome(
    path: Seq<char>,
    name: Seq<char>,
    read: Result<Vec<u8>, ReadFailure>,
) -> Result<Seq<u8>, ErrorView> {
    match read {
        Err(ReadFailure::Open { source }) => Err(
            ErrorView::Io { path, message: "cannot open "@ + name, source: source@ },
        ),
        Err(ReadFailure::Read { source }) => Err(
            ErrorView::Io { path, message: "cannot read "@ + name, source: source@ },
        ),
        Ok(bytes) => if bytes@.len() > MAX_AUTHORIZED_KEYS_BYTES {
            Err(parent_invalid(path, name, " exceeds the 1048576 byte limit"@))
        } else {
            Ok(bytes@)
        },
    }
}

/// Accept the bytes of a validated key source. The file may have grown since
/// it was inspected, so the size limit is checked again.
pub fn accept_key_source(
    path: &str,
    source_name: &str,
    read: Result<Vec<u8>, ReadFailure>,
) -> (r: Result<Vec<u8>, Error>)
    ensures
        match r {
            Ok(bytes) => read_outcome(path@, source_name@, read) == Ok::<Seq<u8>, ErrorView>(
                bytes@,
            ),
            Err(error) => read_outcome(path@, source_name@, read) == Err::<Seq<u8>, ErrorView>(
                error@,
            ),
        },
{
    match read {
        Err(ReadFailure::Open { source }) => {
            let mut message = String::from_str("cannot open ");
            message.append(source_name);
            Err(Error::Io { path: path.to_owned(), message, source })
        },
        Err(ReadFailure::Read { source }) => {
            let mut message = String::from_str("cannot read ");
            message.append(source_name);
            Err(Error::Io { path: path.to_owned(), message, source })
        },
        Ok(bytes) => {
            if bytes.len() as u64 > MAX_AUTHORIZED_KEYS_BYTES {
                Err(invalid(path, source_name, " exceeds the 1048576 byte limit"))
            } else {
                Ok(bytes)
            }
        },
    }
}

/// Read a key source: validate its file, and only then ask for its bytes.
/// `Ok(None)` is an absent source.
pub fn read_key_source<F: FnOnce() -> Result<Vec<u8>, ReadFailure>>(
    path: &str,
    source_name: &str,
    stat: &SourceStat,
    parents: &Vec<ParentFacts>,
    euid: u32,
    read: F,
) -> (r: Result<Option<Vec<u8>>, Error>)
    requires
        file_outcome(path@, source_name@, *stat, parents@, euid) == Ok::<bool, ErrorView>(true)
            ==> read.requires(()),
    ensures
        match file_outcome(path@, source_name@, *stat, parents@, euid) {
            Err(expected) => r matches Err(error) && error@ == expected,
            Ok(false) => r matches Ok(None),
            Ok(true) => exists|bytes: Result<Vec<u8>, ReadFailure>|
                read.ensures((), bytes) && match #[trigger] read_outcome(
                    path@,
                    source_name@,
                    bytes,
                ) {
                    Ok(content) => r matches Ok(Some(v)) && v@ == content,
                    Err(expected) => r matches Err(error) && error@ == expected,
                },
        },
{
    match validate_key_source_file(path, source_name, stat, parents, euid) {
        Err(error) => Err(error),
        Ok(present) => {
            if !present {
                return Ok(None);
            }
            let bytes = read();
            let ghost taken = bytes;
            match accept_key_source(path, source_name, bytes) {
                Ok(content) => {
                    assert(read.ensures((), taken));
                    Ok(Some(content))
                },
                Err(error) => {
                    assert(read.ensures((), taken));
                    Err(error)
                },
            }
        },
    }
}

// ---------------------------------------------------------------------------
// Public keys

/// A public key, as far as authentication reads it.
#[derive(Debug)]
pub struct PublicKey {
    ed25519: bool,
    fingerprint: KeyFingerprint,
}

/// What authentication reads of a public key: whether it is Ed25519, and its
/// fingerprint.
pub struct PublicKeyView {
    pub ed25519: bool,
    pub fingerprint: Seq<char>,
}

impl View for PublicKey {
    type V = PublicKeyView;

    closed spec fn view(&self) -> PublicKeyView {
        PublicKeyView { ed25519: self.ed25519, fingerprint: self.fingerprint@ }
    }
}

/// The key that one line of OpenSSH public key text carries, if it is well
/// formed.
pub uninterp spec fn openssh_key(line: Seq<char>) -> Option<(bool, Seq<char>)>;

/// `russh::keys::PublicKey::from_openssh`, with the parsed key reduced to
/// whether its `algorithm()` is Ed25519 and to the text of its SHA-256
/// `fingerprint`. The reduction is a function of the text alone. The
/// fingerprint of any key is `SHA256:` followed by the unpadded base64 of the
/// 32 digest bytes, which is a valid fingerprint text.
#[verifier::external_body]
fn parse_openssh(line: &str) -> (r: Option<(bool, String)>)
    ensures
        match r {
            Some((ed25519, fingerprint)) => openssh_key(line@) == Some((ed25519, fingerprint@))
                && fingerprint::is_fingerprint(fingerprint@),
            None => openssh_key(line@) is None,
        },
{
    match russh::keys::PublicKey::from_openssh(line) {
        Ok(key) => Some((
            key.algorithm() == russh::keys::Algorithm::Ed25519,
            key.fingerprint(russh::keys::HashAlg::Sha256).to_string(),
        )),
        Err(_) => None,
    }
}

/// The key of a line of OpenSSH public key text.
pub open spec fn key_of(line: Seq<char>) -> Option<PublicKeyView> {
    match openssh_key(line) {
        Some((ed25519, fingerprint)) => Some(PublicKeyView { ed25519, fingerprint }),
        None => None,
    }
}

pub open spec fn key_view(key: Option<PublicKey>) -> Option<PublicKeyView> {
    match key {
        Some(key) => Some(key@),
        None => None,
    }
}

impl PublicKey {
    /// A key whose algorithm and fingerprint are already known.
    pub fn new(ed25519: bool, fingerprint: KeyFingerprint) -> (r: PublicKey)
        ensures
            r@ == (PublicKeyView { ed25519, fingerprint: fingerprint@ }),
    {
        PublicKey { ed25519, fingerprint }
    }

    /// Parse one line of OpenSSH public key text.
    pub fn from_openssh(line: &str) -> (r: Option<PublicKey>)
        ensures
            key_view(r) == key_of(line@),
    {
        match parse_openssh(line) {
            Some((ed25519, fingerprint)) => Some(
                PublicKey { ed25519, fingerprint: KeyFingerprint::from_valid(fingerprint) },
            ),
            None => None,
        }
    }

    /// Whether the key is an Ed25519 key.
    pub fn is_ed25519(&self) -> (r: bool)
        ensures
            r == self@.ed25519,
    {
        self.ed25519
    }
}

impl KeyFingerprint {
    /// The fingerprint of a public key.
    pub fn from_ssh_key(public_key: &PublicKey) -> (r: KeyFingerprint)
        ensures
            r@ == public_key@.fingerprint,
    {
        public_key.fingerprint.clone()
    }
}

// ---------------------------------------------------------------------------
// The authorized-keys grammar

/// What can be wrong with one line.
#[derive(Debug, Clone, Copy, PartialEq, Eq, Structural)]
pub enum LineProblem {
    TooLong,
    NotBare,
    InvalidKey,
    NotEd25519,
    Duplicate,
}

/// The reason given for a problem on line `number`, counted from one.
pub open spec fn problem_text(problem: LineProblem, number: nat) -> Seq<char> {
    let line = "line "@ + text::decimal(number);
    match problem {
        LineProblem::TooLong => line + " exceeds the 8 KiB limit"@,
        LineProblem::NotBare => line + " is not bare `ssh-ed25519 <base64> [comment]`"@,
        LineProblem::InvalidKey => line + " contains an invalid public key"@,
        LineProblem::NotEd25519 => line + " is not an Ed25519 key"@,
        LineProblem::Duplicate => line + " duplicates an earlier key"@,
    }
}

impl LineProblem {
    /// The reason given for this problem on line `number`.
    pub fn reason(&self, number: usize) -> (r: String)
        ensures
            r@ == problem_text(*self, number as nat),
    {
        let mut m = String::from_str("line ");
        let n = text::decimal_text(number as u64);
        m.append(n.as_str());
        match self {
            LineProblem::TooLong => m.append(" exceeds the 8 KiB limit"),
            LineProblem::NotBare => m.append(" is not bare `ssh-ed25519 <base64> [comment]`"),
            LineProblem::InvalidKey => m.append(" contains an invalid public key"),
            LineProblem::NotEd25519 => m.append(" is not an Ed25519 key"),
            LineProblem::Duplicate => m.append(" duplicates an earlier key"),
        }
        m
    }
}

/// What a line is before its key is looked at.
#[derive(Debug, Clone, Copy, PartialEq, Eq, Structural)]
pub enum LineShape {
    /// Empty or a comment.
    Blank,
    /// Rejected.
    Bad(LineProblem),
    /// `ssh-ed25519 <blob> [comment]`.
    Candidate,
}

/// The shape of a line: too long, blank or comment, or a bare Ed25519 entry.
pub open spec fn line_shape(line: Seq<char>) -> LineShape {
    let trimmed = text::trim_of(line);
    let fields = text::fields_of(trimmed, true);
    if vstd::utf8::encode_utf8(line).len() > MAX_AUTHORIZED_KEYS_LINE_BYTES {
        LineShape::Bad(LineProblem::TooLong)
    } else if trimmed.len() == 0 || trimmed[0] == '#' {
        LineShape::Blank
    } else if fields.len() < 2 || fields[0] != "ssh-ed25519"@ {
        LineShape::Bad(LineProblem::NotBare)
    } else {
        LineShape::Candidate
    }
}

/// The fingerprint that a candidate line contributes, given the key parsed
/// from it and the fingerprints already collected.
pub open spec fn key_verdict(key: Option<PublicKeyView>, seen: Seq<Seq<char>>) -> Result<
    Seq<char>,
    LineProblem,
> {
    match key {
        None => Err(LineProblem::InvalidKey),
        Some(key) => if !key.ed25519 {
            Err(LineProblem::NotEd25519)
        } else if seen.contains(key.fingerprint) {
            Err(LineProblem::Duplicate)
        } else {
            Ok(key.fingerprint)
        },
    }
}

/// The fingerprints of a list of lines in order, or the first line that is
/// rejected, counted from one, and why.
pub open spec fn scan_lines(lines: Seq<Seq<char>>) -> Result<
    Seq<Seq<char>>,
    (nat, LineProblem),
>
    decreases lines.len(),
{
    if lines.len() == 0 {
        Ok(seq![])
    } else {
        match scan_lines(lines.drop_last()) {
            Err(problem) => Err(problem),
            Ok(seen) => match line_shape(lines.last()) {
                LineShape::Blank => Ok(seen),
                LineShape::Bad(problem) => Err((lines.len(), problem)),
                LineShape::Candidate => match key_verdict(
                    key_of(text::trim_of(lines.last())),
                    seen,
                ) {
                    Ok(fingerprint) => Ok(seen.push(fingerprint)),
                    Err(problem) => Err((lines.len(), problem)),
                },
            },
        }
    }
}

/// The fingerprints of an authorized-keys file, or the reason it is rejected.
pub open spec fn source_outcome(bytes: Seq<u8>, allow_empty: bool) -> Result<
    Seq<Seq<char>>,
    Seq<char>,
> {
    if bytes.len() > MAX_AUTHORIZED_KEYS_BYTES {
        Err("file exceeds the 1 MiB limit"@)
    } else if !vstd::utf8::valid_utf8(bytes) {
        Err("file is not valid UTF-8"@)
    } else {
        match scan_lines(text::lines_of(vstd::utf8::decode_utf8(bytes))) {
            Err((number, problem)) => Err(problem_text(problem, number)),
            Ok(keys) => if keys.len() == 0 && !allow_empty {
                Err("no valid Ed25519 key found"@)
            } else {
                Ok(keys)
            },
        }
    }
}

/// One accepted authorized-keys entry.
#[derive(Debug)]
pub struct AuthorizedKey {
    pub fingerprint: KeyFingerprint,
}

/// The fingerprints of a list of entries.
pub open spec fn fingerprints(keys: Seq<AuthorizedKey>) -> Seq<Seq<char>> {
    keys.map_values(|key: AuthorizedKey| key.fingerprint@)
}

/// Determine the shape of one line.
pub fn shape_of_line(line: &[char]) -> (r: LineShape)
    ensures
        r == line_shape(line@),
{
    if text::utf8_longer_than(line, MAX_AUTHORIZED_KEYS_LINE_BYTES) {
        return LineShape::Bad(LineProblem::TooLong);
    }
    let trimmed = text::trim(line);
    if trimmed.len() == 0 || trimmed[0] == '#' {
        return LineShape::Blank;
    }
    let fields = text::fields(trimmed, true);
    assert(text::slices(fields@).len() == fields@.len());
    if fields.len() < 2 {
        return LineShape::Bad(LineProblem::NotBare);
    }
    assert(text::slices(fields@)[0] == fields@[0]@);
    let algorithm = text::chars_of("ssh-ed25519");
    if !text::same_chars(fields[0], algorithm.as_slice()) {
        return LineShape::Bad(LineProblem::NotBare);
    }
    LineShape::Candidate
}

/// Whether a fingerprint is among the entries.
pub fn has_fingerprint(keys: &Vec<AuthorizedKey>, fingerprint: &KeyFingerprint) -> (r: bool)
    ensures
        r == fingerprints(keys@).contains(fingerprint@),
{
    let mut i: usize = 0;
    while i < keys.len()
        invariant
            i <= keys@.len(),
            forall|k: int| 0 <= k < i ==> fingerprints(keys@)[k] != fingerprint@,
        decreases keys@.len() - i,
    {
        assert(fingerprints(keys@)[i as int] == keys@[i as int].fingerprint@);
        if keys[i].fingerprint.same(fingerprint) {
            return true;
        }
        i = i + 1;
    }
    false
}

/// Decide what a candidate line contributes, given the key parsed from it.
pub fn judge_key(key: &Option<PublicKey>, seen: &Vec<AuthorizedKey>) -> (r: Result<
    KeyFingerprint,
    LineProblem,
>)
    ensures
        match r {
            Ok(fingerprint) => key_verdict(key_view(*key), fingerprints(seen@)) == Ok::<
                Seq<char>,
                LineProblem,
            >(fingerprint@),
            Err(problem) => key_verdict(key_view(*key), fingerprints(seen@)) == Err::<
                Seq<char>,
                LineProblem,
            >(problem),
        },
{
    match key {
        None => Err(LineProblem::InvalidKey),
        Some(key) => {
            if !key.is_ed25519() {
                return Err(LineProblem::NotEd25519);
            }
            let fingerprint = KeyFingerprint::from_ssh_key(key);
            if has_fingerprint(seen, &fingerprint) {
                return Err(LineProblem::Duplicate);
            }
            Ok(fingerprint)
        },
    }
}

proof fn lemma_scan_stops(lines: Seq<Seq<char>>, n: int)
    requires
        0 <= n <= lines.len(),
        scan_lines(lines.take(n)) is Err,
    ensures
        scan_lines(lines) == scan_lines(lines.take(n)),
    decreases lines.len() - n,
{
    if n == lines.len() {
        assert(lines.take(n) =~= lines);
    } else {
        assert(lines.take(n + 1).drop_last() =~= lines.take(n));
        lemma_scan_stops(lines, n + 1);
    }
}

/// Parse an authorized-keys file with the strict bare subset
/// `ssh-ed25519 <base64> [comment]`. Options, certificates, other key types,
/// malformed lines, and duplicate keys invalidate the whole file.
pub fn parse_key_source(bytes: &[u8], path: &str, allow_empty: bool) -> (r: Result<
    Vec<AuthorizedKey>,
    Error,
>)
    ensures
        match source_outcome(bytes@, allow_empty) {
            Ok(expected) => r matches Ok(keys) && fingerprints(keys@) == expected,
            Err(reason) => r matches Err(error) && error@ == (ErrorView::Invalid {
                path: path@,
                reason,
            }),
        },
{
    if bytes.len() as u64 > MAX_AUTHORIZED_KEYS_BYTES {
        return Err(
            Error::Invalid {
                path: path.to_owned(),
                reason: String::from_str("file exceeds the 1 MiB limit"),
            },
        );
    }
    let content = match text::utf8_text(bytes) {
        Some(content) => content,
        None => {
            return Err(
                Error::Invalid {
                    path: path.to_owned(),
                    reason: String::from_str("file is not valid UTF-8"),
                },
            );
        },
    };
    let chars = text::chars_of(content);
    let lines = text::lines(chars.as_slice());
    let ghost all = text::lines_of(vstd::utf8::decode_utf8(bytes@));
    let mut keys: Vec<AuthorizedKey> = Vec::new();
    let mut i: usize = 0;
    proof {
        assert(fingerprints(keys@) =~= Seq::<Seq<char>>::empty());
        assert(all.take(0) =~= Seq::<Seq<char>>::empty());
    }
    while i < lines.len()
        invariant
            i <= lines@.len(),
            text::slices(lines@) == all,
            all == text::lines_of(vstd::utf8::decode_utf8(bytes@)),
            bytes@.len() <= MAX_AUTHORIZED_KEYS_BYTES,
            vstd::utf8::valid_utf8(bytes@),
            scan_lines(all.take(i as int)) == Ok::<Seq<Seq<char>>, (nat, LineProblem)>(
                fingerprints(keys@),
            ),
        decreases lines@.len() - i,
    {
        let line = lines[i];
        let number: usize = i + 1;
        proof {
            assert(text::slices(lines@)[i as int] == line@);
            assert(all.take(i + 1).drop_last() =~= all.take(i as int));
            assert(all.take(i + 1).last() == line@);
        }
        match shape_of_line(line) {
            LineShape::Blank => {},
            LineShape::Bad(problem) => {
                proof {
                    lemma_scan_stops(all, i + 1);
                }
                return Err(Error::Invalid { path: path.to_owned(), reason: problem.reason(number) });
            },
            LineShape::Candidate => {
                let trimmed = text::string_of(text::trim(line));
                let key = PublicKey::from_openssh(trimmed.as_str());
                match judge_key(&key, &keys) {
                    Ok(fingerprint) => {
                        proof {
                            let entry = AuthorizedKey { fingerprint };
                            assert(fingerprints(keys@.push(entry)) =~= fingerprints(keys@).push(
                                fingerprint@,
                            ));
                        }
                        keys.push(AuthorizedKey { fingerprint });
                    },
                    Err(problem) => {
                        proof {
                            lemma_scan_stops(all, i + 1);
                        }
                        return Err(
                            Error::Invalid {
                                path: path.to_owned(),
                                reason: problem.reason(number),
                            },
                        );
                    },
                }
            },
        }
        i = i + 1;
    }
    assert(all.take(all.len() as int) =~= all);
    assert(fingerprints(keys@).len() == keys@.len());
    if keys.len() == 0 && !allow_empty {
        return Err(
            Error::Invalid {
                path: path.to_owned(),
                reason: String::from_str("no valid Ed25519 key found"),
            },
        );
    }
    Ok(keys)
}

/// An accepted source names every key once.
pub proof fn accepted_keys_are_distinct(lines: Seq<Seq<char>>)
    ensures
        scan_lines(lines) matches Ok(keys) ==> keys.no_duplicates(),
    decreases lines.len(),
{
    if lines.len() > 0 {
        accepted_keys_are_distinct(lines.drop_last());
    }
}

/// A line that is rejected rejects the whole source, whatever follows it.
pub proof fn a_bad_line_rejects_the_source(lines: Seq<Seq<char>>, n: int)
    requires
        0 <= n <= lines.len(),
        scan_lines(lines.take(n)) is Err,
    ensures
        scan_lines(lines) == scan_lines(lines.take(n)),
{
    lemma_scan_stops(lines, n);
}

// ---------------------------------------------------------------------------
// What is accepted

/// ASCII white space, as it separates the fields of an entry.
pub open spec fn is_separator(c: char) -> bool {
    c == ' ' || c == '\t' || c == '\n' || c as u32 == 0xc || c == '\r'
}

/// A line within the size limit is blank when nothing or a comment is on it, and
/// is a candidate exactly when it starts with the algorithm name and a
/// separator, whatever blob and comment follow; every other line is refused.
pub proof fn bare_entries_are_candidates(line: Seq<char>)
    ensures
        ({
            let fits = vstd::utf8::encode_utf8(line).len() <= 8192;
            let t = text::trim_of(line);
            let blank = t.len() == 0 || t[0] == '#';
            let bare = "ssh-ed25519"@.is_prefix_of(t) && t.len() > 11 && is_separator(t[11]);
            &&& line_shape(line) == LineShape::Bad(LineProblem::TooLong) <==> !fits
            &&& line_shape(line) == LineShape::Blank <==> fits && blank
            &&& line_shape(line) == LineShape::Candidate <==> fits && bare
            &&& line_shape(line) == LineShape::Bad(LineProblem::NotBare) <==> fits && !blank
                && !bare
        }),
{
    let t = text::trim_of(line);
    let name = "ssh-ed25519"@;
    let fields = text::fields_of(t, true);
    reveal_strlit("ssh-ed25519");
    assert(name.len() == 11 && name[0] == 's');
    text::trimmed_texts_have_bare_ends(line);
    if t.len() > 0 {
        text::ascii_white_space(t[0]);
        text::ascii_white_space(t.last());
        let j = text::blank_from(t, 0, true);
        text::lemma_first_blank(t, 0, true);
        assert(fields =~= seq![t.take(j)] + text::fields_of(t.skip(j), true));
        if name.is_prefix_of(t) {
            assert(t[0] == name[0]);
        }
        if name.is_prefix_of(t) && t.len() > 11 && is_separator(t[11]) {
            let rest = t.skip(12);
            assert forall|k: int| 0 <= k < 11 implies !text::is_blank(
                #[trigger] name[k],
                true,
            ) by {}
            text::a_word_is_one_field(name, true);
            text::blanks_separate_fields(name, t[11], rest, true);
            assert(t =~= name + seq![t[11]] + rest);
            assert(t.len() > 12);
            assert(rest[rest.len() - 1] == t.last());
            text::fields_need_a_character(rest, true);
            assert(fields == seq![name] + text::fields_of(rest, true));
            assert(fields[0] == name && fields.len() >= 2);
        }
        if fields.len() >= 2 && fields[0] == name {
            assert(t.take(j) == name);
            assert(j == 11);
            if j == t.len() {
                assert(t.skip(j) =~= Seq::<char>::empty());
                assert(text::fields_of(t.skip(j), true).len() == 0);
            }
            assert(text::is_blank(t[11], true));
            text::ascii_white_space(t[11]);
            assert(name.is_prefix_of(t));
        }
    }
}

/// One more line: a blank one changes nothing, a new Ed25519 key is added at the
/// end, and anything else rejects the source at that line.
pub proof fn each_line_adds_its_key(lines: Seq<Seq<char>>, line: Seq<char>, seen: Seq<Seq<char>>)
    requires
        scan_lines(lines) == Ok::<Seq<Seq<char>>, (nat, LineProblem)>(seen),
    ensures
        ({
            let after = scan_lines(lines.push(line));
            let key = key_of(text::trim_of(line));
            let number = (lines.len() + 1) as nat;
            match line_shape(line) {
                LineShape::Blank => after == Ok::<Seq<Seq<char>>, (nat, LineProblem)>(seen),
                LineShape::Bad(problem) => after == Err::<Seq<Seq<char>>, (nat, LineProblem)>(
                    (number, problem),
                ),
                LineShape::Candidate => {
                    &&& after is Ok <==> (key matches Some(k) && k.ed25519 && !seen.contains(
                        k.fingerprint,
                    ))
                    &&& after matches Ok(keys) ==> keys == seen.push(key->Some_0.fingerprint)
                    &&& after matches Err((at, problem)) ==> at == number && (problem
                        == LineProblem::InvalidKey <==> key is None) && (problem
                        == LineProblem::NotEd25519 <==> (key matches Some(k) && !k.ed25519)) && (
                    problem == LineProblem::Duplicate <==> (key matches Some(k) && k.ed25519
                        && seen.contains(k.fingerprint)))
                },
            }
        }),
{
    assert(lines.push(line).drop_last() =~= lines);
}

proof fn lemma_entries_are_accepted(lines: Seq<Seq<char>>, keys: Seq<Seq<char>>)
    requires
        lines.len() == keys.len(),
        keys.no_duplicates(),
        forall|i: int|
            0 <= i < lines.len() ==> {
                &&& line_shape(#[trigger] lines[i]) == LineShape::Candidate
                &&& key_of(text::trim_of(lines[i])) == Some(
                    PublicKeyView { ed25519: true, fingerprint: keys[i] },
                )
            },
    ensures
        scan_lines(lines) == Ok::<Seq<Seq<char>>, (nat, LineProblem)>(keys),
    decreases lines.len(),
{
    if lines.len() > 0 {
        let n = lines.len() - 1;
        let short = keys.drop_last();
        assert forall|i: int, j: int| 0 <= i < short.len() && 0 <= j < short.len() && i
            != j implies short[i] != short[j] by {
            assert(keys[i] != keys[j]);
        }
        assert(short.no_duplicates());
        lemma_entries_are_accepted(lines.drop_last(), short);
        assert(line_shape(lines[n]) == LineShape::Candidate);
        if short.contains(keys[n]) {
            let k = choose|k: int| 0 <= k < short.len() && short[k] == keys[n];
            assert(keys[k] == keys[n]);
        }
        assert(short.push(keys[n]) =~= keys);
    } else {
        assert(keys =~= Seq::<Seq<char>>::empty());
    }
}

/// A file of bare entries with distinct Ed25519 keys is accepted, with exactly
/// their fingerprints, in the order of the lines.
pub proof fn files_of_distinct_keys_are_accepted(
    bytes: Seq<u8>,
    lines: Seq<Seq<char>>,
    keys: Seq<Seq<char>>,
    allow_empty: bool,
)
    requires
        bytes.len() <= 1048576,
        vstd::utf8::valid_utf8(bytes),
        lines == text::lines_of(vstd::utf8::decode_utf8(bytes)),
        0 < lines.len() == keys.len(),
        keys.no_duplicates(),
        forall|i: int|
            0 <= i < lines.len() ==> {
                &&& line_shape(#[trigger] lines[i]) == LineShape::Candidate
                &&& key_of(text::trim_of(lines[i])) == Some(
                    PublicKeyView { ed25519: true, fingerprint: keys[i] },
                )
            },
    ensures
        source_outcome(bytes, allow_empty) == Ok::<Seq<Seq<char>>, Seq<char>>(keys),
{
    lemma_entries_are_accepted(lines, keys);
}

/// A blank line may stand anywhere in a file without a difference to its keys.
pub proof fn blank_lines_do_not_count(lines: Seq<Seq<char>>, i: int)
    requires
        0 <= i < lines.len(),
        line_shape(lines[i]) == LineShape::Blank,
    ensures
        scan_lines(lines) is Ok <==> scan_lines(lines.remove(i)) is Ok,
        scan_lines(lines) matches Ok(keys) ==> scan_lines(lines.remove(i)) == Ok::<
            Seq<Seq<char>>,
            (nat, LineProblem),
        >(keys),
    decreases lines.len(),
{
    if i == lines.len() - 1 {
        assert(lines.remove(i) =~= lines.drop_last());
    } else {
        blank_lines_do_not_count(lines.drop_last(), i);
        assert(lines.remove(i).drop_last() =~= lines.drop_last().remove(i));
        assert(lines.remove(i).last() == lines.last());
    }
}

/// Size and encoding come before the lines, and only an empty file depends on
/// whether it may be empty.
pub proof fn files_are_bounded_text(bytes: Seq<u8>)
    ensures
        source_outcome(bytes, true) is Ok ==> bytes.len() <= 1048576 && vstd::utf8::valid_utf8(
            bytes,
        ),
        source_outcome(bytes, true) matches Ok(keys) ==> source_outcome(bytes, false) == (
        if keys.len() > 0 {
            Ok::<Seq<Seq<char>>, Seq<char>>(keys)
        } else {
            Err("no valid Ed25519 key found"@)
        }),
        source_outcome(bytes, true) matches Err(reason) ==> source_outcome(bytes, false) == Err::<
            Seq<Seq<char>>,
            Seq<char>,
        >(reason),
        bytes.len() == 0 ==> source_outcome(bytes, true) == Ok::<Seq<Seq<char>>, Seq<char>>(
            Seq::<Seq<char>>::empty(),
        ),
{
    if bytes.len() == 0 {
        assert(bytes =~= vstd::utf8::encode_utf8(Seq::<char>::empty()));
        vstd::utf8::encode_utf8_decode_utf8(Seq::<char>::empty());
        vstd::utf8::encode_utf8_valid_utf8(Seq::<char>::empty());
    }
}

/// A directory that may hold a key source. The nearest one must itself be a
/// directory of the daemon user.
pub open spec fn is_safe_parent(facts: ParentFacts, immediate: bool, euid: u32) -> bool {
    &&& facts.link matches ParentLink::Found { is_symlink } && !(immediate && is_symlink)
    &&& facts.target matches ParentTarget::Found { is_dir, mode, uid } && is_dir && mode & 0o022
        == 0 && (immediate ==> uid == euid)
}

proof fn lemma_safe_parents(parents: Seq<ParentFacts>, from: int, name: Seq<char>, euid: u32)
    requires
        0 <= from <= parents.len(),
    ensures
        parents_error(parents, from, name, euid) is None <==> forall|i: int|
            from <= i < parents.len() ==> is_safe_parent(#[trigger] parents[i], i == 0, euid),
    decreases parents.len() - from,
{
    if from < parents.len() {
        lemma_safe_parents(parents, from + 1, name, euid);
        assert(parent_error(parents[from], name, from == 0, euid) is None <==> is_safe_parent(
            parents[from],
            from == 0,
            euid,
        ));
    }
}

/// A key source is used exactly when it is a regular file of the daemon user
/// that fits the limit, that nobody else can write, below directories that
/// nobody else can write; it is absent exactly when it does not exist.
pub proof fn only_safe_files_are_used(
    path: Seq<char>,
    name: Seq<char>,
    stat: SourceStat,
    parents: Seq<ParentFacts>,
    euid: u32,
)
    ensures
        file_outcome(path, name, stat, parents, euid) == Ok::<bool, ErrorView>(false) <==> stat
            is Missing,
        file_outcome(path, name, stat, parents, euid) == Ok::<bool, ErrorView>(true) <==> {
            &&& stat matches SourceStat::Found { is_file, len, uid, mode } && is_file && len
                <= 1048576 && uid == euid && mode & 0o022 == 0
            &&& forall|i: int|
                0 <= i < parents.len() ==> is_safe_parent(#[trigger] parents[i], i == 0, euid)
        },
{
    lemma_safe_parents(parents, 0, name, euid);
}

/// Bytes that could be read are used as they are, unless the file has outgrown
/// the limit in the meantime.
pub proof fn read_bytes_are_used_unchanged(
    path: Seq<char>,
    name: Seq<char>,
    read: Result<Vec<u8>, ReadFailure>,
)
    ensures
        read_outcome(path, name, read) is Ok <==> (read matches Ok(bytes) && bytes@.len()
            <= 1048576),
        read_outcome(path, name, read) matches Ok(content) ==> content == read->Ok_0@,
        read is Err ==> read_outcome(path, name, read)->Err_0 is Io,
        read is Ok && read_outcome(path, name, read) is Err ==> read_outcome(
            path,
            name,
            read,
        )->Err_0 is Invalid,
{
}

/// An error ends with what caused it, and a rejected line starts with its
/// number.
pub proof fn messages_end_with_their_cause(error: ErrorView, problem: LineProblem, number: nat)
    ensures
        match error {
            ErrorView::Home { message } => message.is_suffix_of(error_text(error)),
            ErrorView::Invalid { path, reason } => (path + ": "@ + reason).is_suffix_of(
                error_text(error),
            ),
            ErrorView::Io { path, message, source } => message.is_prefix_of(error_text(error)) && (
            path + ": "@ + source).is_suffix_of(error_text(error)),
            ErrorView::EmptyAuthSnapshot { host_path, allowed_path } => (host_path + " or "@
                + allowed_path).is_suffix_of(error_text(error)),
        },
        ("line "@ + text::decimal(number) + seq![' ']).is_prefix_of(problem_text(problem, number)),
{
    match error {
        ErrorView::Home { message } => {
            text::lemma_ends("cannot resolve the daemon home directory: "@, message);
        },
        ErrorView::Invalid { path, reason } => {
            let end = path + ": "@ + reason;
            text::lemma_ends("invalid key source at "@, end);
            assert(error_text(error) =~= "invalid key source at "@ + end);
        },
        ErrorView::Io { path, message, source } => {
            let end = path + ": "@ + source;
            text::lemma_ends(message + ": "@, end);
            assert(error_text(error) =~= message + ": "@ + end);
            text::lemma_ends(message, ": "@ + end);
            assert(error_text(error) =~= message + (": "@ + end));
        },
        ErrorView::EmptyAuthSnapshot { host_path, allowed_path } => {
            let end = host_path + " or "@ + allowed_path;
            text::lemma_ends("no accepted keys found in "@, end);
            assert(error_text(error) =~= "no accepted keys found in "@ + end);
        },
    }
    let start = "line "@ + text::decimal(number) + seq![' '];
    let text = problem_text(problem, number);
    reveal_strlit(" exceeds the 8 KiB limit");
    reveal_strlit(" is not bare `ssh-ed25519 <base64> [comment]`");
    reveal_strlit(" contains an invalid public key");
    reveal_strlit(" is not an Ed25519 key");
    reveal_strlit(" duplicates an earlier key");
    assert(text.subrange(0, start.len() as int) =~= start);
}

} // verus!
