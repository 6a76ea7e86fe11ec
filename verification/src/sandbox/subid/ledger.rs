//! Durable subordinate-ID lease records.
//!
//! One lease record names one non-free UID and GID pair leased to one durable
//! sandbox incarnation. **Free is represented by the absence of a record**:
//! there is no persistent free or retired history.

use crate::auth::fingerprint::{self, KeyFingerprint};
use crate::quote;
use crate::sandbox::id::{self, SandboxId};
use crate::sandbox::storage::{self, Stat};
use crate::sandbox::subid::order;
use crate::tables::{self, Scalar, ScalarView};
use crate::text;
use crate::token;
use vstd::prelude::*;
use vstd::slice::slice_subrange;

verus! {

/// The only lease-record schema version understood by this release.
pub const VERSION: u32 = 1;

/// Bound a record before it is parsed.
pub const MAX_RECORD_BYTES: usize = 4096;

/// Lease tokens are 128 random bits in lower-case hexadecimal.
pub const LEASE_ID_HEX: usize = 32;

// ---------------------------------------------------------------------------
// Errors

/// Why a record is no TOML document of the expected shape.
#[derive(Debug)]
pub enum TomlProblem {
    Syntax(String),
    UnknownField,
    MissingField(String),
    InvalidField(String),
}

/// The contents of a [`TomlProblem`].
pub enum TomlProblemView {
    Syntax(Seq<char>),
    UnknownField,
    MissingField(Seq<char>),
    InvalidField(Seq<char>),
}

impl View for TomlProblem {
    type V = TomlProblemView;

    open spec fn view(&self) -> TomlProblemView {
        match self {
            TomlProblem::Syntax(m) => TomlProblemView::Syntax(m@),
            TomlProblem::UnknownField => TomlProblemView::UnknownField,
            TomlProblem::MissingField(f) => TomlProblemView::MissingField(f@),
            TomlProblem::InvalidField(f) => TomlProblemView::InvalidField(f@),
        }
    }
}

/// Lease-ledger failures. Corruption is deliberately loud: the caller fails
/// closed rather than allocating around an unreadable record.
#[derive(Debug)]
pub enum Error {
    Io { root: String, operation: String, source: String },
    UnsafeDirectory(String, String),
    UnknownFileName(String),
    CorruptRecord { name: String, reason: String },
    MissingRecord(String),
    TooLarge(usize),
    NotUtf8,
    Toml(TomlProblem),
    UnsupportedVersion(u32),
    InvalidLeaseId(String),
    MismatchedLeaseId { expected: String, found: String },
    InvalidSandboxId { reason: String },
    InvalidOwner { reason: String },
    ZeroId,
    InvalidState(String),
    InvalidQuarantineReason,
}

/// The contents of an [`Error`].
pub enum ErrorView {
    Io { root: Seq<char>, operation: Seq<char>, source: Seq<char> },
    UnsafeDirectory(Seq<char>, Seq<char>),
    UnknownFileName(Seq<char>),
    CorruptRecord { name: Seq<char>, reason: Seq<char> },
    MissingRecord(Seq<char>),
    TooLarge(usize),
    NotUtf8,
    Toml(TomlProblemView),
    UnsupportedVersion(u32),
    InvalidLeaseId(Seq<char>),
    MismatchedLeaseId { expected: Seq<char>, found: Seq<char> },
    InvalidSandboxId { reason: Seq<char> },
    InvalidOwner { reason: Seq<char> },
    ZeroId,
    InvalidState(Seq<char>),
    InvalidQuarantineReason,
}

impl View for Error {
    type V = ErrorView;

    open spec fn view(&self) -> ErrorView {
        match self {
            Error::Io { root, operation, source } => ErrorView::Io {
                root: root@,
                operation: operation@,
                source: source@,
            },
            Error::UnsafeDirectory(root, reason) => ErrorView::UnsafeDirectory(root@, reason@),
            Error::UnknownFileName(name) => ErrorView::UnknownFileName(name@),
            Error::CorruptRecord { name, reason } => ErrorView::CorruptRecord {
                name: name@,
                reason: reason@,
            },
            Error::MissingRecord(lease_id) => ErrorView::MissingRecord(lease_id@),
            Error::TooLarge(size) => ErrorView::TooLarge(*size),
            Error::NotUtf8 => ErrorView::NotUtf8,
            Error::Toml(problem) => ErrorView::Toml(problem@),
            Error::UnsupportedVersion(version) => ErrorView::UnsupportedVersion(*version),
            Error::InvalidLeaseId(lease_id) => ErrorView::InvalidLeaseId(lease_id@),
            Error::MismatchedLeaseId { expected, found } => ErrorView::MismatchedLeaseId {
                expected: expected@,
                found: found@,
            },
            Error::InvalidSandboxId { reason } => ErrorView::InvalidSandboxId { reason: reason@ },
            Error::InvalidOwner { reason } => ErrorView::InvalidOwner { reason: reason@ },
            Error::ZeroId => ErrorView::ZeroId,
            Error::InvalidState(state) => ErrorView::InvalidState(state@),
            Error::InvalidQuarantineReason => ErrorView::InvalidQuarantineReason,
        }
    }
}

/// The text of a TOML problem.
pub open spec fn toml_problem_text(problem: TomlProblemView) -> Seq<char> {
    match problem {
        TomlProblemView::Syntax(m) => m,
        TomlProblemView::UnknownField => "unknown field"@,
        TomlProblemView::MissingField(f) => "missing field `"@ + f + "`"@,
        TomlProblemView::InvalidField(f) => "invalid value for field `"@ + f + "`"@,
    }
}

/// The text of an error.
pub open spec fn error_text(error: ErrorView) -> Seq<char> {
    match error {
        ErrorView::Io { root, operation, source } => "could not "@ + operation + " under "@ + root
            + ": "@ + source,
        ErrorView::UnsafeDirectory(root, reason) => "lease directory "@ + root + " is unsafe: "@
            + reason,
        ErrorView::UnknownFileName(name) => "unexpected file "@ + quote::debug_text(name)
            + " in the lease directory (expected <lease-id>.toml)"@,
        ErrorView::CorruptRecord { name, reason } => "lease record "@ + quote::debug_text(name)
            + " is corrupt: "@ + reason,
        ErrorView::MissingRecord(lease_id) => "lease record "@ + lease_id + " does not exist"@,
        ErrorView::TooLarge(size) => "lease record is "@ + text::decimal(size as nat)
            + " bytes, limit is 4096"@,
        ErrorView::NotUtf8 => "lease record is not valid UTF-8"@,
        ErrorView::Toml(problem) => "lease record is not valid TOML: "@ + toml_problem_text(
            problem,
        ),
        ErrorView::UnsupportedVersion(version) => "lease record version "@ + text::decimal(
            version as nat,
        ) + " is unsupported"@,
        ErrorView::InvalidLeaseId(lease_id) => "lease id "@ + quote::debug_text(lease_id)
            + " is not 32 lowercase hex characters"@,
        ErrorView::MismatchedLeaseId { expected, found } => "lease record names incarnation "@
            + quote::debug_text(found) + ", expected "@ + quote::debug_text(expected),
        ErrorView::InvalidSandboxId { reason } => "lease record sandbox id is invalid: "@ + reason,
        ErrorView::InvalidOwner { reason } => "lease record owner is invalid: "@ + reason,
        ErrorView::ZeroId => "lease record maps UID or GID 0"@,
        ErrorView::InvalidState(state) => "lease record state "@ + quote::debug_text(state)
            + " is invalid"@,
        ErrorView::InvalidQuarantineReason => {
            "lease record has a quarantine reason but is not quarantined"@
        },
    }
}

impl TomlProblem {
    /// The description of the problem.
    pub fn message(&self) -> (r: String)
        ensures
            r@ == toml_problem_text(self@),
    {
        match self {
            TomlProblem::Syntax(m) => m.clone(),
            TomlProblem::UnknownField => String::from_str("unknown field"),
            TomlProblem::MissingField(f) => text::cat3("missing field `", f.as_str(), "`"),
            TomlProblem::InvalidField(f) => text::cat3(
                "invalid value for field `",
                f.as_str(),
                "`",
            ),
        }
    }
}

impl Error {
    /// The operator-facing description.
    pub fn message(&self) -> (r: String)
        ensures
            r@ == error_text(self@),
    {
        match self {
            Error::Io { root, operation, source } => {
                let mut m = text::cat4("could not ", operation.as_str(), " under ", root.as_str());
                m.append(": ");
                m.append(source.as_str());
                m
            },
            Error::UnsafeDirectory(root, reason) => text::cat4(
                "lease directory ",
                root.as_str(),
                " is unsafe: ",
                reason.as_str(),
            ),
            Error::UnknownFileName(name) => text::cat3(
                "unexpected file ",
                quote::debug_quoted(name.as_str()).as_str(),
                " in the lease directory (expected <lease-id>.toml)",
            ),
            Error::CorruptRecord { name, reason } => text::cat4(
                "lease record ",
                quote::debug_quoted(name.as_str()).as_str(),
                " is corrupt: ",
                reason.as_str(),
            ),
            Error::MissingRecord(lease_id) => text::cat3(
                "lease record ",
                lease_id.as_str(),
                " does not exist",
            ),
            Error::TooLarge(size) => text::cat3(
                "lease record is ",
                text::decimal_text(*size as u64).as_str(),
                " bytes, limit is 4096",
            ),
            Error::NotUtf8 => String::from_str("lease record is not valid UTF-8"),
            Error::Toml(problem) => text::cat2(
                "lease record is not valid TOML: ",
                problem.message().as_str(),
            ),
            Error::UnsupportedVersion(version) => text::cat3(
                "lease record version ",
                text::decimal_text(*version as u64).as_str(),
                " is unsupported",
            ),
            Error::InvalidLeaseId(lease_id) => text::cat3(
                "lease id ",
                quote::debug_quoted(lease_id.as_str()).as_str(),
                " is not 32 lowercase hex characters",
            ),
            Error::MismatchedLeaseId { expected, found } => text::cat4(
                "lease record names incarnation ",
                quote::debug_quoted(found.as_str()).as_str(),
                ", expected ",
                quote::debug_quoted(expected.as_str()).as_str(),
            ),
            Error::InvalidSandboxId { reason } => text::cat2(
                "lease record sandbox id is invalid: ",
                reason.as_str(),
            ),
            Error::InvalidOwner { reason } => text::cat2(
                "lease record owner is invalid: ",
                reason.as_str(),
            ),
            Error::ZeroId => String::from_str("lease record maps UID or GID 0"),
            Error::InvalidState(state) => text::cat3(
                "lease record state ",
                quote::debug_quoted(state.as_str()).as_str(),
                " is invalid",
            ),
            Error::InvalidQuarantineReason => String::from_str(
                "lease record has a quarantine reason but is not quarantined",
            ),
        }
    }
}

// ---------------------------------------------------------------------------
// Lease ids

/// The text of a lease id.
pub open spec fn is_lease_id(s: Seq<char>) -> bool {
    s.len() == LEASE_ID_HEX && forall|i: int| 0 <= i < s.len() ==> token::is_hex(#[trigger] s[i])
}

/// Validate the text of a lease id.
pub fn validate_lease_id(lease_id: &str) -> (r: Result<(), Error>)
    ensures
        match r {
            Ok(_) => is_lease_id(lease_id@),
            Err(error) => !is_lease_id(lease_id@) && error@ == ErrorView::InvalidLeaseId(
                lease_id@,
            ),
        },
{
    let chars = text::chars_of(lease_id);
    let mut valid = chars.len() == LEASE_ID_HEX;
    let mut i: usize = 0;
    while valid && i < chars.len()
        invariant
            i <= chars@.len(),
            chars@ == lease_id@,
            valid ==> chars@.len() == LEASE_ID_HEX && forall|k: int|
                0 <= k < i ==> token::is_hex(#[trigger] lease_id@[k]),
            !valid ==> !is_lease_id(lease_id@),
        decreases chars@.len() - i,
    {
        let c = chars[i];
        if !(('0' <= c && c <= '9') || ('a' <= c && c <= 'f')) {
            assert(!token::is_hex(lease_id@[i as int]));
            valid = false;
        }
        i = i + 1;
    }
    if valid {
        Ok(())
    } else {
        Err(Error::InvalidLeaseId(lease_id.to_owned()))
    }
}

/// The lease id of a 128-bit token.
pub fn lease_id_of(token: u128) -> (r: String)
    ensures
        r@ == token::token_of(token),
        is_lease_id(r@),
{
    proof {
        token::lemma_hex_text(token as nat, token::TOKEN_HEX as nat);
    }
    token::token_text(token)
}

/// A random lease token in lower-case hexadecimal. Length and alphabet make it
/// a safe single path component by construction.
pub fn new_lease_id() -> (r: String)
    ensures
        is_lease_id(r@),
{
    lease_id_of(token::random_token())
}

/// Distinct tokens have distinct lease ids.
pub proof fn lease_ids_tell_tokens_apart(a: u128, b: u128)
    requires
        token::token_of(a) == token::token_of(b),
    ensures
        a == b,
{
    token::tokens_tell_apart(a, b);
}

// ---------------------------------------------------------------------------
// Records

/// Durable lease state. All four recorded states exclude their UID and GID
/// from allocation; only record removal makes a pair free.
#[derive(Debug, Clone, Copy, PartialEq, Eq, PartialOrd, Ord, Structural)]
pub enum LeaseState {
    /// Allocated; the durable sandbox is not yet published.
    Reserved,
    /// The durable sandbox exists; the pair is leased to it.
    Active,
    /// Deletion is in progress; the pair is not free until verified release.
    Releasing,
    /// Ambiguous state requiring operator repair; never auto-allocated.
    Quarantined,
}

/// The name of a state.
pub open spec fn state_text(state: LeaseState) -> Seq<char> {
    match state {
        LeaseState::Reserved => "reserved"@,
        LeaseState::Active => "active"@,
        LeaseState::Releasing => "releasing"@,
        LeaseState::Quarantined => "quarantined"@,
    }
}

/// The state of a name.
pub open spec fn state_of(raw: Seq<char>) -> Option<LeaseState> {
    if raw == "reserved"@ {
        Some(LeaseState::Reserved)
    } else if raw == "active"@ {
        Some(LeaseState::Active)
    } else if raw == "releasing"@ {
        Some(LeaseState::Releasing)
    } else if raw == "quarantined"@ {
        Some(LeaseState::Quarantined)
    } else {
        None
    }
}

impl LeaseState {
    /// The name of the state.
    pub fn as_str(self) -> (r: &'static str)
        ensures
            r@ == state_text(self),
    {
        match self {
            LeaseState::Reserved => "reserved",
            LeaseState::Active => "active",
            LeaseState::Releasing => "releasing",
            LeaseState::Quarantined => "quarantined",
        }
    }

    /// The state of a name.
    pub fn parse(raw: &str) -> (r: Result<LeaseState, Error>)
        ensures
            match state_of(raw@) {
                Some(state) => r == Ok::<LeaseState, Error>(state),
                None => r matches Err(error) && error@ == ErrorView::InvalidState(raw@),
            },
    {
        if text::same_text(raw, "reserved") {
            Ok(LeaseState::Reserved)
        } else if text::same_text(raw, "active") {
            Ok(LeaseState::Active)
        } else if text::same_text(raw, "releasing") {
            Ok(LeaseState::Releasing)
        } else if text::same_text(raw, "quarantined") {
            Ok(LeaseState::Quarantined)
        } else {
            Err(Error::InvalidState(raw.to_owned()))
        }
    }
}

/// The name of a state reads back as the state.
pub proof fn state_round_trip(state: LeaseState)
    ensures
        state_of(state_text(state)) == Some(state),
{
    reveal_strlit("reserved");
    reveal_strlit("active");
    reveal_strlit("releasing");
    reveal_strlit("quarantined");
    assert("reserved"@[2] != "releasing"@[2]);
    assert("active"@.len() != "reserved"@.len());
    assert("active"@.len() != "releasing"@.len());
    assert("quarantined"@.len() != "reserved"@.len());
    assert("quarantined"@.len() != "releasing"@.len());
    assert("quarantined"@.len() != "active"@.len());
}

/// A lease record. `lease_id` identifies one sandbox incarnation; any release
/// or cleanup must present the exact expected `lease_id`, so a stale cleanup
/// from an old incarnation can never remove a newer lease.
#[derive(Debug, PartialEq, Eq)]
pub struct LeaseRecord {
    pub lease_id: String,
    pub sandbox_id: SandboxId,
    pub owner: KeyFingerprint,
    pub uid: u32,
    pub gid: u32,
    pub state: LeaseState,
    /// Why this lease was quarantined, if it is quarantined.
    pub quarantine_reason: Option<String>,
}

/// The contents of a [`LeaseRecord`].
pub struct RecordView {
    pub lease_id: Seq<char>,
    pub sandbox_id: Seq<char>,
    pub owner: Seq<char>,
    pub uid: u32,
    pub gid: u32,
    pub state: LeaseState,
    pub quarantine_reason: Option<Seq<char>>,
}

impl View for LeaseRecord {
    type V = RecordView;

    open spec fn view(&self) -> RecordView {
        RecordView {
            lease_id: self.lease_id@,
            sandbox_id: self.sandbox_id@,
            owner: self.owner@,
            uid: self.uid,
            gid: self.gid,
            state: self.state,
            quarantine_reason: text::optional(self.quarantine_reason),
        }
    }
}

impl RecordView {
    /// What a decoded record always satisfies.
    pub open spec fn well_formed(self) -> bool {
        &&& is_lease_id(self.lease_id)
        &&& id::is_sandbox_id(self.sandbox_id)
        &&& fingerprint::is_fingerprint(self.owner)
        &&& self.uid != 0
        &&& self.gid != 0
        &&& self.quarantine_reason is Some ==> self.state == LeaseState::Quarantined
    }

    /// The record in another state. Only a quarantined record keeps a reason.
    pub open spec fn with_state(self, state: LeaseState) -> RecordView {
        RecordView {
            state,
            quarantine_reason: if state == LeaseState::Quarantined {
                self.quarantine_reason
            } else {
                None
            },
            ..self
        }
    }

    /// The record quarantined for a reason.
    pub open spec fn quarantined(self, reason: Seq<char>) -> RecordView {
        RecordView {
            state: LeaseState::Quarantined,
            quarantine_reason: Some(reason),
            ..self
        }
    }

    /// Whether two records are of the same incarnation.
    pub open spec fn same_incarnation(self, other: RecordView) -> bool {
        &&& self.lease_id == other.lease_id
        &&& self.sandbox_id == other.sandbox_id
        &&& self.owner == other.owner
        &&& self.uid == other.uid
        &&& self.gid == other.gid
    }
}

/// Changing the state keeps a record well formed and the same incarnation.
pub proof fn transitions_keep_the_incarnation(
    record: RecordView,
    state: LeaseState,
    reason: Seq<char>,
)
    requires
        record.well_formed(),
    ensures
        record.with_state(state).well_formed(),
        record.with_state(state).same_incarnation(record),
        record.quarantined(reason).well_formed(),
        record.quarantined(reason).same_incarnation(record),
{
}

/// The fields of a record that every state has.
pub open spec fn fixed_entries(record: RecordView) -> Seq<(Seq<char>, ScalarView)> {
    Seq::<(Seq<char>, ScalarView)>::empty().push(("version"@, ScalarView::Integer(1))).push(
        ("lease_id"@, ScalarView::Text(record.lease_id)),
    ).push(("sandbox_id"@, ScalarView::Text(record.sandbox_id))).push(
        ("owner"@, ScalarView::Text(record.owner)),
    ).push(("uid"@, ScalarView::Integer(record.uid as int))).push(
        ("gid"@, ScalarView::Integer(record.gid as int)),
    ).push(("state"@, ScalarView::Text(state_text(record.state))))
}

/// The fields of a record, in their durable order.
pub open spec fn record_entries(record: RecordView) -> Seq<(Seq<char>, ScalarView)> {
    match record.quarantine_reason {
        Some(reason) => fixed_entries(record).push(
            ("quarantine_reason"@, ScalarView::Text(reason)),
        ),
        None => fixed_entries(record),
    }
}

/// The durable form of a record: its fields in a stable order, one per line.
pub open spec fn record_text(record: RecordView) -> Seq<char> {
    tables::document_text(record_entries(record))
}

/// The text and the table of a record's fields.
proof fn lemma_fixed_entries(record: RecordView)
    ensures
        tables::document_text(fixed_entries(record)) == tables::line_text("version"@, "1"@)
            + tables::line_text("lease_id"@, tables::basic_string(record.lease_id)) + tables::line_text(
            "sandbox_id"@,
            tables::basic_string(record.sandbox_id),
        ) + tables::line_text("owner"@, tables::basic_string(record.owner)) + tables::line_text(
            "uid"@,
            text::decimal(record.uid as nat),
        ) + tables::line_text("gid"@, text::decimal(record.gid as nat)) + tables::line_text(
            "state"@,
            tables::basic_string(state_text(record.state)),
        ),
        tables::document_table(fixed_entries(record)) == Map::<Seq<char>, ScalarView>::empty().insert(
            "version"@,
            ScalarView::Integer(1),
        ).insert("lease_id"@, ScalarView::Text(record.lease_id)).insert(
            "sandbox_id"@,
            ScalarView::Text(record.sandbox_id),
        ).insert("owner"@, ScalarView::Text(record.owner)).insert(
            "uid"@,
            ScalarView::Integer(record.uid as int),
        ).insert("gid"@, ScalarView::Integer(record.gid as int)).insert(
            "state"@,
            ScalarView::Text(state_text(record.state)),
        ),
{
    let e0 = Seq::<(Seq<char>, ScalarView)>::empty();
    let e1 = e0.push(("version"@, ScalarView::Integer(1)));
    let e2 = e1.push(("lease_id"@, ScalarView::Text(record.lease_id)));
    let e3 = e2.push(("sandbox_id"@, ScalarView::Text(record.sandbox_id)));
    let e4 = e3.push(("owner"@, ScalarView::Text(record.owner)));
    let e5 = e4.push(("uid"@, ScalarView::Integer(record.uid as int)));
    let e6 = e5.push(("gid"@, ScalarView::Integer(record.gid as int)));
    tables::lemma_document_push(e0, "version"@, ScalarView::Integer(1));
    tables::lemma_document_push(e1, "lease_id"@, ScalarView::Text(record.lease_id));
    tables::lemma_document_push(e2, "sandbox_id"@, ScalarView::Text(record.sandbox_id));
    tables::lemma_document_push(e3, "owner"@, ScalarView::Text(record.owner));
    tables::lemma_document_push(e4, "uid"@, ScalarView::Integer(record.uid as int));
    tables::lemma_document_push(e5, "gid"@, ScalarView::Integer(record.gid as int));
    tables::lemma_document_push(e6, "state"@, ScalarView::Text(state_text(record.state)));
    reveal_strlit("1");
    assert(text::decimal(1) =~= "1"@);
    assert(tables::document_text(e0) =~= Seq::<char>::empty());
    let version = tables::line_text("version"@, "1"@);
    assert(Seq::<char>::empty() + version =~= version);
}

/// The field names of a record are distinct bare keys.
proof fn lemma_field_names()
    ensures
        tables::is_bare_key("version"@),
        tables::is_bare_key("lease_id"@),
        tables::is_bare_key("sandbox_id"@),
        tables::is_bare_key("owner"@),
        tables::is_bare_key("uid"@),
        tables::is_bare_key("gid"@),
        tables::is_bare_key("state"@),
        tables::is_bare_key("quarantine_reason"@),
        seq![
            "version"@,
            "lease_id"@,
            "sandbox_id"@,
            "owner"@,
            "uid"@,
            "gid"@,
            "state"@,
            "quarantine_reason"@,
        ].no_duplicates(),
{
    reveal_strlit("version");
    reveal_strlit("lease_id");
    reveal_strlit("sandbox_id");
    reveal_strlit("owner");
    reveal_strlit("uid");
    reveal_strlit("gid");
    reveal_strlit("state");
    reveal_strlit("quarantine_reason");
    assert("version"@[0] == 'v');
    assert("lease_id"@[0] == 'l');
    assert("sandbox_id"@[1] == 'a');
    assert("owner"@[0] == 'o');
    assert("uid"@[0] == 'u');
    assert("gid"@[0] == 'g');
    assert("state"@[1] == 't');
    assert("quarantine_reason"@[0] == 'q');
    assert("sandbox_id"@[0] == 's');
    assert("state"@[0] == 's');
}

/// The entries of a record are a plain document.
proof fn lemma_entries_plain(record: RecordView)
    ensures
        tables::is_plain_document(record_entries(record)),
{
    let names = seq![
        "version"@,
        "lease_id"@,
        "sandbox_id"@,
        "owner"@,
        "uid"@,
        "gid"@,
        "state"@,
        "quarantine_reason"@,
    ];
    lemma_field_names();
    let entries = record_entries(record);
    assert forall|i: int| 0 <= i < entries.len() implies (#[trigger] entries[i]).0 == names[i] by {}
    assert forall|i: int, j: int| 0 <= i < j < entries.len() implies (#[trigger] entries[i]).0 != (
    #[trigger] entries[j]).0 by {
        assert(entries[i].0 == names[i]);
        assert(entries[j].0 == names[j]);
    }
}

/// What the durable form of a record reads back as: the record, or, where
/// another lease was expected, the error that names both.
pub open spec fn read_back(record: RecordView, expected: Seq<char>) -> Result<
    RecordView,
    ErrorView,
> {
    if record.lease_id == expected {
        Ok(record)
    } else {
        Err(ErrorView::MismatchedLeaseId { expected, found: record.lease_id })
    }
}

/// The entries of a well-formed record read back as the record.
proof fn lemma_entries_read_back(record: RecordView, expected: Seq<char>)
    requires
        record.well_formed(),
    ensures
        parsed(Ok(tables::document_table(record_entries(record))), expected) == read_back(
            record,
            expected,
        ),
{
    let names = seq![
        "version"@,
        "lease_id"@,
        "sandbox_id"@,
        "owner"@,
        "uid"@,
        "gid"@,
        "state"@,
        "quarantine_reason"@,
    ];
    lemma_field_names();
    lemma_fixed_entries(record);
    state_round_trip(record.state);
    assert(names[0] == "version"@ && names[1] == "lease_id"@ && names[2] == "sandbox_id"@
        && names[3] == "owner"@ && names[4] == "uid"@ && names[5] == "gid"@ && names[6] == "state"@
        && names[7] == "quarantine_reason"@);
    let table = tables::document_table(record_entries(record));
    if let Some(reason) = record.quarantine_reason {
        tables::lemma_document_push(
            fixed_entries(record),
            "quarantine_reason"@,
            ScalarView::Text(reason),
        );
    }
    assert forall|key: Seq<char>| table.dom().contains(key) implies #[trigger] is_field(key) by {}
    assert(raw_of(table) matches Ok(raw) && validated(raw, expected) == read_back(
        record,
        expected,
    ));
}

// ---------------------------------------------------------------------------
// Decoding

/// A record as it stands in a file, before its values are validated.
#[derive(Debug)]
pub struct RawLease {
    pub version: u32,
    pub lease_id: String,
    pub sandbox_id: String,
    pub owner: String,
    pub uid: u32,
    pub gid: u32,
    pub state: String,
    pub quarantine_reason: Option<String>,
}

/// The contents of a [`RawLease`].
pub struct RawLeaseView {
    pub version: u32,
    pub lease_id: Seq<char>,
    pub sandbox_id: Seq<char>,
    pub owner: Seq<char>,
    pub uid: u32,
    pub gid: u32,
    pub state: Seq<char>,
    pub quarantine_reason: Option<Seq<char>>,
}

impl View for RawLease {
    type V = RawLeaseView;

    open spec fn view(&self) -> RawLeaseView {
        RawLeaseView {
            version: self.version,
            lease_id: self.lease_id@,
            sandbox_id: self.sandbox_id@,
            owner: self.owner@,
            uid: self.uid,
            gid: self.gid,
            state: self.state@,
            quarantine_reason: text::optional(self.quarantine_reason),
        }
    }
}

/// The fields a record may have.
pub open spec fn is_field(key: Seq<char>) -> bool {
    ||| key == "version"@
    ||| key == "lease_id"@
    ||| key == "sandbox_id"@
    ||| key == "owner"@
    ||| key == "uid"@
    ||| key == "gid"@
    ||| key == "state"@
    ||| key == "quarantine_reason"@
}

/// A required 32-bit field.
pub open spec fn number_field(table: Map<Seq<char>, ScalarView>, key: Seq<char>) -> Result<
    u32,
    TomlProblemView,
> {
    if !table.dom().contains(key) {
        Err(TomlProblemView::MissingField(key))
    } else {
        match table[key] {
            ScalarView::Integer(n) if 0 <= n <= u32::MAX => Ok(n as u32),
            _ => Err(TomlProblemView::InvalidField(key)),
        }
    }
}

/// A required string field.
pub open spec fn text_field(table: Map<Seq<char>, ScalarView>, key: Seq<char>) -> Result<
    Seq<char>,
    TomlProblemView,
> {
    if !table.dom().contains(key) {
        Err(TomlProblemView::MissingField(key))
    } else {
        match table[key] {
            ScalarView::Text(s) => Ok(s),
            _ => Err(TomlProblemView::InvalidField(key)),
        }
    }
}

/// An optional string field.
pub open spec fn optional_field(table: Map<Seq<char>, ScalarView>, key: Seq<char>) -> Result<
    Option<Seq<char>>,
    TomlProblemView,
> {
    if !table.dom().contains(key) {
        Ok(None)
    } else {
        match table[key] {
            ScalarView::Text(s) => Ok(Some(s)),
            _ => Err(TomlProblemView::InvalidField(key)),
        }
    }
}

/// The raw record of a table: no unknown field, every required field, every
/// field of its type.
pub open spec fn raw_of(table: Map<Seq<char>, ScalarView>) -> Result<
    RawLeaseView,
    TomlProblemView,
> {
    if exists|key: Seq<char>| table.dom().contains(key) && !#[trigger] is_field(key) {
        Err(TomlProblemView::UnknownField)
    } else {
        match number_field(table, "version"@) {
            Err(p) => Err(p),
            Ok(version) => match text_field(table, "lease_id"@) {
                Err(p) => Err(p),
                Ok(lease_id) => match text_field(table, "sandbox_id"@) {
                    Err(p) => Err(p),
                    Ok(sandbox_id) => match text_field(table, "owner"@) {
                        Err(p) => Err(p),
                        Ok(owner) => match number_field(table, "uid"@) {
                            Err(p) => Err(p),
                            Ok(uid) => match number_field(table, "gid"@) {
                                Err(p) => Err(p),
                                Ok(gid) => match text_field(table, "state"@) {
                                    Err(p) => Err(p),
                                    Ok(state) => match optional_field(
                                        table,
                                        "quarantine_reason"@,
                                    ) {
                                        Err(p) => Err(p),
                                        Ok(quarantine_reason) => Ok(
                                            RawLeaseView {
                                                version,
                                                lease_id,
                                                sandbox_id,
                                                owner,
                                                uid,
                                                gid,
                                                state,
                                                quarantine_reason,
                                            },
                                        ),
                                    },
                                },
                            },
                        },
                    },
                },
            },
        }
    }
}

/// The record of raw values that must name the expected lease, or the first
/// value that is wrong.
pub open spec fn validated(raw: RawLeaseView, expected: Seq<char>) -> Result<
    RecordView,
    ErrorView,
> {
    if raw.version != VERSION {
        Err(ErrorView::UnsupportedVersion(raw.version))
    } else if raw.lease_id != expected {
        Err(ErrorView::MismatchedLeaseId { expected, found: raw.lease_id })
    } else if !is_lease_id(raw.lease_id) {
        Err(ErrorView::InvalidLeaseId(raw.lease_id))
    } else if !id::is_sandbox_id(raw.sandbox_id) {
        Err(
            ErrorView::InvalidSandboxId {
                reason: "sandbox id is not a single printable path component"@,
            },
        )
    } else {
        match fingerprint::fingerprint_error(raw.owner) {
            Some(error) => Err(
                ErrorView::InvalidOwner { reason: fingerprint::fingerprint_error_text(error) },
            ),
            None => if raw.uid == 0 || raw.gid == 0 {
                Err(ErrorView::ZeroId)
            } else {
                match state_of(raw.state) {
                    None => Err(ErrorView::InvalidState(raw.state)),
                    Some(state) => if raw.quarantine_reason is Some && state
                        != LeaseState::Quarantined {
                        Err(ErrorView::InvalidQuarantineReason)
                    } else {
                        Ok(
                            RecordView {
                                lease_id: raw.lease_id,
                                sandbox_id: raw.sandbox_id,
                                owner: raw.owner,
                                uid: raw.uid,
                                gid: raw.gid,
                                state,
                                quarantine_reason: raw.quarantine_reason,
                            },
                        )
                    },
                }
            },
        }
    }
}

/// The record of a parsed document.
pub open spec fn parsed(
    document: Result<Map<Seq<char>, ScalarView>, Seq<char>>,
    expected: Seq<char>,
) -> Result<RecordView, ErrorView> {
    match document {
        Err(message) => Err(ErrorView::Toml(TomlProblemView::Syntax(message))),
        Ok(table) => match raw_of(table) {
            Err(problem) => Err(ErrorView::Toml(problem)),
            Ok(raw) => validated(raw, expected),
        },
    }
}

/// The record of the bytes of a file.
pub open spec fn decoded(bytes: Seq<u8>, expected: Seq<char>) -> Result<RecordView, ErrorView> {
    if bytes.len() > MAX_RECORD_BYTES {
        Err(ErrorView::TooLarge(bytes.len() as usize))
    } else if !is_lease_id(expected) {
        Err(ErrorView::InvalidLeaseId(expected))
    } else if !vstd::utf8::valid_utf8(bytes) {
        Err(ErrorView::NotUtf8)
    } else {
        parsed(tables::toml_table(vstd::utf8::decode_utf8(bytes)), expected)
    }
}

/// A decoded record is well formed, and it names the expected lease.
pub proof fn decoded_records_are_well_formed(bytes: Seq<u8>, expected: Seq<char>)
    ensures
        decoded(bytes, expected) matches Ok(record) ==> record.well_formed() && record.lease_id
            == expected,
{
}

/// Whether a decoding result is the given outcome.
pub open spec fn is_outcome(
    r: Result<LeaseRecord, Error>,
    outcome: Result<RecordView, ErrorView>,
) -> bool {
    match outcome {
        Ok(expected) => r matches Ok(record) && record@ == expected,
        Err(expected) => r matches Err(error) && error@ == expected,
    }
}

fn known_field(key: &str) -> (r: bool)
    ensures
        r == is_field(key@),
{
    text::same_text(key, "version") || text::same_text(key, "lease_id") || text::same_text(
        key,
        "sandbox_id",
    ) || text::same_text(key, "owner") || text::same_text(key, "uid") || text::same_text(key, "gid")
        || text::same_text(key, "state") || text::same_text(key, "quarantine_reason")
}

fn take_number(entries: &Vec<(String, Scalar)>, key: &str) -> (r: Result<u32, TomlProblem>)
    ensures
        match number_field(tables::table_of(entries@), key@) {
            Ok(n) => r == Ok::<u32, TomlProblem>(n),
            Err(expected) => r matches Err(problem) && problem@ == expected,
        },
{
    match tables::lookup(entries, key) {
        None => Err(TomlProblem::MissingField(key.to_owned())),
        Some(value) => match value {
            Scalar::Integer(n) => {
                if *n >= 0 && *n <= u32::MAX as i64 {
                    Ok(*n as u32)
                } else {
                    Err(TomlProblem::InvalidField(key.to_owned()))
                }
            },
            _ => Err(TomlProblem::InvalidField(key.to_owned())),
        },
    }
}

fn take_text(entries: &Vec<(String, Scalar)>, key: &str) -> (r: Result<String, TomlProblem>)
    ensures
        match text_field(tables::table_of(entries@), key@) {
            Ok(s) => r matches Ok(found) && found@ == s,
            Err(expected) => r matches Err(problem) && problem@ == expected,
        },
{
    match tables::lookup(entries, key) {
        None => Err(TomlProblem::MissingField(key.to_owned())),
        Some(value) => match value {
            Scalar::Text(s) => Ok(s.clone()),
            _ => Err(TomlProblem::InvalidField(key.to_owned())),
        },
    }
}

fn take_optional(entries: &Vec<(String, Scalar)>, key: &str) -> (r: Result<
    Option<String>,
    TomlProblem,
>)
    ensures
        match optional_field(tables::table_of(entries@), key@) {
            Ok(s) => r matches Ok(found) && text::optional(found) == s,
            Err(expected) => r matches Err(problem) && problem@ == expected,
        },
{
    match tables::lookup(entries, key) {
        None => Ok(None),
        Some(value) => match value {
            Scalar::Text(s) => Ok(Some(s.clone())),
            _ => Err(TomlProblem::InvalidField(key.to_owned())),
        },
    }
}

impl RawLease {
    /// Read the fields of a table.
    pub fn from_entries(entries: &Vec<(String, Scalar)>) -> (r: Result<RawLease, TomlProblem>)
        ensures
            match raw_of(tables::table_of(entries@)) {
                Ok(expected) => r matches Ok(raw) && raw@ == expected,
                Err(expected) => r matches Err(problem) && problem@ == expected,
            },
    {
        let ghost table = tables::table_of(entries@);
        let mut i: usize = 0;
        while i < entries.len()
            invariant
                i <= entries@.len(),
                table == tables::table_of(entries@),
                forall|k: int| 0 <= k < i ==> is_field((#[trigger] entries@[k]).0@),
            decreases entries@.len() - i,
        {
            if !known_field(entries[i].0.as_str()) {
                proof {
                    tables::lemma_table_keys(entries@, entries@[i as int].0@);
                    assert(table.dom().contains(entries@[i as int].0@) && !is_field(
                        entries@[i as int].0@,
                    ));
                }
                return Err(TomlProblem::UnknownField);
            }
            i = i + 1;
        }
        assert forall|key: Seq<char>| table.dom().contains(key) implies #[trigger] is_field(
            key,
        ) by {
            tables::lemma_table_keys(entries@, key);
        }
        let version = match take_number(entries, "version") {
            Ok(v) => v,
            Err(p) => {
                return Err(p);
            },
        };
        let lease_id = match take_text(entries, "lease_id") {
            Ok(v) => v,
            Err(p) => {
                return Err(p);
            },
        };
        let sandbox_id = match take_text(entries, "sandbox_id") {
            Ok(v) => v,
            Err(p) => {
                return Err(p);
            },
        };
        let owner = match take_text(entries, "owner") {
            Ok(v) => v,
            Err(p) => {
                return Err(p);
            },
        };
        let uid = match take_number(entries, "uid") {
            Ok(v) => v,
            Err(p) => {
                return Err(p);
            },
        };
        let gid = match take_number(entries, "gid") {
            Ok(v) => v,
            Err(p) => {
                return Err(p);
            },
        };
        let state = match take_text(entries, "state") {
            Ok(v) => v,
            Err(p) => {
                return Err(p);
            },
        };
        let quarantine_reason = match take_optional(entries, "quarantine_reason") {
            Ok(v) => v,
            Err(p) => {
                return Err(p);
            },
        };
        Ok(
            RawLease {
                version,
                lease_id,
                sandbox_id,
                owner,
                uid,
                gid,
                state,
                quarantine_reason,
            },
        )
    }
}

impl Clone for LeaseRecord {
    fn clone(&self) -> (r: LeaseRecord)
        ensures
            r@ == self@,
    {
        LeaseRecord {
            lease_id: self.lease_id.clone(),
            sandbox_id: self.sandbox_id.clone(),
            owner: self.owner.clone(),
            uid: self.uid,
            gid: self.gid,
            state: self.state,
            quarantine_reason: text::copy_optional(&self.quarantine_reason),
        }
    }
}

impl LeaseRecord {
    /// The record in another state. Only a quarantined record keeps a reason.
    pub fn with_state(&self, state: LeaseState) -> (r: LeaseRecord)
        ensures
            r@ == self@.with_state(state),
    {
        LeaseRecord {
            lease_id: self.lease_id.clone(),
            sandbox_id: self.sandbox_id.clone(),
            owner: self.owner.clone(),
            uid: self.uid,
            gid: self.gid,
            state,
            quarantine_reason: if state == LeaseState::Quarantined {
                text::copy_optional(&self.quarantine_reason)
            } else {
                None
            },
        }
    }

    /// The record quarantined for a reason.
    pub fn with_quarantine_reason(&self, reason: &str) -> (r: LeaseRecord)
        ensures
            r@ == self@.quarantined(reason@),
    {
        let mut record = self.with_state(LeaseState::Quarantined);
        record.quarantine_reason = Some(reason.to_owned());
        record
    }

    /// Encode in a stable field order.
    pub fn encode(&self) -> (r: String)
        ensures
            r@ == record_text(self@),
    {
        let id_text = self.sandbox_id.as_str();
        let owner_text = self.owner.as_str();
        let mut out = tables::line("version", "1");
        let lease_id = tables::basic_string_text(self.lease_id.as_str());
        out.append(tables::line("lease_id", lease_id.as_str()).as_str());
        let sandbox_id = tables::basic_string_text(id_text);
        out.append(tables::line("sandbox_id", sandbox_id.as_str()).as_str());
        let owner = tables::basic_string_text(owner_text);
        out.append(tables::line("owner", owner.as_str()).as_str());
        let uid = text::decimal_text(self.uid as u64);
        out.append(tables::line("uid", uid.as_str()).as_str());
        let gid = text::decimal_text(self.gid as u64);
        out.append(tables::line("gid", gid.as_str()).as_str());
        let state = tables::basic_string_text(self.state.as_str());
        out.append(tables::line("state", state.as_str()).as_str());
        proof {
            lemma_fixed_entries(self@);
        }
        if let Some(reason) = &self.quarantine_reason {
            let why = tables::basic_string_text(reason.as_str());
            out.append(tables::line("quarantine_reason", why.as_str()).as_str());
            proof {
                tables::lemma_document_push(
                    fixed_entries(self@),
                    "quarantine_reason"@,
                    ScalarView::Text(reason@),
                );
            }
        }
        out
    }

    /// The record's file name, `<lease_id>.toml`. The lease token is the name,
    /// so file identity and incarnation identity are the same thing.
    pub fn file_name(&self) -> (r: String)
        ensures
            r@ == file_name_of(self@.lease_id),
    {
        text::cat2(self.lease_id.as_str(), ".toml")
    }

    /// Validate raw values that must name the expected lease.
    pub fn validate(raw: RawLease, expected_lease_id: &str) -> (r: Result<LeaseRecord, Error>)
        ensures
            is_outcome(r, validated(raw@, expected_lease_id@)),
    {
        if raw.version != VERSION {
            return Err(Error::UnsupportedVersion(raw.version));
        }
        if !text::same_text(raw.lease_id.as_str(), expected_lease_id) {
            return Err(
                Error::MismatchedLeaseId {
                    expected: expected_lease_id.to_owned(),
                    found: raw.lease_id,
                },
            );
        }
        match validate_lease_id(raw.lease_id.as_str()) {
            Ok(_) => {},
            Err(error) => {
                return Err(error);
            },
        }
        let sandbox_id = match SandboxId::parse(raw.sandbox_id.as_str()) {
            Ok(id) => id,
            Err(error) => {
                return Err(Error::InvalidSandboxId { reason: error.message() });
            },
        };
        let owner = match KeyFingerprint::parse(raw.owner.as_str()) {
            Ok(owner) => owner,
            Err(error) => {
                return Err(Error::InvalidOwner { reason: error.message() });
            },
        };
        if raw.uid == 0 || raw.gid == 0 {
            return Err(Error::ZeroId);
        }
        let state = match LeaseState::parse(raw.state.as_str()) {
            Ok(state) => state,
            Err(error) => {
                return Err(error);
            },
        };
        if raw.quarantine_reason.is_some() && state != LeaseState::Quarantined {
            return Err(Error::InvalidQuarantineReason);
        }
        Ok(
            LeaseRecord {
                lease_id: raw.lease_id,
                sandbox_id,
                owner,
                uid: raw.uid,
                gid: raw.gid,
                state,
                quarantine_reason: raw.quarantine_reason,
            },
        )
    }

    /// Validate a parsed document that must name the expected lease.
    pub fn from_document(
        document: Result<Vec<(String, Scalar)>, String>,
        expected_lease_id: &str,
    ) -> (r: Result<LeaseRecord, Error>)
        ensures
            is_outcome(r, parsed(document_view(document), expected_lease_id@)),
    {
        match document {
            Err(message) => Err(Error::Toml(TomlProblem::Syntax(message))),
            Ok(entries) => match RawLease::from_entries(&entries) {
                Err(problem) => Err(Error::Toml(problem)),
                Ok(raw) => LeaseRecord::validate(raw, expected_lease_id),
            },
        }
    }

    /// Decode the bytes of a record file that must name the expected lease.
    /// Decoding gives back every well-formed record that was encoded within the
    /// size limit, whatever its quarantine reason holds; under the id of any
    /// other lease it is refused.
    pub fn decode(bytes: &[u8], expected_lease_id: &str) -> (r: Result<LeaseRecord, Error>)
        ensures
            is_outcome(r, decoded(bytes@, expected_lease_id@)),
            forall|record: RecordView|
                #![trigger record_text(record)]
                record.well_formed() && is_lease_id(expected_lease_id@) && bytes@.len()
                    <= MAX_RECORD_BYTES && bytes@ == vstd::utf8::encode_utf8(record_text(record))
                    ==> is_outcome(r, read_back(record, expected_lease_id@)),
    {
        if bytes.len() > MAX_RECORD_BYTES {
            return Err(Error::TooLarge(bytes.len()));
        }
        match validate_lease_id(expected_lease_id) {
            Ok(_) => {},
            Err(error) => {
                return Err(error);
            },
        }
        let content = match text::utf8_text(bytes) {
            Some(content) => content,
            None => {
                proof {
                    assert forall|record: RecordView|
                        #![trigger record_text(record)]
                        bytes@ == vstd::utf8::encode_utf8(
                            tables::document_text(record_entries(record)),
                        ) implies false by {
                        vstd::utf8::encode_utf8_valid_utf8(
                            tables::document_text(record_entries(record)),
                        );
                    }
                }
                return Err(Error::NotUtf8);
            },
        };
        let document = tables::parse_table(content);
        let ghost outcome = document;
        let r = LeaseRecord::from_document(document, expected_lease_id);
        proof {
            assert(document_view(outcome) == tables::toml_table(content@));
            assert forall|record: RecordView|
                #![trigger record_text(record)]
                record.well_formed() && bytes@ == vstd::utf8::encode_utf8(
                    record_text(record),
                ) implies is_outcome(r, read_back(record, expected_lease_id@)) by {
                let entries = record_entries(record);
                vstd::utf8::encode_utf8_decode_utf8(tables::document_text(entries));
                lemma_entries_plain(record);
                assert(content@ == tables::document_text(entries));
                lemma_entries_read_back(record, expected_lease_id@);
            }
        }
        r
    }
}

/// The contents of a parsed document.
pub open spec fn document_view(document: Result<Vec<(String, Scalar)>, String>) -> Result<
    Map<Seq<char>, ScalarView>,
    Seq<char>,
> {
    match document {
        Ok(entries) => Ok(tables::table_of(entries@)),
        Err(message) => Err(message@),
    }
}

/// The file name of a lease.
pub open spec fn file_name_of(lease_id: Seq<char>) -> Seq<char> {
    lease_id + ".toml"@
}

// ---------------------------------------------------------------------------
// The store

/// What a name in the lease directory stands for.
#[derive(Debug)]
pub enum NameClass {
    /// A crashed writer's temp file. It was never renamed into a lease, so it
    /// holds no live pair.
    Temp,
    /// The cross-process lock file, which is never removed.
    Lock,
    /// The record of a lease.
    Record { lease_id: String },
    /// Anything else.
    Unknown,
}

/// The contents of a [`NameClass`].
pub enum NameClassView {
    Temp,
    Lock,
    Record { lease_id: Seq<char> },
    Unknown,
}

impl View for NameClass {
    type V = NameClassView;

    open spec fn view(&self) -> NameClassView {
        match self {
            NameClass::Temp => NameClassView::Temp,
            NameClass::Lock => NameClassView::Lock,
            NameClass::Record { lease_id } => NameClassView::Record { lease_id: lease_id@ },
            NameClass::Unknown => NameClassView::Unknown,
        }
    }
}

/// The class of a name.
pub open spec fn class_of(name: Seq<char>) -> NameClassView {
    if ".lease.toml.tmp"@.is_prefix_of(name) {
        NameClassView::Temp
    } else if name == ".lease.lock"@ {
        NameClassView::Lock
    } else if ".toml"@.is_suffix_of(name) && is_lease_id(name.take(name.len() - 5)) {
        NameClassView::Record { lease_id: name.take(name.len() - 5) }
    } else {
        NameClassView::Unknown
    }
}

/// Classify a name of the lease directory.
pub fn classify_name(name: &str) -> (r: NameClass)
    ensures
        r@ == class_of(name@),
{
    proof {
        reveal_strlit(".toml");
    }
    let chars = text::chars_of(name);
    let temp = text::chars_of(".lease.toml.tmp");
    if text::has_prefix(chars.as_slice(), temp.as_slice()) {
        return NameClass::Temp;
    }
    if text::same_text(name, ".lease.lock") {
        return NameClass::Lock;
    }
    let suffix = text::chars_of(".toml");
    if !text::has_suffix(chars.as_slice(), suffix.as_slice()) {
        return NameClass::Unknown;
    }
    let stem = text::string_of(slice_subrange(chars.as_slice(), 0, chars.len() - 5));
    assert(stem@ =~= name@.take(name@.len() - 5));
    if validate_lease_id(stem.as_str()).is_ok() {
        NameClass::Record { lease_id: stem }
    } else {
        NameClass::Unknown
    }
}

/// The file name of a lease is classified as the record of that lease.
pub proof fn file_names_read_back(lease_id: Seq<char>)
    requires
        is_lease_id(lease_id),
    ensures
        class_of(file_name_of(lease_id)) == (NameClassView::Record { lease_id }),
{
    reveal_strlit(".toml");
    reveal_strlit(".lease.toml.tmp");
    reveal_strlit(".lease.lock");
    let name = file_name_of(lease_id);
    assert(token::is_hex(lease_id[0]));
    assert(name[0] == lease_id[0]);
    assert(".lease.lock"@[0] == '.');
    if ".lease.toml.tmp"@.is_prefix_of(name) {
        assert(".lease.toml.tmp"@[0] == name.subrange(0, ".lease.toml.tmp"@.len() as int)[0]);
    }
    assert(name.take(name.len() - 5) =~= lease_id);
    assert(".toml"@ =~= name.subrange(name.len() - 5, name.len() as int));
}

/// What the filesystem reports of one listed name.
#[derive(Debug)]
pub struct RecordFact {
    pub name: String,
    pub stat: Result<Stat, String>,
    pub bytes: Result<Vec<u8>, String>,
}

/// The record of one listed name.
pub open spec fn named_outcome(root: Seq<char>, fact: RecordFact) -> Result<RecordView, ErrorView> {
    match class_of(fact.name@) {
        NameClassView::Record { lease_id } => file_outcome(
            root,
            fact.name@,
            lease_id,
            fact.stat,
            fact.bytes,
        ),
        _ => Err(ErrorView::UnknownFileName(fact.name@)),
    }
}

/// The record of the file of a lease.
pub open spec fn file_outcome(
    root: Seq<char>,
    name: Seq<char>,
    lease_id: Seq<char>,
    stat: Result<Stat, String>,
    bytes: Result<Vec<u8>, String>,
) -> Result<RecordView, ErrorView> {
    match stat {
        Err(source) => Err(
            ErrorView::Io { root, operation: "stat a lease record"@, source: source@ },
        ),
        Ok(stat) => if !storage::regular_mode(stat.mode) {
            Err(ErrorView::UnknownFileName(name))
        } else if storage::shared_writable(stat.mode) {
            Err(
                ErrorView::CorruptRecord { name, reason: "record is group or world writable"@ },
            )
        } else {
            match bytes {
                Err(source) => Err(
                    ErrorView::Io { root, operation: "read a lease record"@, source: source@ },
                ),
                Ok(bytes) => match decoded(bytes@, lease_id) {
                    Ok(record) => Ok(record),
                    Err(error) => Err(
                        ErrorView::CorruptRecord { name, reason: error_text(error) },
                    ),
                },
            }
        },
    }
}

/// Whether a scan passes over a name.
pub open spec fn is_skipped(name: Seq<char>) -> bool {
    class_of(name) is Temp || class_of(name) is Lock
}

/// The records of the listed names in order, or the first error.
pub open spec fn listed_outcome(root: Seq<char>, facts: Seq<RecordFact>) -> Result<
    Seq<RecordView>,
    ErrorView,
>
    decreases facts.len(),
{
    if facts.len() == 0 {
        Ok(seq![])
    } else {
        match listed_outcome(root, facts.drop_last()) {
            Err(error) => Err(error),
            Ok(records) => if is_skipped(facts.last().name@) {
                Ok(records)
            } else {
                match named_outcome(root, facts.last()) {
                    Err(error) => Err(error),
                    Ok(record) => Ok(records.push(record)),
                }
            },
        }
    }
}

proof fn lemma_listing_stops(root: Seq<char>, facts: Seq<RecordFact>, n: int)
    requires
        0 <= n <= facts.len(),
        listed_outcome(root, facts.take(n)) is Err,
    ensures
        listed_outcome(root, facts) == listed_outcome(root, facts.take(n)),
    decreases facts.len() - n,
{
    if n == facts.len() {
        assert(facts.take(n) =~= facts);
    } else {
        assert(facts.take(n + 1).drop_last() =~= facts.take(n));
        lemma_listing_stops(root, facts, n + 1);
    }
}

/// A file in order that holds the durable form of a well-formed record.
pub open spec fn holds(
    stat: Result<Stat, String>,
    bytes: Result<Vec<u8>, String>,
    record: RecordView,
) -> bool {
    &&& record.well_formed()
    &&& stat matches Ok(stat) && storage::regular_mode(stat.mode) && !storage::shared_writable(
        stat.mode,
    )
    &&& bytes matches Ok(bytes) && bytes@.len() <= MAX_RECORD_BYTES && bytes@
        == vstd::utf8::encode_utf8(record_text(record))
}

/// The file of a record, as it was written.
pub open spec fn is_file_of(fact: RecordFact, record: RecordView) -> bool {
    fact.name@ == file_name_of(record.lease_id) && holds(fact.stat, fact.bytes, record)
}

/// The listed names are the files of these records, in order, among names that
/// a scan passes over.
pub open spec fn are_files_of(facts: Seq<RecordFact>, records: Seq<RecordView>) -> bool
    decreases facts.len(),
{
    if facts.len() == 0 {
        records.len() == 0
    } else if is_skipped(facts.last().name@) {
        are_files_of(facts.drop_last(), records)
    } else {
        records.len() > 0 && is_file_of(facts.last(), records.last()) && are_files_of(
            facts.drop_last(),
            records.drop_last(),
        )
    }
}

/// Whatever record the file of this name holds as it was written is what
/// reading it gives.
pub open spec fn reads_back(root: Seq<char>, fact: RecordFact) -> bool {
    forall|record: RecordView| #[trigger]
        is_file_of(fact, record) ==> named_outcome(root, fact) == Ok::<RecordView, ErrorView>(record)
}

proof fn lemma_some_file(facts: Seq<RecordFact>, records: Seq<RecordView>, i: int) -> (r: RecordView)
    requires
        are_files_of(facts, records),
        0 <= i < facts.len(),
        !is_skipped(facts[i].name@),
    ensures
        is_file_of(facts[i], r),
    decreases facts.len(),
{
    if i == facts.len() - 1 {
        records.last()
    } else if is_skipped(facts.last().name@) {
        lemma_some_file(facts.drop_last(), records, i)
    } else {
        lemma_some_file(facts.drop_last(), records.drop_last(), i)
    }
}

proof fn lemma_files_read_back(root: Seq<char>, facts: Seq<RecordFact>, records: Seq<RecordView>)
    requires
        are_files_of(facts, records),
        forall|i: int|
            0 <= i < facts.len() && !is_skipped((#[trigger] facts[i]).name@) ==> reads_back(
                root,
                facts[i],
            ),
    ensures
        listed_outcome(root, facts) == Ok::<Seq<RecordView>, ErrorView>(records),
    decreases facts.len(),
{
    if facts.len() > 0 {
        let rest = facts.drop_last();
        assert forall|i: int| 0 <= i < rest.len() && !is_skipped((#[trigger] rest[i]).name@) implies
            reads_back(root, rest[i]) by {
            assert(rest[i] == facts[i]);
        }
        if is_skipped(facts.last().name@) {
            lemma_files_read_back(root, rest, records);
        } else {
            lemma_files_read_back(root, rest, records.drop_last());
            assert(facts[facts.len() - 1] == facts.last());
            assert(reads_back(root, facts.last()));
            assert(records.drop_last().push(records.last()) =~= records);
        }
    } else {
        assert(records =~= Seq::<RecordView>::empty());
    }
}

/// Why a lease directory or its lock file is unsafe, if it is.
pub open spec fn unsafe_reason(stat: Stat, euid: u32, lock: bool) -> Option<Seq<char>> {
    if lock {
        if !storage::regular_mode(stat.mode) {
            Some("ledger lock file is not a regular file"@)
        } else if stat.uid != euid {
            Some("ledger lock file is not owned by the daemon user"@)
        } else if storage::shared_writable(stat.mode) {
            Some("ledger lock file is group or world writable"@)
        } else {
            None
        }
    } else {
        if !storage::directory_mode(stat.mode) {
            Some("not a directory"@)
        } else if stat.uid != euid {
            Some("not owned by the daemon user"@)
        } else if storage::shared_writable(stat.mode) {
            Some("group or world writable"@)
        } else {
            None
        }
    }
}

/// The lease ledger under one directory. Any file that is not a valid
/// `<lease-id>.toml` record is a hard error: an unreadable record means that an
/// unknown id may be in use, so allocation fails closed instead of skipping it.
#[derive(Debug)]
pub struct LeaseStore {
    root: String,
}

impl View for LeaseStore {
    type V = Seq<char>;

    closed spec fn view(&self) -> Seq<char> {
        self.root@
    }
}

impl LeaseStore {
    /// The ledger under a directory, given what was found of the directory and
    /// of its lock file.
    pub fn open(root: &str, directory: Stat, lock_file: Stat, euid: u32) -> (r: Result<
        LeaseStore,
        Error,
    >)
        ensures
            match unsafe_reason(directory, euid, false) {
                Some(reason) => r matches Err(error) && error@ == ErrorView::UnsafeDirectory(
                    root@,
                    reason,
                ),
                None => match unsafe_reason(lock_file, euid, true) {
                    Some(reason) => r matches Err(error) && error@ == ErrorView::UnsafeDirectory(
                        root@,
                        reason,
                    ),
                    None => r matches Ok(store) && store@ == root@,
                },
            },
    {
        match validate_ownership(root, directory, euid) {
            Err(error) => Err(error),
            Ok(_) => match validate_lock_file(root, lock_file, euid) {
                Err(error) => Err(error),
                Ok(_) => Ok(LeaseStore { root: root.to_owned() }),
            },
        }
    }

    /// The ledger directory.
    pub fn root(&self) -> (r: &str)
        ensures
            r@ == self@,
    {
        self.root.as_str()
    }

    /// The error of a failed filesystem operation.
    pub fn io(&self, operation: &str, source: String) -> (r: Error)
        ensures
            r@ == (ErrorView::Io { root: self@, operation: operation@, source: source@ }),
    {
        Error::Io { root: self.root.clone(), operation: operation.to_owned(), source }
    }

    /// The record of one listed name.
    pub fn read_named(&self, fact: RecordFact) -> (r: Result<LeaseRecord, Error>)
        ensures
            is_outcome(r, named_outcome(self@, fact)),
            reads_back(self@, fact),
    {
        proof {
            assert forall|record: RecordView| #[trigger] is_file_of(fact, record) implies class_of(
                fact.name@,
            ) == (NameClassView::Record { lease_id: record.lease_id }) by {
                file_names_read_back(record.lease_id);
            }
        }
        let lease_id = match classify_name(fact.name.as_str()) {
            NameClass::Record { lease_id } => lease_id,
            _ => {
                return Err(Error::UnknownFileName(fact.name));
            },
        };
        match fact.stat {
            Err(source) => {
                return Err(self.io("stat a lease record", source));
            },
            Ok(stat) => {
                if !storage::is_regular(stat.mode) {
                    return Err(Error::UnknownFileName(fact.name));
                }
                if storage::mode_bits(stat.mode) & 0o022 != 0 {
                    return Err(
                        Error::CorruptRecord {
                            name: fact.name,
                            reason: String::from_str("record is group or world writable"),
                        },
                    );
                }
            },
        }
        match fact.bytes {
            Err(source) => Err(self.io("read a lease record", source)),
            Ok(bytes) => {
                let outcome = LeaseRecord::decode(bytes.as_slice(), lease_id.as_str());
                proof {
                    assert forall|record: RecordView| #[trigger]
                        is_file_of(fact, record) implies is_outcome(outcome, Ok(record)) by {
                        assert(bytes@ == vstd::utf8::encode_utf8(record_text(record)));
                    }
                }
                match outcome {
                    Ok(record) => Ok(record),
                    Err(error) => Err(
                        Error::CorruptRecord { name: fact.name, reason: error.message() },
                    ),
                }
            },
        }
    }

    /// Read one record by lease id. `found` is what the filesystem reports of
    /// its file; an absent file is no lease.
    pub fn read(
        &self,
        lease_id: &str,
        found: Option<(Result<Stat, String>, Result<Vec<u8>, String>)>,
    ) -> (r: Result<Option<LeaseRecord>, Error>)
        ensures
            if !is_lease_id(lease_id@) {
                r matches Err(error) && error@ == ErrorView::InvalidLeaseId(lease_id@)
            } else {
                match found {
                    None => r matches Ok(None),
                    Some((stat, bytes)) => match file_outcome(
                        self@,
                        file_name_of(lease_id@),
                        lease_id@,
                        stat,
                        bytes,
                    ) {
                        Ok(expected) => r matches Ok(Some(record)) && record@ == expected,
                        Err(expected) => r matches Err(error) && error@ == expected,
                    },
                }
            },
            found matches Some((stat, bytes)) ==> forall|record: RecordView|
                record.lease_id == lease_id@ && #[trigger] holds(stat, bytes, record) ==> (
                r matches Ok(Some(read)) && read@ == record),
    {
        match validate_lease_id(lease_id) {
            Ok(_) => {},
            Err(error) => {
                return Err(error);
            },
        }
        match found {
            None => Ok(None),
            Some((stat, bytes)) => {
                proof {
                    file_names_read_back(lease_id@);
                }
                let name = text::cat2(lease_id, ".toml");
                let fact = RecordFact { name, stat, bytes };
                proof {
                    assert forall|record: RecordView|
                        record.lease_id == lease_id@ && #[trigger] holds(
                            fact.stat,
                            fact.bytes,
                            record,
                        ) implies is_file_of(fact, record) by {}
                }
                match self.read_named(fact) {
                    Ok(record) => Ok(Some(record)),
                    Err(error) => Err(error),
                }
            },
        }
    }

    /// Every record of the ledger, sorted by lease id. Corrupt records and
    /// unknown file names are errors: the caller must not allocate around
    /// them. Temp files and the lock file are passed over. Records that were
    /// written as they are come back.
    pub fn load(&self, facts: Vec<RecordFact>) -> (r: Result<Vec<LeaseRecord>, Error>)
        ensures
            match listed_outcome(self@, facts@) {
                Ok(expected) => r matches Ok(records) && order::views(records@) == order::sorted(
                    expected,
                ),
                Err(expected) => r matches Err(error) && error@ == expected,
            },
            forall|written: Seq<RecordView>| #[trigger]
                are_files_of(facts@, written) ==> (r matches Ok(records) && order::views(records@)
                    == order::sorted(written)),
    {
        let ghost all = facts@;
        let count = facts.len();
        let mut rest = facts;
        let mut records: Vec<LeaseRecord> = Vec::new();
        let mut i: usize = 0;
        proof {
            assert(all.take(0) =~= Seq::<RecordFact>::empty());
            assert(order::views(records@) =~= Seq::<RecordView>::empty());
            assert(rest@ =~= all.skip(0));
        }
        while i < count
            invariant
                i <= count,
                count == all.len(),
                all == facts@,
                rest@ == all.skip(i as int),
                listed_outcome(self@, all.take(i as int)) == Ok::<Seq<RecordView>, ErrorView>(
                    order::views(records@),
                ),
                forall|k: int|
                    0 <= k < i && !is_skipped((#[trigger] all[k]).name@) ==> reads_back(
                        self@,
                        all[k],
                    ),
            decreases count - i,
        {
            let fact = rest.remove(0);
            proof {
                assert(all.take(i + 1).drop_last() =~= all.take(i as int));
                assert(all.take(i + 1).last() == fact);
                assert(rest@ =~= all.skip(i + 1));
            }
            let skip = match classify_name(fact.name.as_str()) {
                NameClass::Temp => true,
                NameClass::Lock => true,
                _ => false,
            };
            if !skip {
                match self.read_named(fact) {
                    Ok(record) => {
                        proof {
                            assert(order::views(records@.push(record)) =~= order::views(
                                records@,
                            ).push(record@));
                        }
                        records.push(record);
                    },
                    Err(error) => {
                        proof {
                            lemma_listing_stops(self@, all, i + 1);
                            assert forall|written: Seq<RecordView>| #[trigger]
                                are_files_of(all, written) implies false by {
                                let record = lemma_some_file(all, written, i as int);
                                assert(is_file_of(all[i as int], record));
                            }
                        }
                        return Err(error);
                    },
                }
            }
            i = i + 1;
        }
        proof {
            assert(all.take(all.len() as int) =~= all);
            assert forall|written: Seq<RecordView>| #[trigger]
                are_files_of(all, written) implies written == order::views(records@) by {
                lemma_files_read_back(self@, all, written);
            }
        }
        Ok(order::sort_records(records))
    }

    /// Whether a name is a crashed writer's temp file, to be removed under the
    /// exclusive ledger lock.
    pub fn is_stale_temp(&self, name: &str) -> (r: bool)
        ensures
            r == (class_of(name@) is Temp),
    {
        match classify_name(name) {
            NameClass::Temp => true,
            _ => false,
        }
    }

    /// The name of a temp file, unique by process and counter.
    pub fn temp_name(&self, pid: u32, counter: u64) -> (r: String)
        ensures
            r@ == ".lease.toml.tmp"@ + "-"@ + text::decimal(pid as nat) + "-"@ + text::decimal(
                counter as nat,
            ),
            class_of(r@) is Temp,
    {
        let r = text::cat5(
            ".lease.toml.tmp",
            "-",
            text::decimal_text(pid as u64).as_str(),
            "-",
            text::decimal_text(counter).as_str(),
        );
        assert(r@.subrange(0, ".lease.toml.tmp"@.len() as int) =~= ".lease.toml.tmp"@);
        r
    }

    /// The outcome of unlinking a record: one that is missing is reported, not
    /// taken for success.
    pub fn unlinked(&self, lease_id: &str, missing: bool, failure: Option<String>) -> (r: Result<
        (),
        Error,
    >)
        ensures
            if !is_lease_id(lease_id@) {
                r matches Err(error) && error@ == ErrorView::InvalidLeaseId(lease_id@)
            } else if missing {
                r matches Err(error) && error@ == ErrorView::MissingRecord(lease_id@)
            } else {
                match failure {
                    Some(source) => r matches Err(error) && error@ == (ErrorView::Io {
                        root: self@,
                        operation: "unlink a lease record"@,
                        source: source@,
                    }),
                    None => r is Ok,
                }
            },
    {
        match validate_lease_id(lease_id) {
            Err(error) => {
                return Err(error);
            },
            Ok(_) => {},
        }
        if missing {
            return Err(Error::MissingRecord(lease_id.to_owned()));
        }
        match failure {
            Some(source) => Err(self.io("unlink a lease record", source)),
            None => Ok(()),
        }
    }
}

/// The lease directory must be a directory that the daemon owns and nobody
/// else may write.
pub fn validate_ownership(root: &str, stat: Stat, euid: u32) -> (r: Result<(), Error>)
    ensures
        match unsafe_reason(stat, euid, false) {
            Some(reason) => r matches Err(error) && error@ == ErrorView::UnsafeDirectory(
                root@,
                reason,
            ),
            None => r is Ok,
        },
{
    let reason = if !storage::is_directory(stat.mode) {
        "not a directory"
    } else if stat.uid != euid {
        "not owned by the daemon user"
    } else if storage::mode_bits(stat.mode) & 0o022 != 0 {
        "group or world writable"
    } else {
        return Ok(());
    };
    Err(Error::UnsafeDirectory(root.to_owned(), reason.to_owned()))
}

/// The ledger lock file must be a regular file that the daemon owns and nobody
/// else may write.
pub fn validate_lock_file(root: &str, stat: Stat, euid: u32) -> (r: Result<(), Error>)
    ensures
        match unsafe_reason(stat, euid, true) {
            Some(reason) => r matches Err(error) && error@ == ErrorView::UnsafeDirectory(
                root@,
                reason,
            ),
            None => r is Ok,
        },
{
    let reason = if !storage::is_regular(stat.mode) {
        "ledger lock file is not a regular file"
    } else if stat.uid != euid {
        "ledger lock file is not owned by the daemon user"
    } else if storage::mode_bits(stat.mode) & 0o022 != 0 {
        "ledger lock file is group or world writable"
    } else {
        return Ok(());
    };
    Err(Error::UnsafeDirectory(root.to_owned(), reason.to_owned()))
}

/// A name that is neither a record, nor a temp file, nor the lock file stops
/// the whole scan.
pub proof fn unknown_files_fail_the_scan(root: Seq<char>, facts: Seq<RecordFact>, i: int)
    requires
        0 <= i < facts.len(),
        class_of(facts[i].name@) is Unknown,
    ensures
        listed_outcome(root, facts) is Err,
    decreases facts.len(),
{
    if i < facts.len() - 1 {
        assert(facts.drop_last()[i] == facts[i]);
        unknown_files_fail_the_scan(root, facts.drop_last(), i);
    }
}

// ---------------------------------------------------------------------------
// What is accepted

/// A lease id is 32 lower-case hexadecimal digits.
pub proof fn lease_ids_are_lower_hex(s: Seq<char>)
    ensures
        is_lease_id(s) <==> s.len() == 32 && forall|i: int|
            0 <= i < s.len() ==> '0' <= (#[trigger] s[i]) <= '9' || 'a' <= s[i] <= 'f',
{
    if is_lease_id(s) {
        assert forall|i: int| 0 <= i < s.len() implies '0' <= (#[trigger] s[i]) <= '9' || 'a'
            <= s[i] <= 'f' by {
            assert(token::is_hex(s[i]));
        }
    }
}

/// Each state has its own word.
pub proof fn state_words_are_exact(raw: Seq<char>)
    ensures
        state_of(raw) == Some(LeaseState::Reserved) <==> raw == "reserved"@,
        state_of(raw) == Some(LeaseState::Active) <==> raw == "active"@,
        state_of(raw) == Some(LeaseState::Releasing) <==> raw == "releasing"@,
        state_of(raw) == Some(LeaseState::Quarantined) <==> raw == "quarantined"@,
        state_of(raw) matches Some(state) ==> state_text(state) == raw,
{
    state_round_trip(LeaseState::Reserved);
    state_round_trip(LeaseState::Active);
    state_round_trip(LeaseState::Releasing);
    state_round_trip(LeaseState::Quarantined);
}

/// A record in another state is in that state, and only a quarantined one has a
/// reason.
pub proof fn only_quarantined_records_have_reasons(
    record: RecordView,
    state: LeaseState,
    reason: Seq<char>,
)
    ensures
        record.with_state(state).state == state,
        record.with_state(state).quarantine_reason == if state == LeaseState::Quarantined {
            record.quarantine_reason
        } else {
            None
        },
        record.quarantined(reason).state == LeaseState::Quarantined,
        record.quarantined(reason).quarantine_reason == Some(reason),
        record.same_incarnation(record),
{
}

/// A raw record is accepted exactly when it is of the supported version, names
/// the expected lease, and every field is valid; it is then taken as it is.
pub proof fn valid_records_are_accepted(raw: RawLeaseView, expected: Seq<char>)
    ensures
        validated(raw, expected) is Ok <==> {
            &&& raw.version == 1
            &&& raw.lease_id == expected
            &&& is_lease_id(raw.lease_id)
            &&& id::is_sandbox_id(raw.sandbox_id)
            &&& fingerprint::fingerprint_error(raw.owner) is None
            &&& raw.uid > 0
            &&& raw.gid > 0
            &&& state_of(raw.state) is Some
            &&& raw.quarantine_reason is Some ==> raw.state == "quarantined"@
        },
        validated(raw, expected) matches Ok(record) ==> {
            &&& record.lease_id == raw.lease_id
            &&& record.sandbox_id == raw.sandbox_id
            &&& record.owner == raw.owner
            &&& record.uid == raw.uid
            &&& record.gid == raw.gid
            &&& state_text(record.state) == raw.state
            &&& record.quarantine_reason == raw.quarantine_reason
        },
{
    state_words_are_exact(raw.state);
}

/// A table is a raw record exactly when it has every field but the reason, has
/// no other, and each has its type; the fields are then taken as they are.
pub proof fn tables_hold_every_field(table: Map<Seq<char>, ScalarView>)
    ensures
        raw_of(table) is Ok <==> {
            &&& forall|key: Seq<char>| table.dom().contains(key) ==> #[trigger] is_field(key)
            &&& number_field(table, "version"@) is Ok
            &&& text_field(table, "lease_id"@) is Ok
            &&& text_field(table, "sandbox_id"@) is Ok
            &&& text_field(table, "owner"@) is Ok
            &&& number_field(table, "uid"@) is Ok
            &&& number_field(table, "gid"@) is Ok
            &&& text_field(table, "state"@) is Ok
            &&& table.dom().contains("quarantine_reason"@) ==> table["quarantine_reason"@] is Text
        },
        raw_of(table) matches Ok(raw) ==> {
            &&& table["version"@] == ScalarView::Integer(raw.version as int)
            &&& table["lease_id"@] == ScalarView::Text(raw.lease_id)
            &&& table["sandbox_id"@] == ScalarView::Text(raw.sandbox_id)
            &&& table["owner"@] == ScalarView::Text(raw.owner)
            &&& table["uid"@] == ScalarView::Integer(raw.uid as int)
            &&& table["gid"@] == ScalarView::Integer(raw.gid as int)
            &&& table["state"@] == ScalarView::Text(raw.state)
            &&& raw.quarantine_reason matches Some(reason) ==> table["quarantine_reason"@]
                == ScalarView::Text(reason)
            &&& raw.quarantine_reason is None ==> !table.dom().contains("quarantine_reason"@)
        },
{
}

/// A number field holds a 32-bit number, a text field a text, and only the
/// optional one may be missing.
pub proof fn fields_have_their_type(table: Map<Seq<char>, ScalarView>, key: Seq<char>)
    ensures
        number_field(table, key) is Ok <==> table.dom().contains(key) && (
        table[key] matches ScalarView::Integer(n) && 0 <= n <= 0xffff_ffff),
        text_field(table, key) is Ok <==> table.dom().contains(key) && table[key] is Text,
        optional_field(table, key) is Ok <==> table.dom().contains(key) ==> table[key] is Text,
        !table.dom().contains(key) ==> number_field(table, key) == Err::<u32, TomlProblemView>(
            TomlProblemView::MissingField(key),
        ) && text_field(table, key) == Err::<Seq<char>, TomlProblemView>(
            TomlProblemView::MissingField(key),
        ) && optional_field(table, key) == Ok::<Option<Seq<char>>, TomlProblemView>(None),
{
}

/// A file is decoded only if it is UTF-8 of at most 4096 bytes and a lease was
/// asked for by a lease id.
pub proof fn decoded_files_are_bounded(bytes: Seq<u8>, expected: Seq<char>)
    ensures
        decoded(bytes, expected) is Ok ==> bytes.len() <= 4096 && vstd::utf8::valid_utf8(bytes)
            && is_lease_id(expected),
        bytes.len() > 4096 ==> decoded(bytes, expected) is Err,
        bytes.len() <= 4096 && vstd::utf8::valid_utf8(bytes) && is_lease_id(expected) ==> decoded(
            bytes,
            expected,
        ) == parsed(tables::toml_table(vstd::utf8::decode_utf8(bytes)), expected),
{
}

/// A name in the lease directory: a lease id with its suffix is a record, the
/// lock has one name, an unfinished write one prefix, and every other name is
/// unknown.
pub proof fn file_names_are_told_apart(name: Seq<char>, lease_id: Seq<char>)
    ensures
        class_of(name) == (NameClassView::Record { lease_id }) <==> is_lease_id(lease_id) && name
            == lease_id + ".toml"@,
        class_of(name) is Lock <==> name == ".lease.lock"@,
        class_of(name) is Temp <==> ".lease.toml.tmp"@.is_prefix_of(name),
{
    reveal_strlit(".toml");
    reveal_strlit(".lease.lock");
    reveal_strlit(".lease.toml.tmp");
    let stem = name.take(name.len() - 5);
    if ".lease.toml.tmp"@.is_prefix_of(name) {
        assert(name.subrange(0, 15)[0] == '.');
        assert(name.subrange(0, 15)[7] == 't');
        assert(name[0] == '.' && name[7] == 't');
        assert(".lease.lock"@[7] == 'l');
    }
    if is_lease_id(lease_id) && name == lease_id + ".toml"@ {
        assert(name.len() == 37);
        assert(name[0] == lease_id[0]);
        assert(token::is_hex(lease_id[0]));
        assert(stem =~= lease_id);
        assert(name.subrange(32, 37) =~= ".toml"@);
    }
    if ".toml"@.is_suffix_of(name) && is_lease_id(stem) {
        assert(name =~= stem + ".toml"@) by {
            assert(name.subrange(name.len() - 5, name.len() as int) =~= ".toml"@);
            assert forall|k: int| name.len() - 5 <= k < name.len() implies name[k] == (stem
                + ".toml"@)[k] by {
                assert(name.subrange(name.len() - 5, name.len() as int)[k - (name.len() - 5)]
                    == ".toml"@[k - (name.len() - 5)]);
            }
        }
        assert(token::is_hex(stem[0]));
        assert(name[0] == stem[0]);
    }
}

/// A record file is read exactly when it is a regular file that nobody else can
/// write and whose bytes decode; the record is then the decoded one.
pub proof fn only_safe_records_are_read(
    root: Seq<char>,
    name: Seq<char>,
    lease_id: Seq<char>,
    stat: Result<Stat, String>,
    bytes: Result<Vec<u8>, String>,
)
    ensures
        file_outcome(root, name, lease_id, stat, bytes) is Ok <==> {
            &&& stat matches Ok(stat) && storage::regular_mode(stat.mode)
                && !storage::shared_writable(stat.mode)
            &&& bytes matches Ok(bytes) && decoded(bytes@, lease_id) is Ok
        },
        file_outcome(root, name, lease_id, stat, bytes) matches Ok(record) ==> decoded(
            bytes->Ok_0@,
            lease_id,
        ) == Ok::<RecordView, ErrorView>(record),
{
}

/// One more file: the lock and unfinished writes change nothing, a record is
/// added at the end, and anything else fails the whole scan.
pub proof fn each_file_adds_its_record(
    root: Seq<char>,
    facts: Seq<RecordFact>,
    fact: RecordFact,
    records: Seq<RecordView>,
)
    requires
        listed_outcome(root, facts) == Ok::<Seq<RecordView>, ErrorView>(records),
    ensures
        listed_outcome(root, facts.push(fact)) == if class_of(fact.name@) is Temp || class_of(
            fact.name@,
        ) is Lock {
            Ok::<Seq<RecordView>, ErrorView>(records)
        } else {
            match named_outcome(root, fact) {
                Ok(record) => Ok(records.push(record)),
                Err(error) => Err(error),
            }
        },
        class_of(fact.name@) is Unknown ==> named_outcome(root, fact) is Err,
{
    assert(facts.push(fact).drop_last() =~= facts);
}

/// The ledger's directory and its lock are used exactly when they are of their
/// type, belong to the daemon user, and nobody else can write them.
pub proof fn only_safe_ledgers_are_opened(stat: Stat, euid: u32, lock: bool)
    ensures
        unsafe_reason(stat, euid, lock) is None <==> {
            &&& if lock {
                storage::regular_mode(stat.mode)
            } else {
                storage::directory_mode(stat.mode)
            }
            &&& stat.uid == euid
            &&& !storage::shared_writable(stat.mode)
        },
{
}

/// A ledger is opened exactly when its directory and its lock file are safe, and
/// a record is unlinked exactly when it was there and went away.
pub proof fn stores_are_opened_safely(
    root: &str,
    directory: Stat,
    lock_file: Stat,
    euid: u32,
    r: Result<LeaseStore, Error>,
    store: LeaseStore,
    lease_id: &str,
    missing: bool,
    failure: Option<String>,
    gone: Result<(), Error>,
)
    requires
        call_ensures(LeaseStore::open, (root, directory, lock_file, euid), r),
        call_ensures(LeaseStore::unlinked, (&store, lease_id, missing, failure), gone),
    ensures
        r is Ok <==> unsafe_reason(directory, euid, false) is None && unsafe_reason(
            lock_file,
            euid,
            true,
        ) is None,
        r matches Ok(opened) ==> opened@ == root@,
        gone is Ok <==> is_lease_id(lease_id@) && !missing && failure is None,
        missing && is_lease_id(lease_id@) ==> gone->Err_0@ == ErrorView::MissingRecord(lease_id@),
{
}

/// Two records are of one incarnation exactly when their lease, sandbox, owner
/// and IDs agree, whatever their states are: a difference in any one of these
/// fields tells them apart.
pub proof fn incarnations_are_told_apart_by_any_field(
    record: RecordView,
    lease_id: Seq<char>,
    sandbox_id: Seq<char>,
    owner: Seq<char>,
    uid: u32,
    gid: u32,
)
    ensures
        (RecordView { lease_id, ..record }).same_incarnation(record) <==> lease_id
            == record.lease_id,
        (RecordView { sandbox_id, ..record }).same_incarnation(record) <==> sandbox_id
            == record.sandbox_id,
        (RecordView { owner, ..record }).same_incarnation(record) <==> owner == record.owner,
        (RecordView { uid, ..record }).same_incarnation(record) <==> uid == record.uid,
        (RecordView { gid, ..record }).same_incarnation(record) <==> gid == record.gid,
{
}

} // verus!
