//! Decisions of the durable sandbox registry.
//!
//! The registry directory holds one entry per sandbox: a directory with a
//! `metadata.toml` and a `workspace`. What the filesystem reports of an entry
//! comes in as plain facts; whether the entry can be trusted is decided here.

use crate::auth::fingerprint::KeyFingerprint;
use crate::paths;
use crate::sandbox::durable::Step;
use crate::sandbox::id::{self, SandboxId};
use crate::text;
use vstd::prelude::*;

verus! {

// ---------------------------------------------------------------------------
// Files

/// The file type bits of a mode.
pub const S_IFMT: u32 = 0o170000;

/// The file type of a directory.
pub const S_IFDIR: u32 = 0o040000;

/// The file type of a regular file.
pub const S_IFREG: u32 = 0o100000;

/// What a stat reported: the raw mode and the owner.
#[derive(Debug, Clone, Copy, PartialEq, Eq, Structural)]
pub struct Stat {
    pub mode: u32,
    pub uid: u32,
}

pub open spec fn directory_mode(mode: u32) -> bool {
    mode & S_IFMT == S_IFDIR
}

pub open spec fn regular_mode(mode: u32) -> bool {
    mode & S_IFMT == S_IFREG
}

pub open spec fn permissions(mode: u32) -> u32 {
    mode & 0o777
}

/// Group or world may write.
pub open spec fn shared_writable(mode: u32) -> bool {
    permissions(mode) & 0o022 != 0
}

/// Whether a mode is that of a directory.
pub fn is_directory(mode: u32) -> (r: bool)
    ensures
        r == directory_mode(mode),
{
    mode & S_IFMT == S_IFDIR
}

/// Whether a mode is that of a regular file.
pub fn is_regular(mode: u32) -> (r: bool)
    ensures
        r == regular_mode(mode),
{
    mode & S_IFMT == S_IFREG
}

/// The permission bits of a mode.
pub fn mode_bits(mode: u32) -> (r: u32)
    ensures
        r == permissions(mode),
{
    mode & 0o777
}

/// Whether an operating-system error is the given one.
pub fn errno_is(raw_os_error: Option<i32>, errno: i32) -> (r: bool)
    ensures
        r == (raw_os_error == Some(errno)),
{
    match raw_os_error {
        Some(code) => code == errno,
        None => false,
    }
}

/// A regular file is no directory.
pub proof fn file_types_exclude_each_other(mode: u32)
    ensures
        !(directory_mode(mode) && regular_mode(mode)),
{
}

/// The outcome of a stat of one directory entry, links not followed.
#[derive(Debug)]
pub enum EntryStat {
    Found(Stat),
    Missing,
    Failed { source: String },
}

/// The outcome of opening a sandbox directory, links not followed.
#[derive(Debug)]
pub enum OpenOutcome {
    Opened,
    Missing { source: String },
    Symlink,
    NotDirectory,
    Failed { source: String },
}

// ---------------------------------------------------------------------------
// Metadata and errors

/// The lifecycle state of a durable sandbox.
#[derive(Debug, Clone, Copy, PartialEq, Eq, Structural)]
pub enum State {
    Active,
    Deleting,
}

/// The durable metadata of a sandbox.
#[derive(Debug)]
pub struct Metadata {
    id: SandboxId,
    owner: KeyFingerprint,
    state: State,
}

/// The contents of a [`Metadata`].
pub struct MetadataView {
    pub id: Seq<char>,
    pub owner: Seq<char>,
    pub state: State,
}

impl View for Metadata {
    type V = MetadataView;

    closed spec fn view(&self) -> MetadataView {
        MetadataView { id: self.id@, owner: self.owner@, state: self.state }
    }
}

impl Metadata {
    /// The metadata of a sandbox in a state.
    pub fn new(id: SandboxId, owner: KeyFingerprint, state: State) -> (r: Metadata)
        ensures
            r@ == (MetadataView { id: id@, owner: owner@, state }),
    {
        Metadata { id, owner, state }
    }

    /// The metadata of a new sandbox.
    pub fn active(id: SandboxId, owner: KeyFingerprint) -> (r: Metadata)
        ensures
            r@ == (MetadataView { id: id@, owner: owner@, state: State::Active }),
    {
        Metadata { id, owner, state: State::Active }
    }

    pub fn id(&self) -> (r: &SandboxId)
        ensures
            r@ == self@.id,
    {
        &self.id
    }

    pub fn owner(&self) -> (r: &KeyFingerprint)
        ensures
            r@ == self@.owner,
    {
        &self.owner
    }

    pub fn state(&self) -> (r: State)
        ensures
            r == self@.state,
    {
        self.state
    }

    pub fn is_deleting(&self) -> (r: bool)
        ensures
            r == (self@.state == State::Deleting),
    {
        self.state == State::Deleting
    }
}

/// Registry storage errors. Corrupt entries are data failures, not permission
/// to repair: callers keep the bytes on disk for operator inspection.
#[derive(Debug)]
pub enum Error {
    AlreadyExists { path: String },
    Corrupt { path: String, reason: String },
    Io { operation: String, path: String, source: String },
}

/// The contents of an [`Error`].
pub enum ErrorView {
    AlreadyExists { path: Seq<char> },
    Corrupt { path: Seq<char>, reason: Seq<char> },
    Io { operation: Seq<char>, path: Seq<char>, source: Seq<char> },
}

impl View for Error {
    type V = ErrorView;

    open spec fn view(&self) -> ErrorView {
        match self {
            Error::AlreadyExists { path } => ErrorView::AlreadyExists { path: path@ },
            Error::Corrupt { path, reason } => ErrorView::Corrupt { path: path@, reason: reason@ },
            Error::Io { operation, path, source } => ErrorView::Io {
                operation: operation@,
                path: path@,
                source: source@,
            },
        }
    }
}

/// The text of an error.
pub open spec fn error_text(error: ErrorView) -> Seq<char> {
    match error {
        ErrorView::AlreadyExists { path } => "sandbox entry already exists: "@ + path,
        ErrorView::Corrupt { path, reason } => "corrupt sandbox entry "@ + path + ": "@ + reason,
        ErrorView::Io { operation, path, source } => operation + " "@ + path + ": "@ + source,
    }
}

impl Error {
    /// The operator-facing description.
    pub fn message(&self) -> (r: String)
        ensures
            r@ == error_text(self@),
    {
        match self {
            Error::AlreadyExists { path } => text::cat2(
                "sandbox entry already exists: ",
                path.as_str(),
            ),
            Error::Corrupt { path, reason } => text::cat4(
                "corrupt sandbox entry ",
                path.as_str(),
                ": ",
                reason.as_str(),
            ),
            Error::Io { operation, path, source } => text::cat5(
                operation.as_str(),
                " ",
                path.as_str(),
                ": ",
                source.as_str(),
            ),
        }
    }
}

/// A validated view of one management entry.
#[derive(Debug)]
pub enum Entry {
    Absent,
    Active(Metadata),
    Deleting(Metadata),
    Corrupt { reason: String },
}

/// The contents of an [`Entry`].
pub enum EntryView {
    Absent,
    Active(MetadataView),
    Deleting(MetadataView),
    Corrupt { reason: Seq<char> },
}

impl View for Entry {
    type V = EntryView;

    open spec fn view(&self) -> EntryView {
        match self {
            Entry::Absent => EntryView::Absent,
            Entry::Active(metadata) => EntryView::Active(metadata@),
            Entry::Deleting(metadata) => EntryView::Deleting(metadata@),
            Entry::Corrupt { reason } => EntryView::Corrupt { reason: reason@ },
        }
    }
}

// ---------------------------------------------------------------------------
// Inspection

/// What reading and decoding the metadata file gave.
#[derive(Debug)]
pub enum MetadataRead {
    /// The file could not be read.
    Failed { source: String },
    /// The bytes are no metadata of this sandbox.
    Undecodable { reason: String },
    Decoded(Metadata),
}

/// What the filesystem reports of one opened sandbox directory.
#[derive(Debug)]
pub struct DirectoryFacts {
    pub directory: Result<Stat, String>,
    pub names: Result<Vec<Vec<u8>>, String>,
    pub metadata_stat: EntryStat,
    pub metadata: MetadataRead,
    pub workspace_stat: EntryStat,
}

/// The file name of the metadata.
pub open spec fn metadata_name() -> Seq<u8> {
    seq![109, 101, 116, 97, 100, 97, 116, 97, 46, 116, 111, 109, 108]
}

/// The file name of the workspace.
pub open spec fn workspace_name() -> Seq<u8> {
    seq![119, 111, 114, 107, 115, 112, 97, 99, 101]
}

/// A name that a sandbox directory may hold.
pub open spec fn is_management_name(name: Seq<u8>) -> bool {
    name == metadata_name() || name == workspace_name()
}

pub open spec fn has_unknown_name(names: Seq<Vec<u8>>) -> bool {
    exists|i: int| 0 <= i < names.len() && !is_management_name((#[trigger] names[i])@)
}

/// What an inspection concludes: an entry, or the operation that failed and
/// why.
pub type Inspection = Result<EntryView, (Seq<char>, Seq<char>)>;

pub open spec fn corrupt(reason: Seq<char>) -> Inspection {
    Ok(EntryView::Corrupt { reason })
}

/// The conclusion from the workspace, once everything else holds.
pub open spec fn workspace_conclusion(
    stat: EntryStat,
    metadata: MetadataView,
    euid: u32,
) -> Inspection {
    match stat {
        EntryStat::Failed { source } => Err(("stat sandbox workspace"@, source@)),
        EntryStat::Missing => if metadata.state == State::Deleting {
            Ok(EntryView::Deleting(metadata))
        } else {
            corrupt("workspace is missing"@)
        },
        EntryStat::Found(stat) => if !directory_mode(stat.mode) {
            corrupt("workspace is not a directory"@)
        } else if stat.uid != euid {
            corrupt("workspace is not daemon-owned"@)
        } else if shared_writable(stat.mode) {
            corrupt("workspace is group or world writable"@)
        } else {
            match metadata.state {
                State::Active => Ok(EntryView::Active(metadata)),
                State::Deleting => Ok(EntryView::Deleting(metadata)),
            }
        },
    }
}

/// The conclusion from the metadata and the workspace, once the directory
/// itself holds.
pub open spec fn metadata_conclusion(facts: DirectoryFacts, euid: u32) -> Inspection {
    match facts.metadata_stat {
        EntryStat::Failed { source } => Err(("stat sandbox metadata"@, source@)),
        EntryStat::Missing => corrupt("metadata.toml is missing"@),
        EntryStat::Found(stat) => if !regular_mode(stat.mode) {
            corrupt("metadata.toml is not a regular file"@)
        } else if stat.uid != euid {
            corrupt("metadata.toml is not daemon-owned"@)
        } else if permissions(stat.mode) != 0o600 {
            corrupt("metadata.toml does not have mode 0600"@)
        } else {
            match facts.metadata {
                MetadataRead::Failed { source } => Err(("read sandbox metadata"@, source@)),
                MetadataRead::Undecodable { reason } => corrupt(reason@),
                MetadataRead::Decoded(metadata) => workspace_conclusion(
                    facts.workspace_stat,
                    metadata@,
                    euid,
                ),
            }
        },
    }
}

/// The conclusion about one opened sandbox directory: the first check that
/// fails, or its lifecycle state.
pub open spec fn conclusion(facts: DirectoryFacts, euid: u32) -> Inspection {
    match facts.directory {
        Err(source) => Err(("stat sandbox directory"@, source@)),
        Ok(stat) => if !directory_mode(stat.mode) {
            corrupt("sandbox entry is not a directory"@)
        } else if stat.uid != euid {
            corrupt("sandbox directory is not daemon-owned"@)
        } else if shared_writable(stat.mode) {
            corrupt("sandbox directory is group or world writable"@)
        } else {
            match facts.names {
                Err(source) => Err(("scan sandbox directory"@, source@)),
                Ok(names) => if has_unknown_name(names@) {
                    corrupt("sandbox directory contains an unknown management entry"@)
                } else {
                    metadata_conclusion(facts, euid)
                },
            }
        },
    }
}

/// The conclusion about one registry entry.
pub open spec fn entry_conclusion(
    opened: OpenOutcome,
    facts: DirectoryFacts,
    euid: u32,
) -> Inspection {
    match opened {
        OpenOutcome::Opened => conclusion(facts, euid),
        OpenOutcome::Missing { .. } => Ok(EntryView::Absent),
        OpenOutcome::Symlink => corrupt("sandbox directory is a symlink"@),
        OpenOutcome::NotDirectory => corrupt("sandbox entry is not a directory"@),
        OpenOutcome::Failed { source } => Err(("open sandbox directory"@, source@)),
    }
}

/// Whether a result is the given conclusion about the entry at `path`.
pub open spec fn concludes(
    r: Result<Entry, Error>,
    path: Seq<char>,
    inspection: Inspection,
) -> bool {
    match inspection {
        Ok(expected) => r matches Ok(entry) && entry@ == expected,
        Err((operation, source)) => r matches Err(error) && error@ == (ErrorView::Io {
            operation,
            path,
            source,
        }),
    }
}

fn corrupt_entry(reason: &str) -> (r: Result<Entry, Error>)
    ensures
        r matches Ok(entry) && entry@ == (EntryView::Corrupt { reason: reason@ }),
{
    Ok(Entry::Corrupt { reason: reason.to_owned() })
}

fn metadata_name_bytes() -> (r: Vec<u8>)
    ensures
        r@ == metadata_name(),
{
    let v: Vec<u8> = vec![109, 101, 116, 97, 100, 97, 116, 97, 46, 116, 111, 109, 108];
    assert(v@ =~= metadata_name());
    v
}

fn workspace_name_bytes() -> (r: Vec<u8>)
    ensures
        r@ == workspace_name(),
{
    let v: Vec<u8> = vec![119, 111, 114, 107, 115, 112, 97, 99, 101];
    assert(v@ =~= workspace_name());
    v
}

fn any_unknown_name(names: &Vec<Vec<u8>>) -> (r: bool)
    ensures
        r == has_unknown_name(names@),
{
    let metadata = metadata_name_bytes();
    let workspace = workspace_name_bytes();
    let mut i: usize = 0;
    while i < names.len()
        invariant
            i <= names@.len(),
            metadata@ == metadata_name(),
            workspace@ == workspace_name(),
            forall|k: int| 0 <= k < i ==> is_management_name((#[trigger] names@[k])@),
        decreases names@.len() - i,
    {
        let name = names[i].as_slice();
        if !text::same_bytes(name, metadata.as_slice()) && !text::same_bytes(
            name,
            workspace.as_slice(),
        ) {
            assert(!is_management_name(names@[i as int]@));
            return true;
        }
        i = i + 1;
    }
    false
}

/// What deletion does with one entry of a sandbox tree.
#[derive(Debug, Clone, Copy, PartialEq, Eq, Structural)]
pub enum Removal {
    /// The deletion marker is kept until everything else is gone.
    Keep,
    /// The entry is already gone.
    Gone,
    /// Empty the directory, then remove it.
    Descend,
    /// Unlink the entry itself; a symlink is never followed.
    Unlink,
}

/// What deletion does with an entry.
pub open spec fn removal_of(name: Seq<u8>, stat: EntryStat) -> Result<Removal, Seq<char>> {
    if name == metadata_name() {
        Ok(Removal::Keep)
    } else {
        match stat {
            EntryStat::Missing => Ok(Removal::Gone),
            EntryStat::Failed { source } => Err(source@),
            EntryStat::Found(stat) => if directory_mode(stat.mode) {
                Ok(Removal::Descend)
            } else {
                Ok(Removal::Unlink)
            },
        }
    }
}

/// Decide what deletion does with an entry.
pub fn remove_child(name: &[u8], stat: EntryStat) -> (r: Result<Removal, String>)
    ensures
        match removal_of(name@, stat) {
            Ok(removal) => r == Ok::<Removal, String>(removal),
            Err(expected) => r matches Err(source) && source@ == expected,
        },
{
    let metadata = metadata_name_bytes();
    if text::same_bytes(name, metadata.as_slice()) {
        return Ok(Removal::Keep);
    }
    match stat {
        EntryStat::Missing => Ok(Removal::Gone),
        EntryStat::Failed { source } => Err(source),
        EntryStat::Found(stat) => {
            if is_directory(stat.mode) {
                Ok(Removal::Descend)
            } else {
                Ok(Removal::Unlink)
            }
        },
    }
}

/// Whether a directory listing entry is a real name.
pub open spec fn is_real_name(name: Seq<u8>) -> bool {
    name != seq![46u8] && name != seq![46u8, 46u8]
}

/// The real names among what a directory read returned, in order.
pub open spec fn real_names(names: Seq<Vec<u8>>) -> Seq<Vec<u8>>
    decreases names.len(),
{
    if names.len() == 0 {
        seq![]
    } else if is_real_name(names.last()@) {
        real_names(names.drop_last()).push(names.last())
    } else {
        real_names(names.drop_last())
    }
}

/// Drop the entries for the directory itself and its parent.
pub fn read_names(raw: Vec<Vec<u8>>) -> (r: Vec<Vec<u8>>)
    ensures
        r@.len() == real_names(raw@).len(),
        forall|i: int| 0 <= i < r@.len() ==> (#[trigger] r@[i])@ == real_names(raw@)[i]@,
{
    let mut out: Vec<Vec<u8>> = Vec::new();
    let mut i: usize = 0;
    assert(raw@.take(0) =~= Seq::<Vec<u8>>::empty());
    while i < raw.len()
        invariant
            i <= raw@.len(),
            out@.len() == real_names(raw@.take(i as int)).len(),
            forall|k: int|
                0 <= k < out@.len() ==> (#[trigger] out@[k])@ == real_names(
                    raw@.take(i as int),
                )[k]@,
        decreases raw@.len() - i,
    {
        proof {
            assert(raw@.take(i + 1).drop_last() =~= raw@.take(i as int));
            assert(raw@.take(i + 1).last() == raw@[i as int]);
        }
        let dot: Vec<u8> = vec![46u8];
        let dots: Vec<u8> = vec![46u8, 46u8];
        assert(dot@ =~= seq![46u8]);
        assert(dots@ =~= seq![46u8, 46u8]);
        let name = raw[i].as_slice();
        if !text::same_bytes(name, dot.as_slice()) && !text::same_bytes(name, dots.as_slice()) {
            out.push(copy_bytes(name));
        }
        i = i + 1;
    }
    assert(raw@.take(raw@.len() as int) =~= raw@);
    out
}

fn copy_bytes(bytes: &[u8]) -> (r: Vec<u8>)
    ensures
        r@ == bytes@,
{
    let mut out: Vec<u8> = Vec::new();
    let mut i: usize = 0;
    while i < bytes.len()
        invariant
            i <= bytes@.len(),
            out@ == bytes@.take(i as int),
        decreases bytes@.len() - i,
    {
        out.push(bytes[i]);
        i = i + 1;
        assert(out@ =~= bytes@.take(i as int));
    }
    assert(out@ =~= bytes@);
    out
}

/// What a registry scan found under one name.
#[derive(Debug)]
pub struct ScanFact {
    pub name: Vec<u8>,
    pub opened: OpenOutcome,
    pub facts: DirectoryFacts,
}

/// Result of scanning the sandbox root.
#[derive(Debug)]
pub struct ScanResult {
    pub entries: Vec<(SandboxId, Entry)>,
    pub unknown_entries: usize,
}

/// The contents of a [`ScanResult`].
pub struct ScanView {
    pub entries: Seq<(Seq<char>, EntryView)>,
    pub unknown_entries: nat,
}

/// The contents of a list of named entries.
pub open spec fn named(entries: Seq<(SandboxId, Entry)>) -> Seq<(Seq<char>, EntryView)> {
    entries.map_values(|entry: (SandboxId, Entry)| (entry.0@, entry.1@))
}

impl View for ScanResult {
    type V = ScanView;

    open spec fn view(&self) -> ScanView {
        ScanView { entries: named(self.entries@), unknown_entries: self.unknown_entries as nat }
    }
}

/// The sandbox id that a directory name stands for, if it is one.
pub open spec fn id_of_name(name: Seq<u8>) -> Option<Seq<char>> {
    if vstd::utf8::valid_utf8(name) && id::is_sandbox_id(vstd::utf8::decode_utf8(name)) {
        Some(vstd::utf8::decode_utf8(name))
    } else {
        None
    }
}

/// An entry seen by a scan. A name that has vanished since it was listed is a
/// failure here, not an absent sandbox.
pub open spec fn scanned_conclusion(fact: ScanFact, euid: u32) -> Inspection {
    match fact.opened {
        OpenOutcome::Missing { source } => Err(("open sandbox directory"@, source@)),
        _ => entry_conclusion(fact.opened, fact.facts, euid),
    }
}

/// The scan of the listed names in order: the entries found and the names that
/// are no sandbox ids, or the first failure.
pub open spec fn scan_outcome(root: Seq<char>, facts: Seq<ScanFact>, euid: u32) -> Result<
    ScanView,
    ErrorView,
>
    decreases facts.len(),
{
    if facts.len() == 0 {
        Ok(ScanView { entries: seq![], unknown_entries: 0 })
    } else {
        match scan_outcome(root, facts.drop_last(), euid) {
            Err(error) => Err(error),
            Ok(scan) => match id_of_name(facts.last().name@) {
                None => Ok(
                    ScanView { entries: scan.entries, unknown_entries: scan.unknown_entries + 1 },
                ),
                Some(id) => match scanned_conclusion(facts.last(), euid) {
                    Ok(entry) => Ok(
                        ScanView {
                            entries: scan.entries.push((id, entry)),
                            unknown_entries: scan.unknown_entries,
                        },
                    ),
                    Err((operation, source)) => Err(
                        ErrorView::Io { operation, path: paths::join_of(root, id), source },
                    ),
                },
            },
        }
    }
}

proof fn lemma_scan_stops(root: Seq<char>, facts: Seq<ScanFact>, euid: u32, n: int)
    requires
        0 <= n <= facts.len(),
        scan_outcome(root, facts.take(n), euid) is Err,
    ensures
        scan_outcome(root, facts, euid) == scan_outcome(root, facts.take(n), euid),
    decreases facts.len() - n,
{
    if n == facts.len() {
        assert(facts.take(n) =~= facts);
    } else {
        assert(facts.take(n + 1).drop_last() =~= facts.take(n));
        lemma_scan_stops(root, facts, euid, n + 1);
    }
}

/// Whether a metadata write may replace what an inspection found.
pub open spec fn replace_outcome(
    path: Seq<char>,
    current: EntryView,
    next: MetadataView,
) -> Result<(), ErrorView> {
    match current {
        EntryView::Absent => Err(
            ErrorView::Corrupt { path, reason: "sandbox disappeared while updating metadata"@ },
        ),
        EntryView::Corrupt { reason } => Err(ErrorView::Corrupt { path, reason }),
        EntryView::Active(held) | EntryView::Deleting(held) => if held.owner != next.owner {
            Err(ErrorView::Corrupt { path, reason: "metadata owner cannot be changed"@ })
        } else if held.state == State::Deleting && next.state == State::Active {
            Err(
                ErrorView::Corrupt { path, reason: "Deleting metadata cannot return to Active"@ },
            )
        } else {
            Ok(())
        },
    }
}

/// The registry of durable sandboxes under one root.
#[derive(Debug)]
pub struct Storage {
    root: String,
}

impl View for Storage {
    type V = Seq<char>;

    closed spec fn view(&self) -> Seq<char> {
        self.root@
    }
}

impl Storage {
    /// The registry under a root, given the outcome of validating the root.
    pub fn new(root: &str, validated: Result<(), String>) -> (r: Result<Storage, Error>)
        ensures
            match validated {
                Ok(_) => r matches Ok(storage) && storage@ == root@,
                Err(source) => r matches Err(error) && error@ == (ErrorView::Io {
                    operation: "validate sandbox root"@,
                    path: root@,
                    source: source@,
                }),
            },
    {
        match validated {
            Ok(_) => Ok(Storage { root: root.to_owned() }),
            Err(source) => Err(
                Error::Io {
                    operation: String::from_str("validate sandbox root"),
                    path: root.to_owned(),
                    source,
                },
            ),
        }
    }

    /// The path of a sandbox's workspace.
    pub fn workspace_path(&self, id: &SandboxId) -> (r: String)
        ensures
            r@ == paths::join_of(paths::join_of(self@, id@), "workspace"@),
    {
        let entry = self.entry_path(id);
        paths::join(entry.as_str(), "workspace")
    }

    /// The path of a sandbox's entry.
    pub fn entry_path(&self, id: &SandboxId) -> (r: String)
        ensures
            r@ == paths::join_of(self@, id@),
    {
        paths::join(self.root.as_str(), id.as_str())
    }

    fn failed(&self, operation: &str, id: &SandboxId, source: String) -> (r: Result<Entry, Error>)
        ensures
            r matches Err(error) && error@ == (ErrorView::Io {
                operation: operation@,
                path: paths::join_of(self@, id@),
                source: source@,
            }),
    {
        Err(Error::Io { operation: operation.to_owned(), path: self.entry_path(id), source })
    }

    /// The error of a failed step of a durable operation on a sandbox. Only
    /// making the sandbox directory can find that it already exists.
    pub fn step_failed(
        &self,
        id: &SandboxId,
        step: &Step,
        already_exists: bool,
        source: String,
    ) -> (r: Error)
        ensures
            r@ == if already_exists && step.action
                == crate::sandbox::durable::Action::MakeSandboxDirectory {
                ErrorView::AlreadyExists { path: paths::join_of(self@, id@) }
            } else {
                ErrorView::Io {
                    operation: step.operation@,
                    path: paths::join_of(self@, id@),
                    source: source@,
                }
            },
    {
        if already_exists && step.action == crate::sandbox::durable::Action::MakeSandboxDirectory {
            Error::AlreadyExists { path: self.entry_path(id) }
        } else {
            Error::Io { operation: step.operation.to_owned(), path: self.entry_path(id), source }
        }
    }

    fn inspect_workspace(
        &self,
        id: &SandboxId,
        stat: EntryStat,
        metadata: Metadata,
        euid: u32,
    ) -> (r: Result<Entry, Error>)
        ensures
            concludes(
                r,
                paths::join_of(self@, id@),
                workspace_conclusion(stat, metadata@, euid),
            ),
    {
        match stat {
            EntryStat::Failed { source } => self.failed("stat sandbox workspace", id, source),
            EntryStat::Missing => {
                if metadata.is_deleting() {
                    Ok(Entry::Deleting(metadata))
                } else {
                    corrupt_entry("workspace is missing")
                }
            },
            EntryStat::Found(stat) => {
                if !is_directory(stat.mode) {
                    return corrupt_entry("workspace is not a directory");
                }
                if stat.uid != euid {
                    return corrupt_entry("workspace is not daemon-owned");
                }
                if mode_bits(stat.mode) & 0o022 != 0 {
                    return corrupt_entry("workspace is group or world writable");
                }
                match metadata.state() {
                    State::Active => Ok(Entry::Active(metadata)),
                    State::Deleting => Ok(Entry::Deleting(metadata)),
                }
            },
        }
    }

    /// Conclude from what the filesystem reports of an opened sandbox
    /// directory.
    pub fn inspect_directory(&self, id: &SandboxId, facts: DirectoryFacts, euid: u32) -> (r: Result<
        Entry,
        Error,
    >)
        ensures
            concludes(r, paths::join_of(self@, id@), conclusion(facts, euid)),
    {
        match facts.directory {
            Err(source) => {
                return self.failed("stat sandbox directory", id, source);
            },
            Ok(stat) => {
                if !is_directory(stat.mode) {
                    return corrupt_entry("sandbox entry is not a directory");
                }
                if stat.uid != euid {
                    return corrupt_entry("sandbox directory is not daemon-owned");
                }
                if mode_bits(stat.mode) & 0o022 != 0 {
                    return corrupt_entry("sandbox directory is group or world writable");
                }
            },
        }
        match facts.names {
            Err(source) => {
                return self.failed("scan sandbox directory", id, source);
            },
            Ok(names) => {
                if any_unknown_name(&names) {
                    return corrupt_entry(
                        "sandbox directory contains an unknown management entry",
                    );
                }
            },
        }
        match facts.metadata_stat {
            EntryStat::Failed { source } => {
                return self.failed("stat sandbox metadata", id, source);
            },
            EntryStat::Missing => {
                return corrupt_entry("metadata.toml is missing");
            },
            EntryStat::Found(stat) => {
                if !is_regular(stat.mode) {
                    return corrupt_entry("metadata.toml is not a regular file");
                }
                if stat.uid != euid {
                    return corrupt_entry("metadata.toml is not daemon-owned");
                }
                if mode_bits(stat.mode) != 0o600 {
                    return corrupt_entry("metadata.toml does not have mode 0600");
                }
            },
        }
        match facts.metadata {
            MetadataRead::Failed { source } => self.failed("read sandbox metadata", id, source),
            MetadataRead::Undecodable { reason } => Ok(Entry::Corrupt { reason }),
            MetadataRead::Decoded(metadata) => self.inspect_workspace(
                id,
                facts.workspace_stat,
                metadata,
                euid,
            ),
        }
    }

    /// Conclude about one registry entry.
    pub fn inspect(&self, id: &SandboxId, opened: OpenOutcome, facts: DirectoryFacts, euid: u32) -> (r:
        Result<Entry, Error>)
        ensures
            concludes(r, paths::join_of(self@, id@), entry_conclusion(opened, facts, euid)),
    {
        match opened {
            OpenOutcome::Opened => self.inspect_directory(id, facts, euid),
            OpenOutcome::Missing { source } => Ok(Entry::Absent),
            OpenOutcome::Symlink => corrupt_entry("sandbox directory is a symlink"),
            OpenOutcome::NotDirectory => corrupt_entry("sandbox entry is not a directory"),
            OpenOutcome::Failed { source } => self.failed("open sandbox directory", id, source),
        }
    }

    /// Conclude about every direct registry child. Unknown names are counted
    /// as blocked management entries and never touched.
    pub fn scan(&self, facts: Vec<ScanFact>, euid: u32) -> (r: Result<ScanResult, Error>)
        ensures
            match scan_outcome(self@, facts@, euid) {
                Ok(expected) => r matches Ok(scan) && scan@ == expected,
                Err(expected) => r matches Err(error) && error@ == expected,
            },
    {
        let ghost all = facts@;
        let count = facts.len();
        let mut rest = facts;
        let mut entries: Vec<(SandboxId, Entry)> = Vec::new();
        let mut unknown_entries: usize = 0;
        let mut i: usize = 0;
        proof {
            assert(all.take(0) =~= Seq::<ScanFact>::empty());
            assert(named(entries@) =~= Seq::<(Seq<char>, EntryView)>::empty());
            assert(rest@ =~= all.skip(0));
        }
        while i < count
            invariant
                i <= count,
                count == all.len(),
                all == facts@,
                rest@ == all.skip(i as int),
                unknown_entries <= i,
                scan_outcome(self@, all.take(i as int), euid) == Ok::<ScanView, ErrorView>(
                    ScanView {
                        entries: named(entries@),
                        unknown_entries: unknown_entries as nat,
                    },
                ),
            decreases count - i,
        {
            let fact = rest.remove(0);
            proof {
                assert(all.take(i + 1).drop_last() =~= all.take(i as int));
                assert(all.take(i + 1).last() == fact);
                assert(rest@ =~= all.skip(i + 1));
            }
            let id = match text::utf8_text(fact.name.as_slice()) {
                None => None,
                Some(raw) => SandboxId::parse(raw).ok(),
            };
            match id {
                None => {
                    unknown_entries = unknown_entries + 1;
                },
                Some(id) => {
                    let outcome = match fact.opened {
                        OpenOutcome::Missing { source } => self.failed(
                            "open sandbox directory",
                            &id,
                            source,
                        ),
                        opened => self.inspect(&id, opened, fact.facts, euid),
                    };
                    match outcome {
                        Ok(entry) => {
                            proof {
                                assert(named(entries@.push((id, entry))) =~= named(entries@).push(
                                    (id@, entry@),
                                ));
                            }
                            entries.push((id, entry));
                        },
                        Err(error) => {
                            proof {
                                lemma_scan_stops(self@, all, euid, i + 1);
                            }
                            return Err(error);
                        },
                    }
                },
            }
            i = i + 1;
        }
        assert(all.take(all.len() as int) =~= all);
        Ok(ScanResult { entries, unknown_entries })
    }

    /// Whether metadata may replace what an inspection found: only an existing
    /// valid entry, never under another owner, and never from `Deleting` back
    /// to `Active`.
    pub fn write_metadata(&self, current: Entry, metadata: &Metadata) -> (r: Result<(), Error>)
        ensures
            match replace_outcome(paths::join_of(self@, metadata@.id), current@, metadata@) {
                Ok(_) => r is Ok,
                Err(expected) => r matches Err(error) && error@ == expected,
            },
    {
        let path = self.entry_path(metadata.id());
        let held = match current {
            Entry::Absent => {
                return Err(
                    Error::Corrupt {
                        path,
                        reason: String::from_str("sandbox disappeared while updating metadata"),
                    },
                );
            },
            Entry::Corrupt { reason } => {
                return Err(Error::Corrupt { path, reason });
            },
            Entry::Active(held) => held,
            Entry::Deleting(held) => held,
        };
        if !held.owner().same(metadata.owner()) {
            return Err(
                Error::Corrupt {
                    path,
                    reason: String::from_str("metadata owner cannot be changed"),
                },
            );
        }
        if held.is_deleting() && !metadata.is_deleting() {
            return Err(
                Error::Corrupt {
                    path,
                    reason: String::from_str("Deleting metadata cannot return to Active"),
                },
            );
        }
        Ok(())
    }
}

/// A metadata write never changes the owner, and a deletion is never undone.
pub proof fn metadata_writes_are_monotone(
    path: Seq<char>,
    held: MetadataView,
    next: MetadataView,
)
    requires
        replace_outcome(path, entry_of(held), next) is Ok,
    ensures
        next.owner == held.owner,
        held.state == State::Deleting ==> next.state == State::Deleting,
{
}

/// The entry that metadata stands for: its state decides.
pub open spec fn entry_of(metadata: MetadataView) -> EntryView {
    match metadata.state {
        State::Active => EntryView::Active(metadata),
        State::Deleting => EntryView::Deleting(metadata),
    }
}

/// Everything around the metadata of an opened sandbox directory is in order.
pub open spec fn in_order(facts: DirectoryFacts, euid: u32) -> bool {
    &&& facts.directory matches Ok(stat) && directory_mode(stat.mode) && stat.uid == euid
        && !shared_writable(stat.mode)
    &&& facts.names matches Ok(names) && !has_unknown_name(names@)
    &&& facts.metadata_stat matches EntryStat::Found(stat) && regular_mode(stat.mode) && stat.uid
        == euid && permissions(stat.mode) == 0o600
    &&& facts.workspace_stat matches EntryStat::Found(stat) && directory_mode(stat.mode)
        && stat.uid == euid && !shared_writable(stat.mode)
}

/// Metadata that was written is what the next inspection reports, in its own
/// state, and whatever the write was allowed to replace, the owner stays.
pub proof fn written_metadata_is_reported(
    path: Seq<char>,
    held: MetadataView,
    next: MetadataView,
    facts: DirectoryFacts,
    euid: u32,
)
    requires
        replace_outcome(path, entry_of(held), next) is Ok,
        in_order(facts, euid),
        facts.metadata matches MetadataRead::Decoded(metadata) && metadata@ == next,
    ensures
        conclusion(facts, euid) == Ok::<EntryView, (Seq<char>, Seq<char>)>(entry_of(next)),
        entry_conclusion(OpenOutcome::Opened, facts, euid) == Ok::<
            EntryView,
            (Seq<char>, Seq<char>),
        >(entry_of(next)),
        next.owner == held.owner,
{
}

/// Facts that are in order are reported as the metadata they hold, in its
/// state.
pub proof fn decoded_metadata_is_reported(
    facts: DirectoryFacts,
    metadata: MetadataView,
    euid: u32,
)
    requires
        in_order(facts, euid),
        facts.metadata matches MetadataRead::Decoded(decoded) && decoded@ == metadata,
    ensures
        conclusion(facts, euid) == Ok::<EntryView, (Seq<char>, Seq<char>)>(entry_of(metadata)),
{
}

/// An entry is reported active only when every check passed: the daemon owns
/// the directory, its metadata, and its workspace, none of them is writable by
/// anybody else, and the metadata says so.
pub proof fn active_entries_passed_every_check(facts: DirectoryFacts, euid: u32)
    requires
        conclusion(facts, euid) matches Ok(EntryView::Active(_)),
    ensures
        facts.directory matches Ok(stat) && directory_mode(stat.mode) && stat.uid == euid
            && !shared_writable(stat.mode),
        facts.names matches Ok(names) && !has_unknown_name(names@),
        facts.metadata_stat matches EntryStat::Found(stat) && regular_mode(stat.mode) && stat.uid
            == euid && permissions(stat.mode) == 0o600,
        facts.metadata matches MetadataRead::Decoded(metadata) && metadata@.state == State::Active,
        facts.workspace_stat matches EntryStat::Found(stat) && directory_mode(stat.mode)
            && stat.uid == euid && !shared_writable(stat.mode),
{
}

/// A deletion that was interrupted after the workspace was gone stays visible.
pub proof fn interrupted_deletions_stay_visible(metadata: MetadataView, euid: u32)
    requires
        metadata.state == State::Deleting,
    ensures
        workspace_conclusion(EntryStat::Missing, metadata, euid) == Ok::<
            EntryView,
            (Seq<char>, Seq<char>),
        >(EntryView::Deleting(metadata)),
{
}

// ---------------------------------------------------------------------------
// What an inspection says

/// The type of a file is in its type bits, whatever its permissions are, and
/// somebody else can write it exactly when its group or everybody can.
pub proof fn modes_are_type_and_permissions(mode: u32, bits: u32)
    requires
        bits <= 0o7777,
    ensures
        directory_mode(0o040000 | bits),
        regular_mode(0o100000 | bits),
        !directory_mode(0o100000 | bits),
        !regular_mode(0o040000 | bits),
        !directory_mode(0o120000 | bits),
        !regular_mode(0o120000 | bits),
        permissions(0o100000 | bits) == bits & 0o777,
        shared_writable(mode) <==> mode & 0o020 != 0 || mode & 0o002 != 0,
{
    assert((0o040000u32 | bits) & 0o170000u32 == 0o040000u32) by (bit_vector)
        requires
            bits <= 0o7777u32,
    ;
    assert((0o100000u32 | bits) & 0o170000u32 == 0o100000u32) by (bit_vector)
        requires
            bits <= 0o7777u32,
    ;
    assert((0o120000u32 | bits) & 0o170000u32 == 0o120000u32) by (bit_vector)
        requires
            bits <= 0o7777u32,
    ;
    assert((0o100000u32 | bits) & 0o777u32 == bits & 0o777u32) by (bit_vector);
    assert((mode & 0o777u32) & 0o022u32 != 0 <==> (mode & 0o020u32 != 0 || mode & 0o002u32 != 0))
        by (bit_vector);
}

/// A directory that the daemon user owns and nobody else can write.
pub open spec fn is_private_directory(stat: Stat, euid: u32) -> bool {
    directory_mode(stat.mode) && stat.uid == euid && !shared_writable(stat.mode)
}

/// A sandbox is reported exactly when its directory and its metadata pass every
/// check and its workspace does too, or is already gone while it is deleted; the
/// metadata is reported as it was read, in its own state.
pub proof fn sandboxes_are_reported_as_stored(
    facts: DirectoryFacts,
    euid: u32,
    metadata: MetadataView,
)
    ensures
        ({
            let sound = {
                &&& facts.directory matches Ok(stat) && is_private_directory(stat, euid)
                &&& facts.names matches Ok(names) && (forall|i: int|
                    0 <= i < names@.len() ==> (#[trigger] names@[i])@ == metadata_name()
                        || names@[i]@ == workspace_name())
                &&& facts.metadata_stat matches EntryStat::Found(stat) && regular_mode(stat.mode)
                    && stat.uid == euid && permissions(stat.mode) == 0o600
                &&& facts.metadata matches MetadataRead::Decoded(decoded) && decoded@ == metadata
            };
            let workspace = facts.workspace_stat matches EntryStat::Found(stat)
                && is_private_directory(stat, euid);
            &&& conclusion(facts, euid) == Ok::<EntryView, (Seq<char>, Seq<char>)>(
                EntryView::Active(metadata),
            ) <==> sound && workspace && metadata.state == State::Active
            &&& conclusion(facts, euid) == Ok::<EntryView, (Seq<char>, Seq<char>)>(
                EntryView::Deleting(metadata),
            ) <==> sound && (workspace || facts.workspace_stat is Missing) && metadata.state
                == State::Deleting
            &&& conclusion(facts, euid) !is Ok || conclusion(facts, euid)->Ok_0 !is Absent
        }),
{
}

/// A sandbox is absent exactly when it could not be opened for not being there;
/// a scan that saw its name reports that as an error.
pub proof fn only_missing_sandboxes_are_absent(
    opened: OpenOutcome,
    facts: DirectoryFacts,
    euid: u32,
    fact: ScanFact,
)
    ensures
        entry_conclusion(opened, facts, euid) == Ok::<EntryView, (Seq<char>, Seq<char>)>(
            EntryView::Absent,
        ) <==> opened is Missing,
        opened is Opened ==> entry_conclusion(opened, facts, euid) == conclusion(facts, euid),
        opened is Failed ==> entry_conclusion(opened, facts, euid) is Err,
        opened is Symlink || opened is NotDirectory ==> (entry_conclusion(
            opened,
            facts,
            euid,
        ) matches Ok(entry) && entry is Corrupt),
        fact.opened is Missing ==> scanned_conclusion(fact, euid) is Err,
        fact.opened !is Missing ==> scanned_conclusion(fact, euid) == entry_conclusion(
            fact.opened,
            fact.facts,
            euid,
        ),
{
}

/// One more name: one that is no sandbox id is counted, a sandbox is added at
/// the end under its id, and a failed inspection fails the scan.
pub proof fn each_name_adds_its_entry(
    root: Seq<char>,
    facts: Seq<ScanFact>,
    fact: ScanFact,
    euid: u32,
    scan: ScanView,
)
    requires
        scan_outcome(root, facts, euid) == Ok::<ScanView, ErrorView>(scan),
    ensures
        ({
            let after = scan_outcome(root, facts.push(fact), euid);
            match id_of_name(fact.name@) {
                None => after matches Ok(next) && next.entries == scan.entries
                    && next.unknown_entries == scan.unknown_entries + 1,
                Some(id) => match scanned_conclusion(fact, euid) {
                    Ok(entry) => after matches Ok(next) && next.entries == scan.entries.push(
                        (id, entry),
                    ) && next.unknown_entries == scan.unknown_entries,
                    Err((operation, source)) => after matches Err(error) && error == (
                    ErrorView::Io { operation, path: paths::join_of(root, id), source }),
                },
            }
        }),
        id_of_name(fact.name@) matches Some(id) ==> id::is_sandbox_id(id)
            && vstd::utf8::encode_utf8(id) == fact.name@,
{
    assert(facts.push(fact).drop_last() =~= facts);
    if vstd::utf8::valid_utf8(fact.name@) {
        vstd::utf8::decode_utf8_encode_utf8(fact.name@);
    }
}

/// Metadata is replaced exactly for a sandbox that is there, under the same
/// owner, and never from deleting back to active.
pub proof fn metadata_is_replaced_forward(path: Seq<char>, current: EntryView, next: MetadataView)
    ensures
        replace_outcome(path, current, next) is Ok <==> match current {
            EntryView::Active(held) | EntryView::Deleting(held) => held.owner == next.owner && (
            held.state == State::Deleting ==> next.state == State::Deleting),
            _ => false,
        },
{
}

/// A sandbox directory is emptied of everything but its metadata: directories
/// are descended into, everything else is unlinked, and what is gone is gone.
pub proof fn deletion_spares_the_metadata(name: Seq<u8>, stat: EntryStat)
    ensures
        removal_of(name, stat) == Ok::<Removal, Seq<char>>(Removal::Keep) <==> name
            == metadata_name(),
        name != metadata_name() ==> match stat {
            EntryStat::Missing => removal_of(name, stat) == Ok::<Removal, Seq<char>>(Removal::Gone),
            EntryStat::Failed { source } => removal_of(name, stat) == Err::<Removal, Seq<char>>(
                source@,
            ),
            EntryStat::Found(found) => removal_of(name, stat) == Ok::<Removal, Seq<char>>(
                if directory_mode(found.mode) {
                    Removal::Descend
                } else {
                    Removal::Unlink
                },
            ),
        },
{
}

/// The two names a sandbox directory holds.
pub proof fn management_names()
    ensures
        metadata_name() == "metadata.toml"@.map_values(|c: char| c as u8),
        workspace_name() == "workspace"@.map_values(|c: char| c as u8),
{
    reveal_strlit("metadata.toml");
    reveal_strlit("workspace");
    assert(metadata_name() =~= "metadata.toml"@.map_values(|c: char| c as u8));
    assert(workspace_name() =~= "workspace"@.map_values(|c: char| c as u8));
}

/// Listing a directory leaves out itself and its parent, and nothing else.
pub proof fn listings_leave_out_the_dots(names: Seq<Vec<u8>>, name: Vec<u8>)
    ensures
        real_names(names).contains(name) <==> names.contains(name) && name@ != seq!['.' as u8]
            && name@ != seq!['.' as u8, '.' as u8],
        real_names(names).len() <= names.len(),
    decreases names.len(),
{
    if names.len() > 0 {
        let short = names.drop_last();
        let last = names.last();
        let rest = real_names(short);
        let result = real_names(names);
        listings_leave_out_the_dots(short, name);
        assert(names[names.len() - 1] == last);
        if short.contains(name) {
            let k = choose|k: int| 0 <= k < short.len() && short[k] == name;
            assert(names[k] == name);
        }
        if names.contains(name) {
            let k = choose|k: int| 0 <= k < names.len() && names[k] == name;
            if k < short.len() {
                assert(short[k] == name);
            }
        }
        if rest.contains(name) {
            let k = choose|k: int| 0 <= k < rest.len() && rest[k] == name;
            assert(result[k] == name);
        }
        if result.contains(name) {
            let k = choose|k: int| 0 <= k < result.len() && result[k] == name;
            if k < rest.len() {
                assert(rest[k] == name);
            }
        }
        if is_real_name(last@) {
            assert(result[rest.len() as int] == last);
        }
    }
}

/// A sandbox lies right below the storage root, under its id, and its workspace
/// right below that.
pub proof fn workspaces_lie_in_their_sandbox(
    storage: Storage,
    id: SandboxId,
    entry: String,
    workspace: String,
)
    requires
        call_ensures(Storage::entry_path, (&storage, &id), entry),
        call_ensures(Storage::workspace_path, (&storage, &id), workspace),
        storage@.len() > 0,
        id::is_sandbox_id(id@),
    ensures
        paths::file_name_of(entry@) == Some(id@),
        paths::parent_of(entry@) == Some(paths::trimmed_of(storage@)),
        paths::file_name_of(workspace@) == Some("workspace"@),
        workspace@ == paths::join_of(entry@, "workspace"@),
{
    id::ids_name_one_directory(storage@, id@);
    reveal_strlit("workspace");
    reveal_strlit(".");
    reveal_strlit("..");
    assert("workspace"@.len() == 9 && "."@.len() == 1 && ".."@.len() == 2);
    assert forall|i: int| 0 <= i < 9 implies "workspace"@[i] != '/' by {}
    paths::joined_paths_come_apart(entry@, "workspace"@);
}

/// A step that fails is reported by its own operation, except that a sandbox
/// that is already there is reported as such.
pub proof fn existing_sandboxes_are_reported(
    storage: Storage,
    id: SandboxId,
    step: Step,
    already_exists: bool,
    source: String,
    r: Error,
)
    requires
        call_ensures(Storage::step_failed, (&storage, &id, &step, already_exists, source), r),
    ensures
        r@ is AlreadyExists <==> already_exists && step.action
            == crate::sandbox::durable::Action::MakeSandboxDirectory,
        r@ matches ErrorView::Io { operation, source: why, .. } ==> operation == step.operation@
            && why == source@,
{
}

/// New metadata is as it was given, and active unless another state is given.
pub proof fn metadata_keeps_its_fields(
    id: SandboxId,
    owner: KeyFingerprint,
    state: State,
    made: Metadata,
    active: Metadata,
    deleting: bool,
)
    requires
        call_ensures(Metadata::new, (id, owner, state), made),
        call_ensures(Metadata::active, (id, owner), active),
        call_ensures(Metadata::is_deleting, (&made,), deleting),
    ensures
        made@.id == id@ && made@.owner == owner@ && made@.state == state,
        active@.id == id@ && active@.owner == owner@ && active@.state == State::Active,
        deleting <==> state == State::Deleting,
{
}

/// An error ends with what it is about and why.
pub proof fn messages_end_with_their_cause(error: ErrorView)
    ensures
        match error {
            ErrorView::AlreadyExists { path } => path.is_suffix_of(error_text(error)),
            ErrorView::Corrupt { path, reason } => (path + ": "@ + reason).is_suffix_of(
                error_text(error),
            ),
            ErrorView::Io { operation, path, source } => operation.is_prefix_of(error_text(error))
                && (path + ": "@ + source).is_suffix_of(error_text(error)),
        },
{
    match error {
        ErrorView::AlreadyExists { path } => {
            text::lemma_ends("sandbox entry already exists: "@, path);
        },
        ErrorView::Corrupt { path, reason } => {
            let end = path + ": "@ + reason;
            text::lemma_ends("corrupt sandbox entry "@, end);
            assert(error_text(error) =~= "corrupt sandbox entry "@ + end);
        },
        ErrorView::Io { operation, path, source } => {
            let end = path + ": "@ + source;
            text::lemma_ends(operation + " "@, end);
            assert(error_text(error) =~= operation + " "@ + end);
            text::lemma_ends(operation, " "@ + end);
            assert(error_text(error) =~= operation + (" "@ + end));
        },
    }
}

/// The directory of a sandbox is recognised by its name, and no other id is read
/// from it.
pub proof fn sandbox_names_are_recognised(id: Seq<char>)
    ensures
        id_of_name(vstd::utf8::encode_utf8(id)) == if id::is_sandbox_id(id) {
            Some(id)
        } else {
            None
        },
{
    vstd::utf8::encode_utf8_valid_utf8(id);
    vstd::utf8::encode_utf8_decode_utf8(id);
}

} // verus!
