//! Durable operations as step sequences.
//!
//! Every durable change of the registry or of the lease ledger is a fixed
//! sequence of filesystem actions. Some actions are guarded by a fault point:
//! an armed injector fails the operation right before the guarded action, so
//! recovery can be exercised at every crash window.

use crate::text;
use vstd::prelude::*;

verus! {

/// Durable-operation seams used by deterministic recovery tests.
#[derive(Debug, Clone, Copy, PartialEq, Eq, Structural)]
pub enum FaultPoint {
    CreateSandboxDirectory,
    CreateWorkspace,
    MetadataTempCreate,
    MetadataWrite,
    MetadataFileSync,
    MetadataRename,
    MetadataParentSync,
    RegistryParentSync,
    DeleteEntry,
    DeleteRootSync,
    LeaseTempCreate,
    LeaseWrite,
    LeaseFileSync,
    LeaseRename,
    LeaseParentSync,
    LeaseUnlink,
    LeaseUnlinkSync,
}

/// The name of a fault point.
pub open spec fn point_text(point: FaultPoint) -> Seq<char> {
    match point {
        FaultPoint::CreateSandboxDirectory => "CreateSandboxDirectory"@,
        FaultPoint::CreateWorkspace => "CreateWorkspace"@,
        FaultPoint::MetadataTempCreate => "MetadataTempCreate"@,
        FaultPoint::MetadataWrite => "MetadataWrite"@,
        FaultPoint::MetadataFileSync => "MetadataFileSync"@,
        FaultPoint::MetadataRename => "MetadataRename"@,
        FaultPoint::MetadataParentSync => "MetadataParentSync"@,
        FaultPoint::RegistryParentSync => "RegistryParentSync"@,
        FaultPoint::DeleteEntry => "DeleteEntry"@,
        FaultPoint::DeleteRootSync => "DeleteRootSync"@,
        FaultPoint::LeaseTempCreate => "LeaseTempCreate"@,
        FaultPoint::LeaseWrite => "LeaseWrite"@,
        FaultPoint::LeaseFileSync => "LeaseFileSync"@,
        FaultPoint::LeaseRename => "LeaseRename"@,
        FaultPoint::LeaseParentSync => "LeaseParentSync"@,
        FaultPoint::LeaseUnlink => "LeaseUnlink"@,
        FaultPoint::LeaseUnlinkSync => "LeaseUnlinkSync"@,
    }
}

impl FaultPoint {
    /// The name of the fault point.
    pub fn as_str(&self) -> (r: &'static str)
        ensures
            r@ == point_text(*self),
    {
        match self {
            FaultPoint::CreateSandboxDirectory => "CreateSandboxDirectory",
            FaultPoint::CreateWorkspace => "CreateWorkspace",
            FaultPoint::MetadataTempCreate => "MetadataTempCreate",
            FaultPoint::MetadataWrite => "MetadataWrite",
            FaultPoint::MetadataFileSync => "MetadataFileSync",
            FaultPoint::MetadataRename => "MetadataRename",
            FaultPoint::MetadataParentSync => "MetadataParentSync",
            FaultPoint::RegistryParentSync => "RegistryParentSync",
            FaultPoint::DeleteEntry => "DeleteEntry",
            FaultPoint::DeleteRootSync => "DeleteRootSync",
            FaultPoint::LeaseTempCreate => "LeaseTempCreate",
            FaultPoint::LeaseWrite => "LeaseWrite",
            FaultPoint::LeaseFileSync => "LeaseFileSync",
            FaultPoint::LeaseRename => "LeaseRename",
            FaultPoint::LeaseParentSync => "LeaseParentSync",
            FaultPoint::LeaseUnlink => "LeaseUnlink",
            FaultPoint::LeaseUnlinkSync => "LeaseUnlinkSync",
        }
    }
}

/// An injector armed with at most one fault.
#[derive(Debug)]
pub struct FaultInjector {
    next: Option<FaultPoint>,
}

impl View for FaultInjector {
    type V = Option<FaultPoint>;

    closed spec fn view(&self) -> Option<FaultPoint> {
        self.next
    }
}

impl Default for FaultInjector {
    /// A disarmed injector.
    fn default() -> (r: FaultInjector)
        ensures
            r@ is None,
    {
        FaultInjector { next: None }
    }
}

impl FaultInjector {
    /// Arm the injector: the next visit of `point` fails.
    pub fn fail_once(&mut self, point: FaultPoint)
        ensures
            final(self)@ == Some(point),
    {
        self.next = Some(point);
    }

    /// Visit a fault point. The armed point fails once and disarms.
    pub fn trip(&mut self, point: FaultPoint) -> (r: Result<(), String>)
        ensures
            if old(self)@ == Some(point) {
                (r matches Err(reason) && reason@ == "injected fault at "@ + point_text(point))
                    && final(self)@ is None
            } else {
                r is Ok && final(self)@ == old(self)@
            },
    {
        match self.next {
            Some(armed) => {
                if armed == point {
                    self.next = None;
                    return Err(text::cat2("injected fault at ", point.as_str()));
                }
                Ok(())
            },
            None => Ok(()),
        }
    }
}

/// One filesystem action of a durable operation.
#[derive(Debug, Clone, Copy, PartialEq, Eq, Structural)]
pub enum Action {
    MakeSandboxDirectory,
    OpenSandboxDirectory,
    MakeWorkspace,
    CreateTemp,
    WriteTemp,
    SyncTemp,
    RenameTemp,
    SyncSandboxDirectory,
    SyncRoot,
    RemoveContents,
    RemoveMetadata,
    RemoveSandboxDirectory,
    SyncLeaseDirectory,
    UnlinkRecord,
}

/// One step: an action, the operation it is reported as, and the fault point
/// that guards it with the operation an injected fault is reported as.
#[derive(Debug, Clone, Copy)]
pub struct Step {
    pub fault: Option<FaultPoint>,
    pub fault_operation: &'static str,
    pub action: Action,
    pub operation: &'static str,
}

/// What to do next in a durable operation.
#[derive(Debug)]
pub enum Command {
    /// Perform the action of this step.
    Perform(Action),
    /// An injected fault stops the operation here.
    Abort { operation: &'static str, reason: String },
    /// Every step was performed.
    Finished,
}

/// Whether an injector stops the operation before step `done`.
pub open spec fn trips(injector: Option<FaultPoint>, steps: Seq<Step>, done: int) -> bool {
    steps[done].fault is Some && injector == steps[done].fault
}

/// Decide what follows when `done` steps have been performed.
pub fn advance(steps: &Vec<Step>, done: usize, faults: &mut FaultInjector) -> (r: Command)
    requires
        done <= steps@.len(),
    ensures
        if done == steps@.len() {
            r is Finished && final(faults)@ == old(faults)@
        } else if trips(old(faults)@, steps@, done as int) {
            (r matches Command::Abort { operation, reason } && operation
                == steps@[done as int].fault_operation && reason@ == "injected fault at "@
                + point_text(steps@[done as int].fault->0)) && final(faults)@ is None
        } else {
            r == Command::Perform(steps@[done as int].action) && final(faults)@ == old(faults)@
        },
{
    if done == steps.len() {
        return Command::Finished;
    }
    let step = steps[done];
    if let Some(point) = step.fault {
        if let Err(reason) = faults.trip(point) {
            return Command::Abort { operation: step.fault_operation, reason };
        }
    }
    Command::Perform(step.action)
}

/// How many actions are performed before an injector stops the operation, if
/// no action fails on its own.
pub open spec fn performed(injector: Option<FaultPoint>, steps: Seq<Step>, from: int) -> int
    decreases steps.len() - from,
{
    if from < 0 || from >= steps.len() {
        steps.len() as int
    } else if trips(injector, steps, from) {
        from
    } else {
        performed(injector, steps, from + 1)
    }
}

/// A disarmed injector lets every action through.
pub proof fn disarmed_operations_complete(steps: Seq<Step>, from: int)
    requires
        0 <= from <= steps.len(),
    ensures
        performed(None, steps, from) == steps.len(),
    decreases steps.len() - from,
{
    if from < steps.len() {
        disarmed_operations_complete(steps, from + 1);
    }
}

/// An armed fault stops the operation right before the first action that it
/// guards: everything before is done, the guarded action is not.
pub proof fn a_fault_stops_at_its_window(steps: Seq<Step>, point: FaultPoint, at: int)
    requires
        0 <= at < steps.len(),
        steps[at].fault == Some(point),
        forall|k: int| 0 <= k < at ==> (#[trigger] steps[k]).fault != Some(point),
    ensures
        performed(Some(point), steps, 0) == at,
{
    lemma_performed(steps, point, at, 0);
}

proof fn lemma_performed(steps: Seq<Step>, point: FaultPoint, at: int, from: int)
    requires
        0 <= from <= at < steps.len(),
        steps[at].fault == Some(point),
        forall|k: int| 0 <= k < at ==> (#[trigger] steps[k]).fault != Some(point),
    ensures
        performed(Some(point), steps, from) == at,
    decreases at - from,
{
    if from < at {
        assert(steps[from].fault != Some(point));
        lemma_performed(steps, point, at, from + 1);
    }
}

/// A step without a fault point.
pub open spec fn is_plain_step(step: Step, action: Action, operation: Seq<char>) -> bool {
    step.fault is None && step.action == action && step.operation@ == operation
}

/// A step guarded by a fault point.
pub open spec fn is_guarded_step(
    step: Step,
    point: FaultPoint,
    fault_operation: Seq<char>,
    action: Action,
    operation: Seq<char>,
) -> bool {
    &&& step.fault == Some(point)
    &&& step.fault_operation@ == fault_operation
    &&& step.action == action
    &&& step.operation@ == operation
}

fn plain(action: Action, operation: &'static str) -> (r: Step)
    ensures
        is_plain_step(r, action, operation@),
{
    Step { fault: None, fault_operation: operation, action, operation }
}

fn guarded(
    point: FaultPoint,
    fault_operation: &'static str,
    action: Action,
    operation: &'static str,
) -> (r: Step)
    ensures
        is_guarded_step(r, point, fault_operation@, action, operation@),
{
    Step { fault: Some(point), fault_operation, action, operation }
}

/// The temp-file steps of a metadata write: temp file, write, fsync, rename.
pub open spec fn are_metadata_steps(steps: Seq<Step>, operation: Seq<char>) -> bool {
    &&& steps.len() == 4
    &&& is_guarded_step(
        steps[0],
        FaultPoint::MetadataTempCreate,
        operation,
        Action::CreateTemp,
        operation,
    )
    &&& is_guarded_step(
        steps[1],
        FaultPoint::MetadataWrite,
        operation,
        Action::WriteTemp,
        operation,
    )
    &&& is_guarded_step(
        steps[2],
        FaultPoint::MetadataFileSync,
        operation,
        Action::SyncTemp,
        operation,
    )
    &&& is_guarded_step(
        steps[3],
        FaultPoint::MetadataRename,
        operation,
        Action::RenameTemp,
        operation,
    )
}

/// The temp-file steps of a metadata write, reported as `operation`.
pub fn write_metadata_steps(operation: &'static str) -> (r: Vec<Step>)
    ensures
        are_metadata_steps(r@, operation@),
{
    let mut steps: Vec<Step> = Vec::new();
    steps.push(
        guarded(FaultPoint::MetadataTempCreate, operation, Action::CreateTemp, operation),
    );
    steps.push(guarded(FaultPoint::MetadataWrite, operation, Action::WriteTemp, operation));
    steps.push(guarded(FaultPoint::MetadataFileSync, operation, Action::SyncTemp, operation));
    steps.push(guarded(FaultPoint::MetadataRename, operation, Action::RenameTemp, operation));
    steps
}

/// The steps that publish a new sandbox: the directory, its workspace, its
/// metadata, and then both parents made durable.
pub open spec fn are_create_steps(steps: Seq<Step>) -> bool {
    &&& steps.len() == 9
    &&& is_guarded_step(
        steps[0],
        FaultPoint::CreateSandboxDirectory,
        "injected storage fault"@,
        Action::MakeSandboxDirectory,
        "create sandbox directory"@,
    )
    &&& is_plain_step(steps[1], Action::OpenSandboxDirectory, "open new sandbox directory"@)
    &&& is_guarded_step(
        steps[2],
        FaultPoint::CreateWorkspace,
        "injected storage fault"@,
        Action::MakeWorkspace,
        "create sandbox workspace"@,
    )
    &&& are_metadata_steps(steps.subrange(3, 7), "publish sandbox metadata"@)
    &&& is_guarded_step(
        steps[7],
        FaultPoint::MetadataParentSync,
        "sync sandbox directory"@,
        Action::SyncSandboxDirectory,
        "sync sandbox directory"@,
    )
    &&& is_guarded_step(
        steps[8],
        FaultPoint::RegistryParentSync,
        "sync sandbox root"@,
        Action::SyncRoot,
        "sync sandbox root"@,
    )
}

/// The steps that publish a new sandbox.
pub fn create_active_steps() -> (r: Vec<Step>)
    ensures
        are_create_steps(r@),
{
    let mut steps: Vec<Step> = Vec::new();
    steps.push(
        guarded(
            FaultPoint::CreateSandboxDirectory,
            "injected storage fault",
            Action::MakeSandboxDirectory,
            "create sandbox directory",
        ),
    );
    steps.push(plain(Action::OpenSandboxDirectory, "open new sandbox directory"));
    steps.push(
        guarded(
            FaultPoint::CreateWorkspace,
            "injected storage fault",
            Action::MakeWorkspace,
            "create sandbox workspace",
        ),
    );
    let ghost head = steps@;
    let mut middle = write_metadata_steps("publish sandbox metadata");
    let ghost body = middle@;
    steps.append(&mut middle);
    steps.push(
        guarded(
            FaultPoint::MetadataParentSync,
            "sync sandbox directory",
            Action::SyncSandboxDirectory,
            "sync sandbox directory",
        ),
    );
    steps.push(
        guarded(
            FaultPoint::RegistryParentSync,
            "sync sandbox root",
            Action::SyncRoot,
            "sync sandbox root",
        ),
    );
    assert(steps@.subrange(3, 7) =~= body);
    steps
}

/// The steps that replace the metadata of a sandbox.
pub open spec fn are_replace_steps(steps: Seq<Step>) -> bool {
    &&& steps.len() == 5
    &&& are_metadata_steps(steps.subrange(0, 4), "replace sandbox metadata"@)
    &&& is_guarded_step(
        steps[4],
        FaultPoint::MetadataParentSync,
        "sync sandbox metadata"@,
        Action::SyncSandboxDirectory,
        "sync sandbox metadata"@,
    )
}

/// The steps that replace the metadata of a sandbox.
pub fn replace_metadata_steps() -> (r: Vec<Step>)
    ensures
        are_replace_steps(r@),
{
    let mut steps = write_metadata_steps("replace sandbox metadata");
    let ghost body = steps@;
    steps.push(
        guarded(
            FaultPoint::MetadataParentSync,
            "sync sandbox metadata",
            Action::SyncSandboxDirectory,
            "sync sandbox metadata",
        ),
    );
    assert(steps@.subrange(0, 4) =~= body);
    steps
}

/// The steps that remove a sandbox: its contents, then the metadata that marks
/// the deletion, then the directory, and the root made durable last.
pub open spec fn are_remove_steps(steps: Seq<Step>) -> bool {
    &&& steps.len() == 4
    &&& is_plain_step(steps[0], Action::RemoveContents, "remove sandbox contents"@)
    &&& is_guarded_step(
        steps[1],
        FaultPoint::DeleteEntry,
        "remove sandbox metadata"@,
        Action::RemoveMetadata,
        "remove sandbox metadata"@,
    )
    &&& is_plain_step(steps[2], Action::RemoveSandboxDirectory, "remove sandbox directory"@)
    &&& is_guarded_step(
        steps[3],
        FaultPoint::DeleteRootSync,
        "sync sandbox root after deletion"@,
        Action::SyncRoot,
        "sync sandbox root after deletion"@,
    )
}

/// The steps that remove a sandbox.
pub fn remove_tree_steps() -> (r: Vec<Step>)
    ensures
        are_remove_steps(r@),
{
    let mut steps: Vec<Step> = Vec::new();
    steps.push(plain(Action::RemoveContents, "remove sandbox contents"));
    steps.push(
        guarded(
            FaultPoint::DeleteEntry,
            "remove sandbox metadata",
            Action::RemoveMetadata,
            "remove sandbox metadata",
        ),
    );
    steps.push(plain(Action::RemoveSandboxDirectory, "remove sandbox directory"));
    steps.push(
        guarded(
            FaultPoint::DeleteRootSync,
            "sync sandbox root after deletion",
            Action::SyncRoot,
            "sync sandbox root after deletion",
        ),
    );
    steps
}

/// The steps that publish a lease record: temp file, write, fsync, rename, and
/// the directory made durable.
pub open spec fn are_lease_write_steps(steps: Seq<Step>) -> bool {
    let injected = "injected lease fault"@;
    &&& steps.len() == 5
    &&& is_guarded_step(
        steps[0],
        FaultPoint::LeaseTempCreate,
        injected,
        Action::CreateTemp,
        "create a lease temp file"@,
    )
    &&& is_guarded_step(
        steps[1],
        FaultPoint::LeaseWrite,
        injected,
        Action::WriteTemp,
        "write a lease record"@,
    )
    &&& is_guarded_step(
        steps[2],
        FaultPoint::LeaseFileSync,
        injected,
        Action::SyncTemp,
        "fsync a lease record"@,
    )
    &&& is_guarded_step(
        steps[3],
        FaultPoint::LeaseRename,
        injected,
        Action::RenameTemp,
        "rename a lease record into place"@,
    )
    &&& is_guarded_step(
        steps[4],
        FaultPoint::LeaseParentSync,
        injected,
        Action::SyncLeaseDirectory,
        "fsync the lease directory"@,
    )
}

/// The steps that publish a lease record.
pub fn lease_write_steps() -> (r: Vec<Step>)
    ensures
        are_lease_write_steps(r@),
{
    let mut steps: Vec<Step> = Vec::new();
    steps.push(
        guarded(
            FaultPoint::LeaseTempCreate,
            "injected lease fault",
            Action::CreateTemp,
            "create a lease temp file",
        ),
    );
    steps.push(
        guarded(
            FaultPoint::LeaseWrite,
            "injected lease fault",
            Action::WriteTemp,
            "write a lease record",
        ),
    );
    steps.push(
        guarded(
            FaultPoint::LeaseFileSync,
            "injected lease fault",
            Action::SyncTemp,
            "fsync a lease record",
        ),
    );
    steps.push(
        guarded(
            FaultPoint::LeaseRename,
            "injected lease fault",
            Action::RenameTemp,
            "rename a lease record into place",
        ),
    );
    steps.push(
        guarded(
            FaultPoint::LeaseParentSync,
            "injected lease fault",
            Action::SyncLeaseDirectory,
            "fsync the lease directory",
        ),
    );
    steps
}

/// The steps that remove a lease record: unlink it, then make the directory
/// durable.
pub open spec fn are_lease_remove_steps(steps: Seq<Step>) -> bool {
    &&& steps.len() == 2
    &&& is_guarded_step(
        steps[0],
        FaultPoint::LeaseUnlink,
        "injected lease fault"@,
        Action::UnlinkRecord,
        "unlink a lease record"@,
    )
    &&& is_guarded_step(
        steps[1],
        FaultPoint::LeaseUnlinkSync,
        "injected lease fault"@,
        Action::SyncLeaseDirectory,
        "fsync the lease directory after unlink"@,
    )
}

/// The steps that remove a lease record.
pub fn lease_remove_steps() -> (r: Vec<Step>)
    ensures
        are_lease_remove_steps(r@),
{
    let mut steps: Vec<Step> = Vec::new();
    steps.push(
        guarded(
            FaultPoint::LeaseUnlink,
            "injected lease fault",
            Action::UnlinkRecord,
            "unlink a lease record",
        ),
    );
    steps.push(
        guarded(
            FaultPoint::LeaseUnlinkSync,
            "injected lease fault",
            Action::SyncLeaseDirectory,
            "fsync the lease directory after unlink",
        ),
    );
    steps
}

/// Whether an action is among the first `n` of a sequence.
pub open spec fn has_performed(steps: Seq<Step>, n: int, action: Action) -> bool {
    exists|k: int| 0 <= k < n && k < steps.len() && (#[trigger] steps[k]).action == action
}

/// A fault during a record write leaves the record invisible before the rename
/// and visible after it: the rename is the point of no return.
pub proof fn lease_write_crash_windows(steps: Seq<Step>, point: FaultPoint)
    requires
        are_lease_write_steps(steps),
        point == FaultPoint::LeaseTempCreate || point == FaultPoint::LeaseWrite || point
            == FaultPoint::LeaseFileSync || point == FaultPoint::LeaseRename || point
            == FaultPoint::LeaseParentSync,
    ensures
        has_performed(steps, performed(Some(point), steps, 0), Action::RenameTemp) <==> point
            == FaultPoint::LeaseParentSync,
{
    let at: int = match point {
        FaultPoint::LeaseTempCreate => 0,
        FaultPoint::LeaseWrite => 1,
        FaultPoint::LeaseFileSync => 2,
        FaultPoint::LeaseRename => 3,
        _ => 4,
    };
    a_fault_stops_at_its_window(steps, point, at);
    assert(steps[3].action == Action::RenameTemp);
}

/// A fault during a release leaves the record in place before the unlink and
/// removed after it.
pub proof fn lease_remove_crash_windows(steps: Seq<Step>, point: FaultPoint)
    requires
        are_lease_remove_steps(steps),
        point == FaultPoint::LeaseUnlink || point == FaultPoint::LeaseUnlinkSync,
    ensures
        has_performed(steps, performed(Some(point), steps, 0), Action::UnlinkRecord) <==> point
            == FaultPoint::LeaseUnlinkSync,
{
    let at: int = if point == FaultPoint::LeaseUnlink { 0 } else { 1 };
    a_fault_stops_at_its_window(steps, point, at);
    assert(steps[0].action == Action::UnlinkRecord);
}

/// The metadata that marks a deletion is removed only after the contents, so
/// an interrupted deletion can still be seen and resumed.
pub proof fn deletion_keeps_its_marker_until_the_contents_are_gone(steps: Seq<Step>, n: int)
    requires
        are_remove_steps(steps),
        0 <= n <= steps.len(),
        has_performed(steps, n, Action::RemoveMetadata),
    ensures
        has_performed(steps, n, Action::RemoveContents),
{
    assert(steps[0].action == Action::RemoveContents);
}

proof fn lemma_has_performed(steps: Seq<Step>, n: int, action: Action, k: int)
    requires
        0 <= k < n,
        k < steps.len(),
        steps[k].action == action,
    ensures
        has_performed(steps, n, action),
{
}

/// A lease record is in place only once it was written and flushed, and the
/// write ends with the directory flushed.
pub proof fn lease_records_are_flushed_before_they_are_in_place(steps: Seq<Step>, n: int)
    requires
        are_lease_write_steps(steps),
        0 <= n <= steps.len(),
    ensures
        has_performed(steps, n, Action::RenameTemp) ==> has_performed(steps, n, Action::CreateTemp)
            && has_performed(steps, n, Action::WriteTemp) && has_performed(
            steps,
            n,
            Action::SyncTemp,
        ),
        has_performed(steps, n, Action::SyncLeaseDirectory) ==> has_performed(
            steps,
            n,
            Action::RenameTemp,
        ),
        steps.last().action == Action::SyncLeaseDirectory,
        forall|k: int| 0 <= k < steps.len() ==> (#[trigger] steps[k]).fault is Some,
{
    if n > 3 {
        lemma_has_performed(steps, n, Action::CreateTemp, 0);
        lemma_has_performed(steps, n, Action::WriteTemp, 1);
        lemma_has_performed(steps, n, Action::SyncTemp, 2);
        lemma_has_performed(steps, n, Action::RenameTemp, 3);
    }
}

/// A removed lease record is flushed out of its directory.
pub proof fn lease_removals_are_flushed(steps: Seq<Step>, n: int)
    requires
        are_lease_remove_steps(steps),
        0 <= n <= steps.len(),
    ensures
        has_performed(steps, n, Action::SyncLeaseDirectory) ==> has_performed(
            steps,
            n,
            Action::UnlinkRecord,
        ),
        steps.last().action == Action::SyncLeaseDirectory,
{
    if n > 1 {
        lemma_has_performed(steps, n, Action::UnlinkRecord, 0);
    }
}

/// A new sandbox has its metadata only once its workspace is there and the
/// metadata was written and flushed; its directory and the registry are flushed
/// last, in that order.
pub proof fn sandboxes_are_complete_before_they_are_published(steps: Seq<Step>, n: int)
    requires
        are_create_steps(steps),
        0 <= n <= steps.len(),
    ensures
        has_performed(steps, n, Action::RenameTemp) ==> has_performed(
            steps,
            n,
            Action::MakeSandboxDirectory,
        ) && has_performed(steps, n, Action::MakeWorkspace) && has_performed(
            steps,
            n,
            Action::WriteTemp,
        ) && has_performed(steps, n, Action::SyncTemp),
        has_performed(steps, n, Action::SyncRoot) ==> has_performed(
            steps,
            n,
            Action::SyncSandboxDirectory,
        ) && has_performed(steps, n, Action::RenameTemp),
        has_performed(steps, n, Action::SyncSandboxDirectory) ==> has_performed(
            steps,
            n,
            Action::RenameTemp,
        ),
        steps.last().action == Action::SyncRoot,
{
    let part = steps.subrange(3, 7);
    assert(part[0] == steps[3] && part[1] == steps[4] && part[2] == steps[5] && part[3]
        == steps[6]);
    if n > 6 {
        lemma_has_performed(steps, n, Action::MakeSandboxDirectory, 0);
        lemma_has_performed(steps, n, Action::MakeWorkspace, 2);
        lemma_has_performed(steps, n, Action::WriteTemp, 4);
        lemma_has_performed(steps, n, Action::SyncTemp, 5);
        lemma_has_performed(steps, n, Action::RenameTemp, 6);
    }
    if n > 7 {
        lemma_has_performed(steps, n, Action::SyncSandboxDirectory, 7);
    }
}

/// Replaced metadata is flushed before it is in place, and its directory after.
pub proof fn replaced_metadata_is_flushed(steps: Seq<Step>, n: int)
    requires
        are_replace_steps(steps),
        0 <= n <= steps.len(),
    ensures
        has_performed(steps, n, Action::RenameTemp) ==> has_performed(steps, n, Action::WriteTemp)
            && has_performed(steps, n, Action::SyncTemp),
        has_performed(steps, n, Action::SyncSandboxDirectory) ==> has_performed(
            steps,
            n,
            Action::RenameTemp,
        ),
        steps.last().action == Action::SyncSandboxDirectory,
{
    let part = steps.subrange(0, 4);
    assert(part[0] == steps[0] && part[1] == steps[1] && part[2] == steps[2] && part[3]
        == steps[3]);
    if n > 3 {
        lemma_has_performed(steps, n, Action::WriteTemp, 1);
        lemma_has_performed(steps, n, Action::SyncTemp, 2);
        lemma_has_performed(steps, n, Action::RenameTemp, 3);
    }
}

/// A deleted sandbox loses its directory only after its metadata, and the
/// registry is flushed last.
pub proof fn deletions_end_with_the_registry(steps: Seq<Step>, n: int)
    requires
        are_remove_steps(steps),
        0 <= n <= steps.len(),
    ensures
        has_performed(steps, n, Action::RemoveSandboxDirectory) ==> has_performed(
            steps,
            n,
            Action::RemoveMetadata,
        ),
        has_performed(steps, n, Action::SyncRoot) ==> has_performed(
            steps,
            n,
            Action::RemoveSandboxDirectory,
        ),
        steps.last().action == Action::SyncRoot,
{
    if n > 2 {
        lemma_has_performed(steps, n, Action::RemoveMetadata, 1);
        lemma_has_performed(steps, n, Action::RemoveSandboxDirectory, 2);
    }
}

/// A fault trips once, at its own point, and nowhere else.
pub proof fn faults_trip_once(
    injector: &mut FaultInjector,
    point: FaultPoint,
    first: &mut FaultInjector,
    at: FaultPoint,
    r: Result<(), String>,
    second: &mut FaultInjector,
    again: Result<(), String>,
)
    requires
        call_ensures(FaultInjector::fail_once, (injector, point), ()),
        call_ensures(FaultInjector::trip, (first, at), r),
        call_ensures(FaultInjector::trip, (second, at), again),
        final(injector)@ == old(first)@,
        final(first)@ == old(second)@,
    ensures
        r is Err <==> at == point,
        again is Ok,
{
}

/// A plan goes on with its next step, ends after its last, and aborts where its
/// fault trips.
pub proof fn plans_go_on_step_by_step(
    steps: Vec<Step>,
    done: usize,
    faults: &mut FaultInjector,
    r: Command,
)
    requires
        call_ensures(advance, (&steps, done, faults), r),
        done <= steps@.len(),
    ensures
        r is Finished <==> done == steps@.len(),
        r matches Command::Perform(action) ==> action == steps@[done as int].action,
        r is Abort <==> done < steps@.len() && old(faults)@ is Some && steps@[done as int].fault
            == old(faults)@,
        r is Abort ==> final(faults)@ is None,
        !(r is Abort) ==> final(faults)@ == old(faults)@,
{
}

/// A fault while a sandbox is created strikes just before the work it is named
/// after: the directory, the workspace, the metadata, and the two flushes.
pub proof fn creation_crash_windows(steps: Vec<Step>, point: FaultPoint)
    requires
        call_ensures(create_active_steps, (), steps),
        point == FaultPoint::CreateSandboxDirectory || point == FaultPoint::CreateWorkspace
            || point == FaultPoint::MetadataTempCreate || point == FaultPoint::MetadataWrite
            || point == FaultPoint::MetadataFileSync || point == FaultPoint::MetadataRename
            || point == FaultPoint::MetadataParentSync || point == FaultPoint::RegistryParentSync,
    ensures
        ({
            let n = performed(Some(point), steps@, 0);
            let early = point == FaultPoint::CreateSandboxDirectory || point
                == FaultPoint::CreateWorkspace;
            let late = point == FaultPoint::MetadataParentSync || point
                == FaultPoint::RegistryParentSync;
            &&& has_performed(steps@, n, Action::MakeSandboxDirectory) <==> point
                != FaultPoint::CreateSandboxDirectory
            &&& has_performed(steps@, n, Action::MakeWorkspace) <==> !early
            &&& has_performed(steps@, n, Action::CreateTemp) <==> !early && point
                != FaultPoint::MetadataTempCreate
            &&& has_performed(steps@, n, Action::WriteTemp) <==> late || point
                == FaultPoint::MetadataFileSync || point == FaultPoint::MetadataRename
            &&& has_performed(steps@, n, Action::SyncTemp) <==> late || point
                == FaultPoint::MetadataRename
            &&& has_performed(steps@, n, Action::RenameTemp) <==> late
            &&& has_performed(steps@, n, Action::SyncSandboxDirectory) <==> point
                == FaultPoint::RegistryParentSync
            &&& !has_performed(steps@, n, Action::SyncRoot)
        }),
{
    let list = steps@;
    let body = list.subrange(3, 7);
    assert(list[3] == body[0] && list[4] == body[1] && list[5] == body[2] && list[6] == body[3]);
    let at: int = match point {
        FaultPoint::CreateSandboxDirectory => 0,
        FaultPoint::CreateWorkspace => 2,
        FaultPoint::MetadataTempCreate => 3,
        FaultPoint::MetadataWrite => 4,
        FaultPoint::MetadataFileSync => 5,
        FaultPoint::MetadataRename => 6,
        FaultPoint::MetadataParentSync => 7,
        _ => 8,
    };
    a_fault_stops_at_its_window(list, point, at);
    assert(list[0].action == Action::MakeSandboxDirectory);
    assert(list[1].action == Action::OpenSandboxDirectory);
    assert(list[2].action == Action::MakeWorkspace);
    assert(list[3].action == Action::CreateTemp);
    assert(list[4].action == Action::WriteTemp);
    assert(list[5].action == Action::SyncTemp);
    assert(list[6].action == Action::RenameTemp);
    assert(list[7].action == Action::SyncSandboxDirectory);
    assert(list[8].action == Action::SyncRoot);
}

} // verus!
