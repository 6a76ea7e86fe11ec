//! Private temporary directories: one per launch, or one tree per generation of
//! a sandbox's process domain.

use crate::paths;
use crate::platform::error::{self, LaunchError, LaunchErrorView};
use crate::platform::policy::SandboxLaunchPolicy;
use crate::text;
use crate::token;
use vstd::prelude::*;

verus! {

/// How many names are tried before giving up.
pub const MAX_ATTEMPTS: u32 = 32;

/// What a temporary directory is for.
#[derive(Debug, Clone, Copy, PartialEq, Eq, Structural)]
pub enum TempKind {
    /// One launch.
    Launch,
    /// One generation of a process domain.
    Runtime { generation: u64 },
}

/// The directories of one temporary tree: what is created and removed, and what
/// processes use.
#[derive(Debug)]
pub struct TempPaths {
    pub root: String,
    pub path: String,
}

/// The contents of a [`TempPaths`].
pub struct TempView {
    pub root: Seq<char>,
    pub path: Seq<char>,
}

impl View for TempPaths {
    type V = TempView;

    open spec fn view(&self) -> TempView {
        TempView { root: self.root@, path: self.path@ }
    }
}

/// The directories named by a token.
pub open spec fn paths_of(temp_root: Seq<char>, kind: TempKind, token: u128) -> TempView {
    match kind {
        TempKind::Launch => {
            let root = paths::join_of(temp_root, "launch-"@ + token::token_of(token));
            TempView { root, path: root }
        },
        TempKind::Runtime { generation } => {
            let root = paths::join_of(
                temp_root,
                "sandbox-"@ + token::token_of(token) + "-"@ + text::decimal(generation as nat),
            );
            TempView { root, path: paths::join_of(root, "tmp"@) }
        },
    }
}

/// The directories named by a token.
pub fn temp_paths(temp_root: &str, kind: TempKind, token: u128) -> (r: TempPaths)
    ensures
        r@ == paths_of(temp_root@, kind, token),
{
    let hex = token::token_text(token);
    match kind {
        TempKind::Launch => {
            let root = paths::join(temp_root, text::cat2("launch-", hex.as_str()).as_str());
            let path = root.clone();
            TempPaths { root, path }
        },
        TempKind::Runtime { generation } => {
            let name = text::cat4(
                "sandbox-",
                hex.as_str(),
                "-",
                text::decimal_text(generation).as_str(),
            );
            let root = paths::join(temp_root, name.as_str());
            let path = paths::join(root.as_str(), "tmp");
            TempPaths { root, path }
        },
    }
}

/// The work of making a temporary tree, in order. A launch's directory is done
/// after its first check.
#[derive(Debug, Clone, Copy, PartialEq, Eq, Structural)]
pub enum TempPhase {
    /// Create the root, owner-only.
    CreateRoot,
    /// Force the owner-only mode and check that the root is private.
    CheckRoot,
    /// Create the inner directory, owner-only.
    CreateInner,
    /// Force the owner-only mode and check that it is private.
    CheckInner,
}

/// How one piece of work went.
#[derive(Debug)]
pub enum TempOutcome {
    Done,
    Failed { exists: bool, source: String },
}

/// What is removed after a failure.
#[derive(Debug, Clone, Copy, PartialEq, Eq, Structural)]
pub enum Cleanup {
    Nothing,
    /// The empty root.
    Directory,
    /// The root and everything below it.
    Tree,
}

/// What follows a piece of work.
#[derive(Debug)]
pub enum TempDecision {
    Continue(TempPhase),
    /// The name is taken: draw another one.
    Retry,
    Ready,
    Fail { error: LaunchError, cleanup: Cleanup },
}

/// The contents of a [`TempDecision`].
pub enum DecisionView {
    Continue(TempPhase),
    Retry,
    Ready,
    Fail { error: LaunchErrorView, cleanup: Cleanup },
}

impl View for TempDecision {
    type V = DecisionView;

    open spec fn view(&self) -> DecisionView {
        match self {
            TempDecision::Continue(phase) => DecisionView::Continue(*phase),
            TempDecision::Retry => DecisionView::Retry,
            TempDecision::Ready => DecisionView::Ready,
            TempDecision::Fail { error, cleanup } => DecisionView::Fail {
                error: error@,
                cleanup: *cleanup,
            },
        }
    }
}

/// What follows work that was done.
pub open spec fn next_phase(kind: TempKind, phase: TempPhase) -> DecisionView {
    match (kind, phase) {
        (_, TempPhase::CreateRoot) => DecisionView::Continue(TempPhase::CheckRoot),
        (TempKind::Launch, _) => DecisionView::Ready,
        (_, TempPhase::CheckRoot) => DecisionView::Continue(TempPhase::CreateInner),
        (_, TempPhase::CreateInner) => DecisionView::Continue(TempPhase::CheckInner),
        (_, TempPhase::CheckInner) => DecisionView::Ready,
    }
}

/// The error of work that failed.
pub open spec fn failure_of(kind: TempKind, phase: TempPhase, source: Seq<char>) -> LaunchErrorView {
    match (kind, phase) {
        (TempKind::Launch, TempPhase::CreateRoot) => error::caused(
            "sandbox launch temp directory could not be created"@,
            source,
        ),
        (TempKind::Launch, _) => error::plain(
            "sandbox launch temp directory is not private: "@ + source,
        ),
        (_, TempPhase::CreateRoot) => error::plain(
            "sandbox runtime temp root could not be created"@,
        ),
        (_, TempPhase::CheckRoot) => error::plain(
            "sandbox runtime temp root is not private: "@ + source,
        ),
        (_, TempPhase::CreateInner) => error::plain(
            "sandbox runtime temp directory could not be created: "@ + source,
        ),
        (_, TempPhase::CheckInner) => error::plain(
            "sandbox runtime temp directory is not private: "@ + source,
        ),
    }
}

/// The error of running out of names.
pub open spec fn exhausted(kind: TempKind) -> LaunchErrorView {
    match kind {
        TempKind::Launch => error::plain("sandbox launch temp directory could not be allocated"@),
        TempKind::Runtime { .. } => error::plain("sandbox runtime temp could not be allocated"@),
    }
}

/// What is removed when work fails.
pub open spec fn cleanup_of(phase: TempPhase) -> Cleanup {
    match phase {
        TempPhase::CreateRoot => Cleanup::Nothing,
        TempPhase::CheckRoot => Cleanup::Directory,
        TempPhase::CreateInner => Cleanup::Tree,
        TempPhase::CheckInner => Cleanup::Tree,
    }
}

/// What follows a piece of work on the `attempt`-th name, counted from 0.
pub open spec fn decision(
    kind: TempKind,
    phase: TempPhase,
    attempt: u32,
    outcome: TempOutcome,
) -> DecisionView {
    match outcome {
        TempOutcome::Done => next_phase(kind, phase),
        TempOutcome::Failed { exists, source } => if phase == TempPhase::CreateRoot && exists {
            if attempt + 1 < MAX_ATTEMPTS {
                DecisionView::Retry
            } else {
                DecisionView::Fail { error: exhausted(kind), cleanup: Cleanup::Nothing }
            }
        } else {
            DecisionView::Fail {
                error: failure_of(kind, phase, source@),
                cleanup: cleanup_of(phase),
            }
        },
    }
}

fn done(kind: TempKind, phase: TempPhase) -> (r: TempDecision)
    ensures
        r@ == next_phase(kind, phase),
{
    match (kind, phase) {
        (_, TempPhase::CreateRoot) => TempDecision::Continue(TempPhase::CheckRoot),
        (TempKind::Launch, _) => TempDecision::Ready,
        (_, TempPhase::CheckRoot) => TempDecision::Continue(TempPhase::CreateInner),
        (_, TempPhase::CreateInner) => TempDecision::Continue(TempPhase::CheckInner),
        (_, TempPhase::CheckInner) => TempDecision::Ready,
    }
}

fn failed(kind: TempKind, phase: TempPhase, source: String) -> (r: LaunchError)
    ensures
        r@ == failure_of(kind, phase, source@),
{
    let prefix = match (kind, phase) {
        (TempKind::Launch, TempPhase::CreateRoot) => {
            return LaunchError::with_source(
                "sandbox launch temp directory could not be created",
                source,
            );
        },
        (TempKind::Launch, _) => "sandbox launch temp directory is not private: ",
        (_, TempPhase::CreateRoot) => {
            return LaunchError::new("sandbox runtime temp root could not be created");
        },
        (_, TempPhase::CheckRoot) => "sandbox runtime temp root is not private: ",
        (_, TempPhase::CreateInner) => "sandbox runtime temp directory could not be created: ",
        (_, TempPhase::CheckInner) => "sandbox runtime temp directory is not private: ",
    };
    LaunchError::new(text::cat2(prefix, source.as_str()).as_str())
}

/// Decide what follows a piece of work on the `attempt`-th name.
pub fn decide(kind: TempKind, phase: TempPhase, attempt: u32, outcome: TempOutcome) -> (r:
    TempDecision)
    requires
        attempt < MAX_ATTEMPTS,
    ensures
        r@ == decision(kind, phase, attempt, outcome),
{
    match outcome {
        TempOutcome::Done => done(kind, phase),
        TempOutcome::Failed { exists, source } => {
            if phase == TempPhase::CreateRoot && exists {
                if attempt + 1 < MAX_ATTEMPTS {
                    return TempDecision::Retry;
                }
                let error = match kind {
                    TempKind::Launch => LaunchError::new(
                        "sandbox launch temp directory could not be allocated",
                    ),
                    TempKind::Runtime { .. } => LaunchError::new(
                        "sandbox runtime temp could not be allocated",
                    ),
                };
                return TempDecision::Fail { error, cleanup: Cleanup::Nothing };
            }
            let cleanup = match phase {
                TempPhase::CreateRoot => Cleanup::Nothing,
                TempPhase::CheckRoot => Cleanup::Directory,
                TempPhase::CreateInner => Cleanup::Tree,
                TempPhase::CheckInner => Cleanup::Tree,
            };
            TempDecision::Fail { error: failed(kind, phase, source), cleanup }
        },
    }
}

// ---------------------------------------------------------------------------
// The whole run

/// Work on the filesystem.
#[derive(Debug)]
pub enum TempWork {
    /// Create the directory, owner-only.
    Create(String),
    /// Force the owner-only mode and check that the directory is private.
    Check(String),
    /// Remove the empty directory.
    RemoveDirectory(String),
    /// Remove the directory and everything below it.
    RemoveTree(String),
}

/// The contents of a [`TempWork`].
pub enum WorkView {
    Create(Seq<char>),
    Check(Seq<char>),
    RemoveDirectory(Seq<char>),
    RemoveTree(Seq<char>),
}

impl View for TempWork {
    type V = WorkView;

    open spec fn view(&self) -> WorkView {
        match self {
            TempWork::Create(path) => WorkView::Create(path@),
            TempWork::Check(path) => WorkView::Check(path@),
            TempWork::RemoveDirectory(path) => WorkView::RemoveDirectory(path@),
            TempWork::RemoveTree(path) => WorkView::RemoveTree(path@),
        }
    }
}

/// The work of a phase.
pub open spec fn work_of(phase: TempPhase, names: TempView) -> WorkView {
    match phase {
        TempPhase::CreateRoot => WorkView::Create(names.root),
        TempPhase::CheckRoot => WorkView::Check(names.root),
        TempPhase::CreateInner => WorkView::Create(names.path),
        TempPhase::CheckInner => WorkView::Check(names.path),
    }
}

/// The work of an attempt was performed, with this outcome.
pub open spec fn performed<F: Fn(u32, &TempWork) -> TempOutcome>(
    perform: F,
    attempt: u32,
    work: WorkView,
    outcome: TempOutcome,
) -> bool {
    exists|item: &TempWork| item@ == work && #[trigger] perform.ensures((attempt, item), outcome)
}

/// The name of an attempt was taken.
pub open spec fn name_taken<F: Fn(u32, &TempWork) -> TempOutcome>(
    perform: F,
    temp_root: Seq<char>,
    kind: TempKind,
    attempt: u32,
) -> bool {
    exists|token: u128, outcome: TempOutcome|
        decision(kind, TempPhase::CreateRoot, attempt, outcome) is Retry && #[trigger] performed(
            perform,
            attempt,
            work_of(TempPhase::CreateRoot, paths_of(temp_root, kind, token)),
            outcome,
        )
}

/// Whether a phase comes before another.
pub open spec fn phase_rank(phase: TempPhase) -> int {
    match phase {
        TempPhase::CreateRoot => 0,
        TempPhase::CheckRoot => 1,
        TempPhase::CreateInner => 2,
        TempPhase::CheckInner => 3,
    }
}

/// A phase of an attempt was performed and done.
pub open spec fn phase_done<F: Fn(u32, &TempWork) -> TempOutcome>(
    perform: F,
    attempt: u32,
    names: TempView,
    phase: TempPhase,
) -> bool {
    performed(perform, attempt, work_of(phase, names), TempOutcome::Done)
}

/// The run is at this phase of this attempt: the names of all attempts before
/// it were taken, and every phase before this one was done on its own name.
pub open spec fn run_at<F: Fn(u32, &TempWork) -> TempOutcome>(
    perform: F,
    temp_root: Seq<char>,
    kind: TempKind,
    attempt: u32,
    token: u128,
    phase: TempPhase,
) -> bool {
    &&& attempt < MAX_ATTEMPTS
    &&& forall|earlier: u32|
        earlier < attempt ==> #[trigger] name_taken(perform, temp_root, kind, earlier)
    &&& kind == TempKind::Launch ==> phase_rank(phase) <= 1
    &&& forall|before: TempPhase|
        phase_rank(before) < phase_rank(phase) ==> #[trigger] phase_done(
            perform,
            attempt,
            paths_of(temp_root, kind, token),
            before,
        )
}

/// The run ended at this phase of this attempt.
pub open spec fn run_failed<F: Fn(u32, &TempWork) -> TempOutcome>(
    perform: F,
    temp_root: Seq<char>,
    kind: TempKind,
    attempt: u32,
    token: u128,
    phase: TempPhase,
    outcome: TempOutcome,
) -> bool {
    &&& run_at(perform, temp_root, kind, attempt, token, phase)
    &&& performed(perform, attempt, work_of(phase, paths_of(temp_root, kind, token)), outcome)
    &&& decision(kind, phase, attempt, outcome) is Fail
}

/// The removal that a failure asks for.
pub open spec fn removal_of(cleanup: Cleanup, names: TempView) -> Option<WorkView> {
    match cleanup {
        Cleanup::Nothing => None,
        Cleanup::Directory => Some(WorkView::RemoveDirectory(names.root)),
        Cleanup::Tree => Some(WorkView::RemoveTree(names.root)),
    }
}

/// The removal behind a run that ended at this phase with this outcome.
pub open spec fn removal_after(
    kind: TempKind,
    phase: TempPhase,
    attempt: u32,
    outcome: TempOutcome,
    names: TempView,
) -> Option<WorkView> {
    match decision(kind, phase, attempt, outcome) {
        DecisionView::Fail { cleanup, .. } => removal_of(cleanup, names),
        _ => None,
    }
}

/// The work is due: it is that of the phase the run is at, or the removal
/// behind the phase it ended at.
pub open spec fn work_due<F: Fn(u32, &TempWork) -> TempOutcome>(
    perform: F,
    temp_root: Seq<char>,
    kind: TempKind,
    attempt: u32,
    work: WorkView,
) -> bool {
    ||| exists|token: u128, phase: TempPhase|
        work == work_of(phase, paths_of(temp_root, kind, token)) && #[trigger] run_at(
            perform,
            temp_root,
            kind,
            attempt,
            token,
            phase,
        )
    ||| exists|token: u128, phase: TempPhase, outcome: TempOutcome|
        removal_after(kind, phase, attempt, outcome, paths_of(temp_root, kind, token)) == Some(work)
            && #[trigger] run_failed(perform, temp_root, kind, attempt, token, phase, outcome)
}

/// The tree of this attempt was made: every phase was done on its name, and the
/// names of all attempts before it were taken.
pub open spec fn made_at<F: Fn(u32, &TempWork) -> TempOutcome>(
    perform: F,
    temp_root: Seq<char>,
    kind: TempKind,
    names: TempView,
    attempt: u32,
    token: u128,
) -> bool {
    let last = if kind == TempKind::Launch {
        TempPhase::CheckRoot
    } else {
        TempPhase::CheckInner
    };
    &&& names == paths_of(temp_root, kind, token)
    &&& run_at(perform, temp_root, kind, attempt, token, last)
    &&& phase_done(perform, attempt, names, last)
}

/// Some attempt made the tree.
pub open spec fn made<F: Fn(u32, &TempWork) -> TempOutcome>(
    perform: F,
    temp_root: Seq<char>,
    kind: TempKind,
    names: TempView,
) -> bool {
    exists|attempt: u32, token: u128|
        #[trigger] made_at(perform, temp_root, kind, names, attempt, token)
}

/// Some phase of some attempt ended the run with this error, and what it leaves
/// behind was removed.
pub open spec fn gave_up<F: Fn(u32, &TempWork) -> TempOutcome>(
    perform: F,
    temp_root: Seq<char>,
    kind: TempKind,
    error: LaunchErrorView,
) -> bool {
    exists|phase: TempPhase, attempt: u32, outcome: TempOutcome, token: u128|
        #[trigger] gave_up_at(perform, temp_root, kind, error, phase, attempt, outcome, token)
}

/// This phase of this attempt ended the run with this error, and what it leaves
/// behind was removed.
pub open spec fn gave_up_at<F: Fn(u32, &TempWork) -> TempOutcome>(
    perform: F,
    temp_root: Seq<char>,
    kind: TempKind,
    error: LaunchErrorView,
    phase: TempPhase,
    attempt: u32,
    outcome: TempOutcome,
    token: u128,
) -> bool {
    let names = paths_of(temp_root, kind, token);
    &&& run_failed(perform, temp_root, kind, attempt, token, phase, outcome)
    &&& decision(kind, phase, attempt, outcome)->error == error
    &&& match removal_after(kind, phase, attempt, outcome, names) {
        None => true,
        Some(work) => exists|after: TempOutcome| performed(perform, attempt, work, after),
    }
}

fn work_item(phase: TempPhase, names: &TempPaths) -> (r: TempWork)
    ensures
        r@ == work_of(phase, names@),
{
    match phase {
        TempPhase::CreateRoot => TempWork::Create(names.root.clone()),
        TempPhase::CheckRoot => TempWork::Check(names.root.clone()),
        TempPhase::CreateInner => TempWork::Create(names.path.clone()),
        TempPhase::CheckInner => TempWork::Check(names.path.clone()),
    }
}

impl SandboxLaunchPolicy {
    /// Create the private per-launch temp directory used as `TMPDIR`. The work
    /// of an attempt is only asked for once the names of all attempts before it
    /// were taken and what comes before it was done.
    pub fn create_launch_temp<F: Fn(u32, &TempWork) -> TempOutcome>(&self, perform: &F) -> (r:
        Result<TempPaths, LaunchError>)
        requires
            forall|attempt: u32, work: &TempWork| #[trigger]
                work_due(*perform, self@.temp_root, TempKind::Launch, attempt, work@)
                    ==> perform.requires((attempt, work)),
        ensures
            match r {
                Ok(names) => made(*perform, self@.temp_root, TempKind::Launch, names@),
                Err(error) => gave_up(*perform, self@.temp_root, TempKind::Launch, error@),
            },
    {
        self.create_temp(TempKind::Launch, perform)
    }

    /// Create a private runtime temp tree for one process-domain generation.
    /// The random component is the opaque runtime identity; the generation is
    /// diagnostic and keeps an idle runtime from reusing an earlier name.
    pub fn create_runtime_temp<F: Fn(u32, &TempWork) -> TempOutcome>(
        &self,
        generation: u64,
        perform: &F,
    ) -> (r: Result<TempPaths, LaunchError>)
        requires
            forall|attempt: u32, work: &TempWork| #[trigger]
                work_due(
                    *perform,
                    self@.temp_root,
                    TempKind::Runtime { generation },
                    attempt,
                    work@,
                ) ==> perform.requires((attempt, work)),
        ensures
            match r {
                Ok(names) => made(
                    *perform,
                    self@.temp_root,
                    TempKind::Runtime { generation },
                    names@,
                ),
                Err(error) => gave_up(
                    *perform,
                    self@.temp_root,
                    TempKind::Runtime { generation },
                    error@,
                ),
            },
    {
        self.create_temp(TempKind::Runtime { generation }, perform)
    }

    fn create_temp<F: Fn(u32, &TempWork) -> TempOutcome>(
        &self,
        kind: TempKind,
        perform: &F,
    ) -> (r: Result<TempPaths, LaunchError>)
        requires
            forall|attempt: u32, work: &TempWork| #[trigger]
                work_due(*perform, self@.temp_root, kind, attempt, work@) ==> perform.requires(
                    (attempt, work),
                ),
        ensures
            match r {
                Ok(names) => made(*perform, self@.temp_root, kind, names@),
                Err(error) => gave_up(*perform, self@.temp_root, kind, error@),
            },
    {
        let mut attempt: u32 = 0;
        let mut token: u128 = token::random_token();
        let mut names = temp_paths(self.temp_root(), kind, token);
        let mut phase = TempPhase::CreateRoot;
        loop
            invariant
                forall|attempt: u32, work: &TempWork| #[trigger]
                    work_due(*perform, self@.temp_root, kind, attempt, work@) ==> perform.requires(
                        (attempt, work),
                    ),
                names@ == paths_of(self@.temp_root, kind, token),
                run_at(*perform, self@.temp_root, kind, attempt, token, phase),
            decreases MAX_ATTEMPTS - attempt, 4 - phase_rank(phase),
        {
            let item = work_item(phase, &names);
            assert(work_due(*perform, self@.temp_root, kind, attempt, (&item)@));
            let outcome = perform(attempt, &item);
            let ghost seen = outcome;
            proof {
                let asked: &TempWork = &item;
                assert(perform.ensures((attempt, asked), seen));
                assert(performed(*perform, attempt, work_of(phase, names@), seen));
            }
            match decide(kind, phase, attempt, outcome) {
                TempDecision::Continue(next) => {
                    assert(phase_done(*perform, attempt, names@, phase));
                    phase = next;
                },
                TempDecision::Ready => {
                    proof {
                        assert(phase_done(*perform, attempt, names@, phase));
                        assert(made_at(
                            *perform,
                            self@.temp_root,
                            kind,
                            names@,
                            attempt,
                            token,
                        ));
                    }
                    return Ok(names);
                },
                TempDecision::Retry => {
                    assert(name_taken(*perform, self@.temp_root, kind, attempt));
                    attempt = attempt + 1;
                    token = token::random_token();
                    names = temp_paths(self.temp_root(), kind, token);
                },
                TempDecision::Fail { error, cleanup } => {
                    assert(run_failed(
                        *perform,
                        self@.temp_root,
                        kind,
                        attempt,
                        token,
                        phase,
                        seen,
                    ));
                    let removal = match cleanup {
                        Cleanup::Nothing => None,
                        Cleanup::Directory => Some(TempWork::RemoveDirectory(names.root.clone())),
                        Cleanup::Tree => Some(TempWork::RemoveTree(names.root.clone())),
                    };
                    if let Some(item) = &removal {
                        assert(work_due(*perform, self@.temp_root, kind, attempt, item@));
                        let after = perform(attempt, item);
                        assert(performed(*perform, attempt, item@, after));
                    }
                    assert(gave_up_at(
                        *perform,
                        self@.temp_root,
                        kind,
                        error@,
                        phase,
                        attempt,
                        seen,
                        token,
                    ));
                    return Err(error);
                },
            }
        }
    }
}

/// No directory is handed out before its last privacy check, and a failure
/// after a directory was created removes it.
pub proof fn unchecked_directories_are_never_used(
    kind: TempKind,
    phase: TempPhase,
    attempt: u32,
    outcome: TempOutcome,
)
    ensures
        decision(kind, phase, attempt, outcome) is Ready ==> outcome is Done && (kind
            != TempKind::Launch ==> phase == TempPhase::CheckInner) && phase
            != TempPhase::CreateRoot,
        decision(kind, phase, attempt, outcome) matches DecisionView::Fail { cleanup, .. } ==> (
        cleanup is Nothing <==> phase == TempPhase::CreateRoot),
{
}

// ---------------------------------------------------------------------------
// Removal

/// What a stat of a temporary tree reported, links not followed.
#[derive(Debug)]
pub enum TreeStat {
    Missing,
    Failed { source: String },
    Found { is_symlink: bool, is_dir: bool },
}

/// How a temporary tree is removed.
#[derive(Debug)]
pub enum TreeRemoval {
    /// Nothing is left.
    Gone,
    /// Unlink a link or a file.
    Unlink,
    /// Remove the directory and everything below it.
    RemoveAll,
}

/// How a temporary tree is removed: a link is unlinked, never followed.
pub fn remove_launch_temp_tree(stat: TreeStat) -> (r: Result<TreeRemoval, String>)
    ensures
        match stat {
            TreeStat::Missing => r == Ok::<TreeRemoval, String>(TreeRemoval::Gone),
            TreeStat::Failed { source } => r == Err::<TreeRemoval, String>(source),
            TreeStat::Found { is_symlink, is_dir } => r == Ok::<TreeRemoval, String>(
                if is_symlink || !is_dir {
                    TreeRemoval::Unlink
                } else {
                    TreeRemoval::RemoveAll
                },
            ),
        },
{
    match stat {
        TreeStat::Missing => Ok(TreeRemoval::Gone),
        TreeStat::Failed { source } => Err(source),
        TreeStat::Found { is_symlink, is_dir } => {
            if is_symlink || !is_dir {
                Ok(TreeRemoval::Unlink)
            } else {
                Ok(TreeRemoval::RemoveAll)
            }
        },
    }
}

/// The error of a runtime tree that could not be removed.
pub fn runtime_removal(outcome: Result<(), String>) -> (r: Result<(), LaunchError>)
    ensures
        match outcome {
            Ok(_) => r is Ok,
            Err(source) => r matches Err(error) && error@ == error::plain(
                "sandbox runtime temp directory could not be removed: "@ + source@,
            ),
        },
{
    match outcome {
        Ok(_) => Ok(()),
        Err(source) => {
            let message = text::cat2(
                "sandbox runtime temp directory could not be removed: ",
                source.as_str(),
            );
            Err(LaunchError::new(message.as_str()))
        },
    }
}

// ---------------------------------------------------------------------------
// Reconciliation

/// One entry of the runtime root: its name where it is text, and whether it is
/// a directory.
#[derive(Debug)]
pub struct RuntimeEntry {
    pub name: Option<String>,
    pub is_dir: Result<bool, String>,
}

/// A name that the policy gives to runtime trees.
pub open spec fn is_runtime_name(name: Seq<char>) -> bool {
    "sandbox-"@.is_prefix_of(name)
}

/// Whether an entry is a leftover to remove. The type is read only for a
/// matching name.
pub open spec fn entry_outcome(entry: Result<RuntimeEntry, String>) -> Result<
    Option<Seq<char>>,
    LaunchErrorView,
> {
    match entry {
        Err(source) => Err(
            error::plain("sandbox runtime root entry could not be read: "@ + source@),
        ),
        Ok(entry) => match entry.name {
            None => Ok(None),
            Some(name) => if !is_runtime_name(name@) {
                Ok(None)
            } else {
                match entry.is_dir {
                    Err(source) => Err(
                        error::plain("sandbox runtime entry type could not be read: "@ + source@),
                    ),
                    Ok(is_dir) => if is_dir {
                        Ok(Some(name@))
                    } else {
                        Ok(None)
                    },
                }
            },
        },
    }
}

/// How many of the first `n` entries are leftovers.
pub open spec fn leftovers(entries: Seq<Result<RuntimeEntry, String>>, n: int) -> nat
    decreases n,
{
    if n <= 0 {
        0
    } else {
        leftovers(entries, n - 1) + (if entry_outcome(entries[n - 1]) matches Ok(Some(_)) {
            1nat
        } else {
            0nat
        })
    }
}

/// The removal of a leftover was asked for, with this outcome.
pub open spec fn removal_asked<F: Fn(&String) -> Result<(), String>>(
    remove: F,
    path: Seq<char>,
    outcome: Result<(), String>,
) -> bool {
    exists|item: &String| item@ == path && #[trigger] remove.ensures((item,), outcome)
}

/// The removal of a leftover was asked for and done.
pub open spec fn leftover_removed<F: Fn(&String) -> Result<(), String>>(
    path: Seq<char>,
    remove: F,
) -> bool {
    exists|outcome: Result<(), String>|
        outcome is Ok && #[trigger] removal_asked(remove, path, outcome)
}

/// The removal of a leftover was asked for and failed.
pub open spec fn removal_failed<F: Fn(&String) -> Result<(), String>>(
    remove: F,
    path: Seq<char>,
    source: String,
) -> bool {
    removal_asked(remove, path, Err(source))
}

/// An entry was read, and removed if it is a leftover.
pub open spec fn entry_passed<F: Fn(&String) -> Result<(), String>>(
    temp_root: Seq<char>,
    entry: Result<RuntimeEntry, String>,
    remove: F,
) -> bool {
    match entry_outcome(entry) {
        Err(_) => false,
        Ok(None) => true,
        Ok(Some(name)) => leftover_removed(paths::join_of(temp_root, name), remove),
    }
}

/// An entry stopped the reconciliation with an error.
pub open spec fn entry_stopped<F: Fn(&String) -> Result<(), String>>(
    temp_root: Seq<char>,
    entry: Result<RuntimeEntry, String>,
    remove: F,
    error: LaunchErrorView,
) -> bool {
    match entry_outcome(entry) {
        Err(e) => e == error,
        Ok(None) => false,
        Ok(Some(name)) => leftover_stopped(paths::join_of(temp_root, name), remove, error),
    }
}

/// The removal of a leftover failed with an error.
pub open spec fn leftover_stopped<F: Fn(&String) -> Result<(), String>>(
    path: Seq<char>,
    remove: F,
    error: LaunchErrorView,
) -> bool {
    exists|source: String|
        #[trigger] removal_failed(remove, path, source) && error == error::plain(
            "stale sandbox runtime temp could not be removed: "@ + source@,
        )
}

/// The reconciliation of a list of entries: every entry passed, or the first
/// that did not decides the error.
pub open spec fn reconciled<F: Fn(&String) -> Result<(), String>>(
    r: Result<usize, LaunchError>,
    temp_root: Seq<char>,
    entries: Seq<Result<RuntimeEntry, String>>,
    remove: F,
) -> bool {
    match r {
        Ok(removed) => removed == leftovers(entries, entries.len() as int) && forall|i: int|
            0 <= i < entries.len() ==> entry_passed(temp_root, #[trigger] entries[i], remove),
        Err(stopped) => exists|i: int|
            0 <= i < entries.len() && #[trigger] entry_stopped(
                temp_root,
                entries[i],
                remove,
                stopped@,
            ) && forall|k: int|
                0 <= k < i ==> entry_passed(temp_root, #[trigger] entries[k], remove),
    }
}

/// This entry is the leftover at this path, and every entry before it passed.
pub open spec fn leftover_due<F: Fn(&String) -> Result<(), String>>(
    entries: Seq<Result<RuntimeEntry, String>>,
    temp_root: Seq<char>,
    remove: F,
    path: Seq<char>,
    i: int,
) -> bool {
    &&& 0 <= i < entries.len()
    &&& entry_outcome(entries[i]) matches Ok(Some(name)) && path == paths::join_of(temp_root, name)
    &&& forall|k: int| 0 <= k < i ==> entry_passed(temp_root, #[trigger] entries[k], remove)
}

/// The removal of a path is due: the root is in order, and some listed entry is
/// the leftover at this path.
pub open spec fn removal_due<F: Fn(&String) -> Result<(), String>>(
    root: Result<(), String>,
    listing: Result<Vec<Result<RuntimeEntry, String>>, String>,
    temp_root: Seq<char>,
    remove: F,
    path: Seq<char>,
) -> bool {
    root is Ok && (listing matches Ok(entries) && exists|i: int|
        #[trigger] leftover_due(entries@, temp_root, remove, path, i))
}

fn stale_name(entry: &Result<RuntimeEntry, String>) -> (r: Result<Option<String>, LaunchError>)
    ensures
        match entry_outcome(*entry) {
            Ok(expected) => r matches Ok(name) && text::optional(name) == expected,
            Err(expected) => r matches Err(error) && error@ == expected,
        },
{
    let entry = match entry {
        Err(source) => {
            let message = text::cat2(
                "sandbox runtime root entry could not be read: ",
                source.as_str(),
            );
            return Err(LaunchError::new(message.as_str()));
        },
        Ok(entry) => entry,
    };
    let name = match &entry.name {
        None => {
            return Ok(None);
        },
        Some(name) => name,
    };
    let chars = text::chars_of(name.as_str());
    let prefix = text::chars_of("sandbox-");
    if !text::has_prefix(chars.as_slice(), prefix.as_slice()) {
        return Ok(None);
    }
    match &entry.is_dir {
        Err(source) => {
            let message = text::cat2(
                "sandbox runtime entry type could not be read: ",
                source.as_str(),
            );
            Err(LaunchError::new(message.as_str()))
        },
        Ok(is_dir) => {
            if *is_dir {
                Ok(Some(name.clone()))
            } else {
                Ok(None)
            }
        },
    }
}

impl SandboxLaunchPolicy {
    /// Remove generation trees left by a previous daemon instance, and count
    /// them. The runtime root is checked first; the name prefix narrows cleanup
    /// to trees created by this policy and leaves unrelated files untouched:
    /// nothing else is ever handed to `remove`.
    pub fn reconcile_runtime_temp<F: Fn(&String) -> Result<(), String>>(
        &self,
        root: Result<(), String>,
        listing: Result<Vec<Result<RuntimeEntry, String>>, String>,
        remove: &F,
    ) -> (r: Result<usize, LaunchError>)
        requires
            forall|path: &String| #[trigger]
                removal_due(root, listing, self@.temp_root, *remove, path@) ==> remove.requires(
                    (path,),
                ),
        ensures
            match (root, listing) {
                (Err(source), _) => r matches Err(error) && error@ == error::plain(
                    "sandbox runtime root is unsafe: "@ + source@,
                ),
                (Ok(_), Err(source)) => r matches Err(error) && error@ == error::plain(
                    "sandbox runtime root could not be listed: "@ + source@,
                ),
                (Ok(_), Ok(entries)) => reconciled(r, self@.temp_root, entries@, *remove),
            },
    {
        if let Err(source) = root {
            let message = text::cat2("sandbox runtime root is unsafe: ", source.as_str());
            return Err(LaunchError::new(message.as_str()));
        }
        let entries = match listing {
            Err(source) => {
                let message = text::cat2(
                    "sandbox runtime root could not be listed: ",
                    source.as_str(),
                );
                return Err(LaunchError::new(message.as_str()));
            },
            Ok(entries) => entries,
        };
        let mut removed: usize = 0;
        let mut i: usize = 0;
        while i < entries.len()
            invariant
                i <= entries@.len(),
                root is Ok,
                listing == Ok::<Vec<Result<RuntimeEntry, String>>, String>(entries),
                forall|path: &String| #[trigger]
                    removal_due(root, listing, self@.temp_root, *remove, path@)
                        ==> remove.requires((path,)),
                removed == leftovers(entries@, i as int),
                removed <= i,
                forall|k: int|
                    0 <= k < i ==> entry_passed(self@.temp_root, #[trigger] entries@[k], *remove),
            decreases entries@.len() - i,
        {
            match stale_name(&entries[i]) {
                Err(error) => {
                    assert(entry_stopped(
                        self@.temp_root,
                        entries@[i as int],
                        *remove,
                        error@,
                    ));
                    return Err(error);
                },
                Ok(None) => {},
                Ok(Some(name)) => {
                    let path = paths::join(self.temp_root(), name.as_str());
                    proof {
                        assert(leftover_due(
                            listing->Ok_0@,
                            self@.temp_root,
                            *remove,
                            path@,
                            i as int,
                        ));
                        assert(removal_due(root, listing, self@.temp_root, *remove, (&path)@));
                    }
                    let outcome = remove(&path);
                    proof {
                        let asked: &String = &path;
                        assert(remove.ensures((asked,), outcome));
                        assert(removal_asked(*remove, path@, outcome));
                    }
                    match outcome {
                        Ok(_) => {
                            assert(leftover_removed(path@, *remove));
                        },
                        Err(source) => {
                            let message = text::cat2(
                                "stale sandbox runtime temp could not be removed: ",
                                source.as_str(),
                            );
                            let error = LaunchError::new(message.as_str());
                            proof {
                                assert(removal_failed(*remove, path@, source));
                                assert(leftover_stopped(path@, *remove, error@));
                                assert(entry_stopped(
                                    self@.temp_root,
                                    entries@[i as int],
                                    *remove,
                                    error@,
                                ));
                            }
                            return Err(error);
                        },
                    }
                    removed = removed + 1;
                },
            }
            i = i + 1;
        }
        Ok(removed)
    }
}

/// Names that the policy gives to runtime trees are recognized as leftovers.
pub proof fn runtime_names_are_recognized(token: u128, generation: u64)
    ensures
        is_runtime_name(
            "sandbox-"@ + token::token_of(token) + "-"@ + text::decimal(generation as nat),
        ),
{
    let name = "sandbox-"@ + token::token_of(token) + "-"@ + text::decimal(generation as nat);
    assert("sandbox-"@ =~= name.subrange(0, "sandbox-"@.len() as int));
}

/// Two launches with different tokens never share a directory.
pub proof fn launches_have_their_own_directories(temp_root: Seq<char>, a: u128, b: u128)
    requires
        paths_of(temp_root, TempKind::Launch, a) == paths_of(temp_root, TempKind::Launch, b),
    ensures
        a == b,
{
    let x = "launch-"@ + token::token_of(a);
    let y = "launch-"@ + token::token_of(b);
    let p = paths::join_of(temp_root, x);
    let q = paths::join_of(temp_root, y);
    let base = paths::join_of(temp_root, seq![]);
    assert(p =~= base + x);
    assert(q =~= base + y);
    assert(p == q);
    let n = base.len() as int;
    assert(p.skip(n) =~= x);
    assert(q.skip(n) =~= y);
    assert(x.skip("launch-"@.len() as int) =~= token::token_of(a));
    assert(y.skip("launch-"@.len() as int) =~= token::token_of(b));
    token::tokens_tell_apart(a, b);
}

// ---------------------------------------------------------------------------
// Laws

/// A taken name is tried again, up to 32 times in all; every other failure ends
/// the attempt, and what it made is removed: nothing before the root exists, the
/// root alone until it was checked, and the whole tree from then on.
pub proof fn failed_attempts_leave_nothing_behind(
    kind: TempKind,
    phase: TempPhase,
    attempt: u32,
    outcome: TempOutcome,
    names: TempView,
)
    ensures
        decision(kind, phase, attempt, outcome) is Retry <==> phase == TempPhase::CreateRoot && (
        outcome matches TempOutcome::Failed { exists, .. } && exists) && attempt < 31,
        decision(kind, phase, attempt, outcome) is Fail <==> outcome is Failed && !(decision(
            kind,
            phase,
            attempt,
            outcome,
        ) is Retry),
        outcome is Failed ==> removal_after(kind, phase, attempt, outcome, names) == match phase {
            TempPhase::CreateRoot => None,
            TempPhase::CheckRoot => Some(WorkView::RemoveDirectory(names.root)),
            _ => Some(WorkView::RemoveTree(names.root)),
        },
        outcome is Done ==> removal_after(kind, phase, attempt, outcome, names) is None,
{
}

/// A directory is checked right after it was created, a runtime directory gets
/// its inner directory after its root was checked, and it is ready after the
/// last check; each phase works on the directory it is about.
pub proof fn directories_are_checked_once_created(
    kind: TempKind,
    attempt: u32,
    names: TempView,
)
    ensures
        decision(kind, TempPhase::CreateRoot, attempt, TempOutcome::Done)
            == DecisionView::Continue(TempPhase::CheckRoot),
        decision(kind, TempPhase::CheckRoot, attempt, TempOutcome::Done) == if kind
            == TempKind::Launch {
            DecisionView::Ready
        } else {
            DecisionView::Continue(TempPhase::CreateInner)
        },
        kind != TempKind::Launch ==> decision(
            kind,
            TempPhase::CreateInner,
            attempt,
            TempOutcome::Done,
        ) == DecisionView::Continue(TempPhase::CheckInner),
        decision(kind, TempPhase::CheckInner, attempt, TempOutcome::Done) is Ready,
        work_of(TempPhase::CreateRoot, names) == WorkView::Create(names.root),
        work_of(TempPhase::CheckRoot, names) == WorkView::Check(names.root),
        work_of(TempPhase::CreateInner, names) == WorkView::Create(names.path),
        work_of(TempPhase::CheckInner, names) == WorkView::Check(names.path),
{
}

proof fn lemma_launch_name(token: u128)
    ensures
        paths::is_component("launch-"@ + token::token_of(token)),
{
    let hex = token::token_of(token);
    let name = "launch-"@ + hex;
    reveal_strlit("launch-");
    reveal_strlit(".");
    reveal_strlit("..");
    token::lemma_hex_text(token as nat, token::TOKEN_HEX as nat);
    assert(name[0] == 'l');
    assert("."@[0] == '.' && ".."@[0] == '.');
    assert forall|i: int| 0 <= i < name.len() implies name[i] != '/' by {
        if i >= 7 {
            assert(name[i] == hex[i - 7]);
            assert(token::is_hex(hex[i - 7]));
        }
    }
}

proof fn lemma_runtime_name(token: u128, generation: u64)
    ensures
        paths::is_component(
            "sandbox-"@ + token::token_of(token) + "-"@ + text::decimal(generation as nat),
        ),
{
    let hex = token::token_of(token);
    let digits = text::decimal(generation as nat);
    let name = "sandbox-"@ + hex + "-"@ + digits;
    reveal_strlit("sandbox-");
    reveal_strlit("-");
    reveal_strlit(".");
    reveal_strlit("..");
    token::lemma_hex_text(token as nat, token::TOKEN_HEX as nat);
    text::lemma_decimal_value(generation as nat);
    assert(name[0] == 's');
    assert("."@[0] == '.' && ".."@[0] == '.');
    assert forall|i: int| 0 <= i < name.len() implies name[i] != '/' by {
        if i > 40 {
            assert(name[i] == digits[i - 41]);
            assert(text::is_digit(digits[i - 41]));
        } else if 8 <= i < 40 {
            assert(name[i] == hex[i - 8]);
            assert(token::is_hex(hex[i - 8]));
        }
    }
}

/// A launch directory lies right below the temp root and is used as it is. A
/// runtime root lies there too, under a name that is recognized as one, and is
/// used through the directory inside it.
pub proof fn temp_directories_lie_below_the_root(
    temp_root: Seq<char>,
    token: u128,
    generation: u64,
)
    requires
        temp_root.len() > 0,
    ensures
        ({
            let launch = paths_of(temp_root, TempKind::Launch, token);
            let runtime = paths_of(temp_root, TempKind::Runtime { generation }, token);
            &&& launch.path == launch.root
            &&& paths::parent_of(launch.root) == Some(paths::trimmed_of(temp_root))
            &&& paths::file_name_of(launch.root) matches Some(name) && !is_runtime_name(name)
            &&& paths::parent_of(runtime.root) == Some(paths::trimmed_of(temp_root))
            &&& paths::file_name_of(runtime.root) matches Some(name) && is_runtime_name(name)
            &&& paths::file_name_of(runtime.path) == Some("tmp"@)
            &&& runtime.path == paths::join_of(runtime.root, "tmp"@)
        }),
{
    let launch = "launch-"@ + token::token_of(token);
    let runtime = "sandbox-"@ + token::token_of(token) + "-"@ + text::decimal(generation as nat);
    lemma_launch_name(token);
    lemma_runtime_name(token, generation);
    runtime_names_are_recognized(token, generation);
    paths::joined_paths_come_apart(temp_root, launch);
    paths::joined_paths_come_apart(temp_root, runtime);
    reveal_strlit("tmp");
    reveal_strlit("launch-");
    reveal_strlit("sandbox-");
    reveal_strlit(".");
    reveal_strlit("..");
    assert(launch[0] == 'l');
    if is_runtime_name(launch) {
        assert(launch.subrange(0, 8)[0] == 's');
    }
    assert("tmp"@[0] == 't' && "."@[0] == '.' && ".."@[0] == '.');
    assert forall|i: int| 0 <= i < "tmp"@.len() implies "tmp"@[i] != '/' by {}
    paths::joined_paths_come_apart(paths::join_of(temp_root, runtime), "tmp"@);
}

/// Two runtime roots are the same only for one token and one generation.
pub proof fn runtimes_have_their_own_directories(
    temp_root: Seq<char>,
    a: u128,
    b: u128,
    one: u64,
    two: u64,
)
    requires
        temp_root.len() > 0,
        paths_of(temp_root, TempKind::Runtime { generation: one }, a).root == paths_of(
            temp_root,
            TempKind::Runtime { generation: two },
            b,
        ).root,
    ensures
        a == b,
        one == two,
{
    let x = token::token_of(a);
    let y = token::token_of(b);
    let d = text::decimal(one as nat);
    let e = text::decimal(two as nat);
    let left = "sandbox-"@ + x + "-"@ + d;
    let right = "sandbox-"@ + y + "-"@ + e;
    lemma_runtime_name(a, one);
    lemma_runtime_name(b, two);
    paths::joined_paths_come_apart(temp_root, left);
    paths::joined_paths_come_apart(temp_root, right);
    assert(left == right);
    reveal_strlit("sandbox-");
    reveal_strlit("-");
    token::lemma_hex_text(a as nat, token::TOKEN_HEX as nat);
    token::lemma_hex_text(b as nat, token::TOKEN_HEX as nat);
    assert(left.subrange(8, 40) =~= x);
    assert(right.subrange(8, 40) =~= y);
    token::tokens_tell_apart(a, b);
    assert(left.skip(41) =~= d);
    assert(right.skip(41) =~= e);
    text::lemma_decimal_value(one as nat);
    text::lemma_decimal_value(two as nat);
}

/// A leftover is a directory with a runtime name, and nothing else is removed;
/// only an entry that cannot be read, or a runtime name whose type cannot, stops
/// the sweep.
pub proof fn only_runtime_directories_are_swept(entry: Result<RuntimeEntry, String>)
    ensures
        entry_outcome(entry) matches Ok(Some(name)) ==> {
            &&& entry->Ok_0.name matches Some(found) && found@ == name
            &&& is_runtime_name(name)
            &&& entry->Ok_0.is_dir == Ok::<bool, String>(true)
        },
        entry is Err ==> entry_outcome(entry) is Err,
        entry matches Ok(found) ==> {
            let runtime = found.name matches Some(name) && is_runtime_name(name@);
            &&& entry_outcome(entry) is Err <==> runtime && found.is_dir is Err
            &&& entry_outcome(entry) == Ok::<Option<Seq<char>>, LaunchErrorView>(None) <==> !runtime
                || found.is_dir == Ok::<bool, String>(false)
        },
{
}

/// A leftover is removed as a tree only if it is a directory of its own; a link
/// and everything else is unlinked, and what is missing is gone.
pub proof fn links_are_never_followed(stat: TreeStat, r: Result<TreeRemoval, String>)
    requires
        call_ensures(remove_launch_temp_tree, (stat,), r),
    ensures
        r == Ok::<TreeRemoval, String>(TreeRemoval::RemoveAll) <==> (stat matches TreeStat::Found {
            is_symlink,
            is_dir,
        } && is_dir && !is_symlink),
        r == Ok::<TreeRemoval, String>(TreeRemoval::Gone) <==> stat is Missing,
        r is Err <==> stat is Failed,
{
}

/// A failed attempt says which directory is at fault and keeps the cause: a
/// launch directory that could not be created carries it apart, and every other
/// message ends with it, but for that of a runtime root, which was not created.
pub proof fn failures_keep_their_cause(
    kind: TempKind,
    phase: TempPhase,
    attempt: u32,
    outcome: TempOutcome,
    r: TempDecision,
)
    requires
        call_ensures(decide, (kind, phase, attempt, outcome), r),
    ensures
        match (outcome, r) {
            (TempOutcome::Failed { exists, source }, TempDecision::Fail { error, .. }) => {
                let created = phase == TempPhase::CreateRoot;
                &&& error@.source is Some <==> kind == TempKind::Launch && created && !exists
                &&& error@.source is Some ==> error@.source->0 == source@
                &&& !created ==> exists|prefix: Seq<char>| error@.message == #[trigger] (prefix
                    + source@)
                &&& "sandbox launch temp"@.is_prefix_of(error@.message) <==> kind
                    == TempKind::Launch
                &&& "sandbox runtime temp"@.is_prefix_of(error@.message) <==> kind
                    != TempKind::Launch
            },
            _ => true,
        },
{
    reveal_strlit("sandbox launch temp");
    reveal_strlit("sandbox runtime temp");
    reveal_strlit("sandbox launch temp directory could not be created");
    reveal_strlit("sandbox launch temp directory is not private: ");
    reveal_strlit("sandbox runtime temp root could not be created");
    reveal_strlit("sandbox runtime temp root is not private: ");
    reveal_strlit("sandbox runtime temp directory could not be created: ");
    reveal_strlit("sandbox runtime temp directory is not private: ");
    reveal_strlit("sandbox launch temp directory could not be allocated");
    reveal_strlit("sandbox runtime temp could not be allocated");
    if let (TempOutcome::Failed { exists, source }, TempDecision::Fail { error, .. }) = (
        outcome,
        r,
    ) {
        let launch = "sandbox launch temp"@;
        let runtime = "sandbox runtime temp"@;
        assert(launch[8] == 'l' && runtime[8] == 'r');
        assert(error@.message[8] == if kind == TempKind::Launch { 'l' } else { 'r' });
        if kind == TempKind::Launch {
            assert(error@.message.subrange(0, launch.len() as int) =~= launch);
        } else {
            assert(error@.message.subrange(0, runtime.len() as int) =~= runtime);
        }
    }
}

} // verus!
