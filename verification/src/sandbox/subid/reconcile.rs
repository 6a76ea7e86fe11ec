//! Startup lease reconciliation.
//!
//! Every recorded lease is held against its durable sandbox. A lease whose
//! sandbox is absent may be freed; one whose sandbox contradicts it is
//! quarantined; nothing else loses its pair.

use crate::auth::fingerprint::KeyFingerprint;
use crate::sandbox::id::SandboxId;
use crate::sandbox::subid::allocator::{self, Error, ErrorView, SubidAllocator};
use crate::sandbox::subid::ledger::{LeaseRecord, LeaseState, RecordView};
use crate::sandbox::subid::order;
use crate::text;
use vstd::prelude::*;

verus! {

/// What the durable-sandbox scan reports for one sandbox.
#[derive(Debug)]
pub enum SandboxView {
    Active { owner: KeyFingerprint },
    Deleting { owner: KeyFingerprint },
    Corrupt { reason: String },
}

/// The contents of a [`SandboxView`].
pub enum SandboxModel {
    Active { owner: Seq<char> },
    Deleting { owner: Seq<char> },
    Corrupt { reason: Seq<char> },
}

impl View for SandboxView {
    type V = SandboxModel;

    open spec fn view(&self) -> SandboxModel {
        match self {
            SandboxView::Active { owner } => SandboxModel::Active { owner: owner@ },
            SandboxView::Deleting { owner } => SandboxModel::Deleting { owner: owner@ },
            SandboxView::Corrupt { reason } => SandboxModel::Corrupt { reason: reason@ },
        }
    }
}

/// The contents of an optional sandbox.
pub open spec fn sandbox_model(sandbox: Option<SandboxView>) -> Option<SandboxModel> {
    match sandbox {
        Some(sandbox) => Some(sandbox@),
        None => None,
    }
}

/// Proof that the platform runtime sweep completed successfully. It can only
/// be made from a sweep's success.
#[derive(Debug, Clone, Copy)]
pub struct RuntimeReconciliationProof {
    swept: (),
}

impl RuntimeReconciliationProof {
    /// The proof of a sweep that returned success.
    pub fn from_successful_sweep() -> RuntimeReconciliationProof {
        RuntimeReconciliationProof { swept: () }
    }
}

/// What reconciliation did.
#[derive(Debug)]
pub struct Reconciliation {
    /// `Reserved` records promoted to `Active`.
    pub promoted: Vec<LeaseRecord>,
    /// Records removed: their pairs are free again.
    pub freed: Vec<LeaseRecord>,
    /// Records moved to `Quarantined`, with the reason.
    pub quarantined: Vec<(LeaseRecord, String)>,
    /// `Releasing` records whose sandbox tree still exists: deletion must be
    /// resumed by the caller.
    pub resuming_deletion: Vec<LeaseRecord>,
}

/// The contents of a [`Reconciliation`].
pub struct Report {
    pub promoted: Seq<RecordView>,
    pub freed: Seq<RecordView>,
    pub quarantined: Seq<(RecordView, Seq<char>)>,
    pub resuming_deletion: Seq<RecordView>,
}

/// The contents of a list of records with reasons.
pub open spec fn reasons(list: Seq<(LeaseRecord, String)>) -> Seq<(RecordView, Seq<char>)> {
    list.map_values(|entry: (LeaseRecord, String)| (entry.0@, entry.1@))
}

impl View for Reconciliation {
    type V = Report;

    open spec fn view(&self) -> Report {
        Report {
            promoted: order::views(self.promoted@),
            freed: order::views(self.freed@),
            quarantined: reasons(self.quarantined@),
            resuming_deletion: order::views(self.resuming_deletion@),
        }
    }
}

/// A report of nothing done.
pub open spec fn empty_report() -> Report {
    Report {
        promoted: seq![],
        freed: seq![],
        quarantined: seq![],
        resuming_deletion: seq![],
    }
}

impl Default for Reconciliation {
    fn default() -> (r: Reconciliation)
        ensures
            r@ == empty_report(),
    {
        let r = Reconciliation {
            promoted: Vec::new(),
            freed: Vec::new(),
            quarantined: Vec::new(),
            resuming_deletion: Vec::new(),
        };
        proof {
            assert(r@.promoted =~= empty_report().promoted);
            assert(r@.freed =~= empty_report().freed);
            assert(r@.quarantined =~= empty_report().quarantined);
            assert(r@.resuming_deletion =~= empty_report().resuming_deletion);
        }
        r
    }
}

// ---------------------------------------------------------------------------
// The state table

/// What happens to one lease.
pub enum Plan {
    Keep,
    Free,
    Promote,
    ResumeDeletion,
    Quarantine(Seq<char>),
}

/// The state table: what happens to a lease, given its durable sandbox and
/// whether the runtime is proven clean.
pub open spec fn plan(record: RecordView, sandbox: Option<SandboxModel>, proven: bool) -> Plan {
    match record.state {
        LeaseState::Reserved => match sandbox {
            None => Plan::Free,
            Some(SandboxModel::Corrupt { reason }) => Plan::Quarantine(reason),
            Some(SandboxModel::Active { owner }) | Some(SandboxModel::Deleting { owner }) => {
                if owner == record.owner {
                    Plan::Promote
                } else {
                    Plan::Quarantine(
                        "reserved lease owner does not match the durable sandbox owner"@,
                    )
                }
            },
        },
        LeaseState::Active => match sandbox {
            None => Plan::Quarantine("active lease with no durable sandbox"@),
            Some(SandboxModel::Corrupt { reason }) => Plan::Quarantine(
                "active lease has a corrupt durable sandbox: "@ + reason,
            ),
            Some(SandboxModel::Active { owner }) | Some(SandboxModel::Deleting { owner }) => {
                if owner == record.owner {
                    Plan::Keep
                } else {
                    Plan::Quarantine(
                        "active lease owner does not match the durable sandbox owner"@,
                    )
                }
            },
        },
        LeaseState::Releasing => match sandbox {
            None => if proven {
                Plan::Free
            } else {
                Plan::Keep
            },
            Some(SandboxModel::Corrupt { reason }) => Plan::Quarantine(
                "releasing lease has a corrupt durable sandbox: "@ + reason,
            ),
            Some(SandboxModel::Active { owner }) | Some(SandboxModel::Deleting { owner }) => {
                if owner == record.owner {
                    Plan::ResumeDeletion
                } else {
                    Plan::Quarantine(
                        "releasing lease owner does not match the durable sandbox owner"@,
                    )
                }
            },
        },
        LeaseState::Quarantined => Plan::Keep,
    }
}

/// A ledger and the report so far.
pub struct Progress {
    pub records: Seq<RecordView>,
    pub report: Report,
}

/// One lease reconciled.
pub open spec fn step(progress: Progress, record: RecordView, plan: Plan) -> Progress {
    let report = progress.report;
    match plan {
        Plan::Keep => progress,
        Plan::Free => Progress {
            records: order::removed(progress.records, record.lease_id),
            report: Report { freed: report.freed.push(record), ..report },
        },
        Plan::Promote => Progress {
            records: order::written(progress.records, record.with_state(LeaseState::Active)),
            report: Report {
                promoted: report.promoted.push(record.with_state(LeaseState::Active)),
                ..report
            },
        },
        Plan::ResumeDeletion => Progress {
            records: progress.records,
            report: Report { resuming_deletion: report.resuming_deletion.push(record), ..report },
        },
        Plan::Quarantine(reason) => Progress {
            records: order::written(progress.records, record.quarantined(reason)),
            report: Report { quarantined: report.quarantined.push((record, reason)), ..report },
        },
    }
}

/// The outcome of a lookup.
pub type Answer = Result<Option<SandboxView>, String>;

/// The sandbox of a successful lookup.
pub open spec fn answer_model(answer: Answer) -> Option<SandboxModel> {
    match answer {
        Ok(sandbox) => sandbox_model(sandbox),
        Err(_) => None,
    }
}

/// The first `n` leases reconciled, in ledger order.
pub open spec fn run(
    records: Seq<RecordView>,
    answers: Seq<Answer>,
    proven: bool,
    n: int,
) -> Progress
    decreases n,
{
    if n <= 0 {
        Progress { records, report: empty_report() }
    } else {
        step(
            run(records, answers, proven, n - 1),
            records[n - 1],
            plan(records[n - 1], answer_model(answers[n - 1]), proven),
        )
    }
}

/// Each answer comes from looking up the sandbox of its lease.
pub open spec fn answered<F: Fn(&SandboxId) -> Answer>(
    lookup: F,
    records: Seq<RecordView>,
    answers: Seq<Answer>,
) -> bool {
    &&& answers.len() <= records.len()
    &&& forall|i: int|
        0 <= i < answers.len() ==> exists|id: SandboxId|
            id@ == records[i].sandbox_id && lookup.ensures((&id,), #[trigger] answers[i])
}

/// What reconciliation leaves behind and returns. A lookup that fails ends it
/// before anything is changed: storage that cannot be inspected must not release
/// an identity.
pub open spec fn reconciled(
    records: Seq<RecordView>,
    answers: Seq<Answer>,
    proven: bool,
    after: Seq<RecordView>,
    r: Result<Reconciliation, Error>,
) -> bool {
    match r {
        Ok(report) => {
            &&& answers.len() == records.len()
            &&& forall|i: int| 0 <= i < answers.len() ==> (#[trigger] answers[i]) is Ok
            &&& after == run(records, answers, proven, records.len() as int).records
            &&& report@ == run(records, answers, proven, records.len() as int).report
        },
        Err(error) => {
            &&& 0 < answers.len() <= records.len()
            &&& forall|i: int| 0 <= i < answers.len() - 1 ==> (#[trigger] answers[i]) is Ok
            &&& answers.last() matches Err(reason) && error@ == ErrorView::Lookup(reason@)
            &&& after == records
        },
    }
}

/// Reconcile one lease, given what the lookup of its sandbox reported.
pub fn reconcile_record(
    allocator: &mut SubidAllocator,
    report: &mut Reconciliation,
    record: LeaseRecord,
    sandbox: Option<SandboxView>,
    proven: bool,
) -> (r: Result<(), Error>)
    requires
        order::find(old(allocator)@, record@.lease_id) == Some(record@),
        allocator::is_ledger(old(allocator)@),
    ensures
        r is Ok,
        allocator::is_ledger(final(allocator)@),
        (Progress { records: final(allocator)@, report: final(report)@ }) == step(
            Progress { records: old(allocator)@, report: old(report)@ },
            record@,
            plan(record@, sandbox_model(sandbox), proven),
        ),
{
    let ghost records = allocator@;
    let ghost start = report@;
    proof {
        order::lemma_position(records, record@.lease_id, 0);
        assert(seq![LeaseState::Reserved][0] == LeaseState::Reserved);
        assert(seq![LeaseState::Releasing][0] == LeaseState::Releasing);
        assert(seq![LeaseState::Reserved].contains(LeaseState::Reserved));
        assert(seq![LeaseState::Releasing].contains(LeaseState::Releasing));
    }
    let reason: String = match record.state {
        LeaseState::Reserved => match sandbox {
            None => {
                match allocator.free_reserved_absent(&record) {
                    Ok(_) => {},
                    Err(error) => {
                        return Err(error);
                    },
                }
                proof {
                    assert(order::views(report.freed@.push(record)) =~= order::views(
                        report.freed@,
                    ).push(record@));
                }
                report.freed.push(record);
                return Ok(());
            },
            Some(SandboxView::Active { owner }) | Some(SandboxView::Deleting { owner }) => {
                if owner.same(&record.owner) {
                    match allocator.activate(&record) {
                        Ok(promoted) => {
                            proof {
                                assert(order::views(report.promoted@.push(promoted))
                                    =~= order::views(report.promoted@).push(promoted@));
                            }
                            report.promoted.push(promoted);
                            return Ok(());
                        },
                        Err(error) => {
                            return Err(error);
                        },
                    }
                }
                String::from_str("reserved lease owner does not match the durable sandbox owner")
            },
            Some(SandboxView::Corrupt { reason }) => reason,
        },
        LeaseState::Active => match sandbox {
            None => String::from_str("active lease with no durable sandbox"),
            Some(SandboxView::Active { owner }) | Some(SandboxView::Deleting { owner }) => {
                if owner.same(&record.owner) {
                    return Ok(());
                }
                String::from_str("active lease owner does not match the durable sandbox owner")
            },
            Some(SandboxView::Corrupt { reason }) => text::cat2(
                "active lease has a corrupt durable sandbox: ",
                reason.as_str(),
            ),
        },
        LeaseState::Releasing => match sandbox {
            None => {
                if !proven {
                    return Ok(());
                }
                match allocator.finish_release(&record) {
                    Ok(_) => {},
                    Err(error) => {
                        return Err(error);
                    },
                }
                proof {
                    assert(order::views(report.freed@.push(record)) =~= order::views(
                        report.freed@,
                    ).push(record@));
                }
                report.freed.push(record);
                return Ok(());
            },
            Some(SandboxView::Active { owner }) | Some(SandboxView::Deleting { owner }) => {
                if owner.same(&record.owner) {
                    proof {
                        assert(order::views(report.resuming_deletion@.push(record))
                            =~= order::views(report.resuming_deletion@).push(record@));
                    }
                    report.resuming_deletion.push(record);
                    return Ok(());
                }
                String::from_str("releasing lease owner does not match the durable sandbox owner")
            },
            Some(SandboxView::Corrupt { reason }) => text::cat2(
                "releasing lease has a corrupt durable sandbox: ",
                reason.as_str(),
            ),
        },
        LeaseState::Quarantined => {
            return Ok(());
        },
    };
    match allocator.quarantine(&record, reason.as_str()) {
        Ok(_) => {
            proof {
                assert(reasons(report.quarantined@.push((record, reason))) =~= reasons(
                    report.quarantined@,
                ).push((record@, reason@)));
            }
            report.quarantined.push((record, reason));
            Ok(())
        },
        Err(error) => Err(error),
    }
}

/// Every lease from position `n` on is still recorded as it was.
pub open spec fn untouched_from(
    records: Seq<RecordView>,
    current: Seq<RecordView>,
    n: int,
) -> bool {
    forall|k: int|
        n <= k < records.len() ==> order::find(current, (#[trigger] records[k]).lease_id) == Some(
            records[k],
        )
}

proof fn lemma_step_untouched(
    records: Seq<RecordView>,
    progress: Progress,
    n: int,
    sandbox: Option<SandboxModel>,
    proven: bool,
)
    requires
        order::is_ordered(records),
        order::is_ordered(progress.records),
        0 <= n < records.len(),
        untouched_from(records, progress.records, n),
    ensures
        untouched_from(
            records,
            step(progress, records[n], plan(records[n], sandbox, proven)).records,
            n + 1,
        ),
{
    let record = records[n];
    let next = step(progress, record, plan(record, sandbox, proven)).records;
    assert forall|k: int| n + 1 <= k < records.len() implies order::find(
        next,
        (#[trigger] records[k]).lease_id,
    ) == Some(records[k]) by {
        if records[k].lease_id == record.lease_id {
            order::ordered_leases_are_distinct(records, n, k);
        }
        match plan(record, sandbox, proven) {
            Plan::Free => {
                order::removing_changes_one_lease(
                    progress.records,
                    record.lease_id,
                    records[k].lease_id,
                );
            },
            Plan::Promote => {
                order::writing_changes_one_lease(
                    progress.records,
                    record.with_state(LeaseState::Active),
                    records[k].lease_id,
                );
            },
            Plan::Quarantine(reason) => {
                order::writing_changes_one_lease(
                    progress.records,
                    record.quarantined(reason),
                    records[k].lease_id,
                );
            },
            _ => {},
        }
    }
}

/// The lookup of a sandbox is due: it belongs to the next lease of a ledger
/// without double claims, and every lookup before it was answered.
pub open spec fn lookup_due<F: Fn(&SandboxId) -> Answer>(
    lookup: F,
    records: Seq<RecordView>,
    id: Seq<char>,
) -> bool {
    allocator::uniqueness_error(records, 0) is None && exists|answers: Seq<Answer>| #[trigger]
        answered(lookup, records, answers) && answers.len() < records.len()
            && records[answers.len() as int].sandbox_id == id && forall|k: int|
            0 <= k < answers.len() ==> (#[trigger] answers[k]) is Ok
}

/// What looking every sandbox up gave: every answer, or the first error.
pub open spec fn looked_up(
    records: Seq<RecordView>,
    answers: Seq<Answer>,
    r: Result<Vec<Option<SandboxView>>, String>,
) -> bool {
    match r {
        Ok(sandboxes) => {
            &&& answers.len() == records.len()
            &&& sandboxes@.len() == records.len()
            &&& forall|i: int|
                0 <= i < answers.len() ==> (#[trigger] answers[i]) == Ok::<
                    Option<SandboxView>,
                    String,
                >(sandboxes@[i])
        },
        Err(reason) => {
            &&& 0 < answers.len() <= records.len()
            &&& forall|i: int| 0 <= i < answers.len() - 1 ==> (#[trigger] answers[i]) is Ok
            &&& answers.last() == Err::<Option<SandboxView>, String>(reason)
        },
    }
}

/// Look up the sandbox of every lease, until one lookup fails.
fn look_up_all<F: Fn(&SandboxId) -> Answer>(records: &Vec<LeaseRecord>, lookup: &F) -> (r: Result<
    Vec<Option<SandboxView>>,
    String,
>)
    requires
        allocator::uniqueness_error(order::views(records@), 0) is None,
        forall|id: SandboxId|
            lookup_due(*lookup, order::views(records@), id@) ==> #[trigger] lookup.requires((&id,)),
    ensures
        exists|answers: Seq<Answer>| #[trigger]
            answered(*lookup, order::views(records@), answers) && looked_up(
                order::views(records@),
                answers,
                r,
            ),
{
    let ghost all = order::views(records@);
    let ghost mut answers: Seq<Answer> = Seq::empty();
    let mut sandboxes: Vec<Option<SandboxView>> = Vec::new();
    let mut i: usize = 0;
    while i < records.len()
        invariant
            i <= records@.len(),
            all == order::views(records@),
            allocator::uniqueness_error(all, 0) is None,
            forall|id: SandboxId|
                lookup_due(*lookup, all, id@) ==> #[trigger] lookup.requires((&id,)),
            answers.len() == i,
            sandboxes@.len() == i,
            answered(*lookup, all, answers),
            forall|k: int|
                0 <= k < answers.len() ==> (#[trigger] answers[k]) == Ok::<
                    Option<SandboxView>,
                    String,
                >(sandboxes@[k]),
        decreases records@.len() - i,
    {
        let id = &records[i].sandbox_id;
        assert(all[i as int] == records@[i as int]@);
        assert(lookup_due(*lookup, all, id@));
        let answer = lookup(id);
        let ghost held = answer;
        let ghost asked = *id;
        let ghost before = answers;
        proof {
            answers = answers.push(held);
            assert forall|k: int| 0 <= k < answers.len() implies exists|id: SandboxId|
                id@ == all[k].sandbox_id && lookup.ensures((&id,), #[trigger] answers[k]) by {
                if k == i {
                    assert(asked@ == all[k].sandbox_id && lookup.ensures((&asked,), answers[k]));
                } else {
                    assert(answers[k] == before[k]);
                }
            }
            assert(answered(*lookup, all, answers));
        }
        match answer {
            Err(reason) => {
                proof {
                    assert forall|k: int| 0 <= k < answers.len() - 1 implies (
                    #[trigger] answers[k]) is Ok by {
                        assert(answers[k] == before[k]);
                    }
                }
                return Err(reason);
            },
            Ok(sandbox) => {
                let ghost known = sandboxes@;
                sandboxes.push(sandbox);
                proof {
                    assert forall|k: int| 0 <= k < answers.len() implies (#[trigger] answers[k])
                        == Ok::<Option<SandboxView>, String>(sandboxes@[k]) by {
                        if k < i {
                            assert(answers[k] == before[k]);
                            assert(sandboxes@[k] == known[k]);
                        }
                    }
                }
            },
        }
        i = i + 1;
    }
    Ok(sandboxes)
}

/// Hold every recorded lease against its durable sandbox. `lookup` answers
/// whether the sandbox exists, in which state and under which owner; every
/// lookup is asked first, and nothing is changed unless all were answered.
/// `runtime_proof` is present only after the caller has proven that no
/// processes or ephemeral runtime state remain. It is required before a
/// `Releasing` lease of an absent sandbox may be freed.
pub fn reconcile<F: Fn(&SandboxId) -> Answer>(
    allocator: &mut SubidAllocator,
    lookup: F,
    runtime_proof: Option<RuntimeReconciliationProof>,
) -> (r: Result<Reconciliation, Error>)
    requires
        forall|id: SandboxId|
            lookup_due(lookup, old(allocator)@, id@) ==> #[trigger] lookup.requires((&id,)),
    ensures
        allocator::is_ledger(final(allocator)@),
        match allocator::uniqueness_error(old(allocator)@, 0) {
            Some(reason) => (r matches Err(error) && error@ == ErrorView::Corrupt(reason)) && final(
                allocator
            )@ == old(allocator)@,
            None => exists|answers: Seq<Answer>|
                #[trigger] answered(lookup, old(allocator)@, answers) && reconciled(
                    old(allocator)@,
                    answers,
                    runtime_proof is Some,
                    final(allocator)@,
                    r,
                ),
        },
{
    let ghost all = allocator@;
    let records = match allocator.load() {
        Ok(records) => records,
        Err(error) => {
            return Err(error);
        },
    };
    let looked = look_up_all(&records, &lookup);
    let ghost answers = choose|answers: Seq<Answer>| #[trigger]
        answered(lookup, all, answers) && looked_up(all, answers, looked);
    let mut sandboxes = match looked {
        Ok(sandboxes) => sandboxes,
        Err(reason) => {
            return Err(Error::Lookup(reason));
        },
    };
    let ghost found = sandboxes@;
    let proven = runtime_proof.is_some();
    let mut report = Reconciliation::default();
    let mut i: usize = 0;
    proof {
        assert forall|k: int| 0 <= k < all.len() implies order::find(
            all,
            (#[trigger] all[k]).lease_id,
        ) == Some(all[k]) by {
            order::lemma_find_member(all, all[k]);
        }
        assert(sandboxes@ =~= found.skip(0));
    }
    while i < records.len()
        invariant
            i <= records@.len(),
            order::views(records@) == all,
            allocator::is_ledger(all),
            allocator::is_ledger(allocator@),
            answers.len() == all.len(),
            found.len() == all.len(),
            forall|k: int|
                0 <= k < answers.len() ==> (#[trigger] answers[k]) == Ok::<
                    Option<SandboxView>,
                    String,
                >(found[k]),
            sandboxes@ == found.skip(i as int),
            (Progress { records: allocator@, report: report@ }) == run(
                all,
                answers,
                proven,
                i as int,
            ),
            untouched_from(all, allocator@, i as int),
        decreases records@.len() - i,
    {
        let record = records[i].clone();
        assert(all[i as int] == record@);
        let sandbox = sandboxes.remove(0);
        let ghost progress = Progress { records: allocator@, report: report@ };
        let ghost model = sandbox_model(sandbox);
        proof {
            assert(answers[i as int] == Ok::<Option<SandboxView>, String>(sandbox));
            assert(sandboxes@ =~= found.skip(i + 1));
        }
        let _ = reconcile_record(allocator, &mut report, record, sandbox, proven);
        proof {
            lemma_step_untouched(all, progress, i as int, model, proven);
        }
        i = i + 1;
    }
    Ok(report)
}

// ---------------------------------------------------------------------------
// Laws

/// A lease is freed exactly when its sandbox is absent and the lease was either
/// never launchable, or releasing with the runtime proven clean. In particular
/// a corrupt sandbox, a foreign owner, an active lease, and a quarantined lease
/// never lose their identity.
pub proof fn only_absent_sandboxes_are_freed(
    record: RecordView,
    sandbox: Option<SandboxModel>,
    proven: bool,
)
    ensures
        plan(record, sandbox, proven) is Free <==> sandbox is None && (record.state
            == LeaseState::Reserved || (record.state == LeaseState::Releasing && proven)),
{
}

/// A contradiction between a lease and its sandbox is quarantined: a corrupt
/// sandbox, or one that belongs to somebody else.
pub proof fn contradictions_are_quarantined(
    record: RecordView,
    sandbox: SandboxModel,
    proven: bool,
)
    requires
        record.state != LeaseState::Quarantined,
        match sandbox {
            SandboxModel::Active { owner } => owner != record.owner,
            SandboxModel::Deleting { owner } => owner != record.owner,
            SandboxModel::Corrupt { .. } => true,
        },
    ensures
        plan(record, Some(sandbox), proven) is Quarantine,
{
}

/// A quarantined lease is left to the operator.
pub proof fn quarantined_leases_are_kept(
    record: RecordView,
    sandbox: Option<SandboxModel>,
    proven: bool,
)
    requires
        record.state == LeaseState::Quarantined,
    ensures
        plan(record, sandbox, proven) is Keep,
{
}

/// If any lookup fails, the ledger is left unmodified: every lease keeps its
/// ids, its owner and its state.
pub proof fn a_failed_lookup_changes_nothing(
    records: Seq<RecordView>,
    answers: Seq<Answer>,
    proven: bool,
    after: Seq<RecordView>,
    r: Result<Reconciliation, Error>,
)
    requires
        reconciled(records, answers, proven, after, r),
        r is Err,
    ensures
        after == records,
        answers.last() matches Err(reason) && r->Err_0@ == ErrorView::Lookup(reason@),
{
}

/// Reconciling keeps the ledger ordered, keeps it unique, and keeps the
/// incarnation of every lease that is not freed.
pub proof fn reconciling_keeps_identities(
    records: Seq<RecordView>,
    answers: Seq<Answer>,
    proven: bool,
    n: int,
)
    requires
        allocator::is_ledger(records),
        allocator::is_unique(records),
        0 <= n <= records.len(),
    ensures
        order::is_ordered(run(records, answers, proven, n).records),
        allocator::is_unique(run(records, answers, proven, n).records),
        untouched_from(records, run(records, answers, proven, n).records, n),
        forall|k: int|
            0 <= k < n ==> match order::find(
                run(records, answers, proven, n).records,
                (#[trigger] records[k]).lease_id,
            ) {
                Some(kept) => kept.same_incarnation(records[k]) && !(plan(
                    records[k],
                    answer_model(answers[k]),
                    proven,
                ) is Free),
                None => plan(records[k], answer_model(answers[k]), proven) is Free,
            },
    decreases n,
{
    if n == 0 {
        assert forall|k: int| 0 <= k < records.len() implies order::find(
            records,
            (#[trigger] records[k]).lease_id,
        ) == Some(records[k]) by {
            order::lemma_find_member(records, records[k]);
        }
    } else {
        reconciling_keeps_identities(records, answers, proven, n - 1);
        let progress = run(records, answers, proven, n - 1);
        let before = progress.records;
        let record = records[n - 1];
        let sandbox = answer_model(answers[n - 1]);
        let chosen = plan(record, sandbox, proven);
        let after = run(records, answers, proven, n).records;
        lemma_step_untouched(records, progress, n - 1, sandbox, proven);
        assert(order::find(before, record.lease_id) == Some(record));
        order::lemma_position(before, record.lease_id, 0);
        assert(before.contains(record));
        match chosen {
            Plan::Free => {
                order::removing_keeps_the_order(before, record.lease_id);
                allocator::removals_keep_the_ledger_unique(before, record.lease_id);
            },
            Plan::Promote => {
                let next = record.with_state(LeaseState::Active);
                order::writing_keeps_the_order(before, next);
                allocator::transitions_keep_the_ledger_unique(before, record, next);
            },
            Plan::Quarantine(reason) => {
                let next = record.quarantined(reason);
                order::writing_keeps_the_order(before, next);
                allocator::transitions_keep_the_ledger_unique(before, record, next);
            },
            _ => {},
        }
        assert forall|k: int| 0 <= k < n implies match order::find(
            after,
            (#[trigger] records[k]).lease_id,
        ) {
            Some(kept) => kept.same_incarnation(records[k]) && !(plan(
                records[k],
                answer_model(answers[k]),
                proven,
            ) is Free),
            None => plan(records[k], answer_model(answers[k]), proven) is Free,
        } by {
            if k < n - 1 && records[k].lease_id == record.lease_id {
                order::ordered_leases_are_distinct(records, k, n - 1);
            }
            match chosen {
                Plan::Free => {
                    order::removing_changes_one_lease(
                        before,
                        record.lease_id,
                        records[k].lease_id,
                    );
                },
                Plan::Promote => {
                    order::writing_changes_one_lease(
                        before,
                        record.with_state(LeaseState::Active),
                        records[k].lease_id,
                    );
                },
                Plan::Quarantine(reason) => {
                    order::writing_changes_one_lease(
                        before,
                        record.quarantined(reason),
                        records[k].lease_id,
                    );
                },
                _ => {},
            }
        }
    }
}

/// A sandbox that is present under the owner of the lease.
pub open spec fn is_owned(record: RecordView, sandbox: Option<SandboxModel>) -> bool {
    ||| sandbox == Some(SandboxModel::Active { owner: record.owner })
    ||| sandbox == Some(SandboxModel::Deleting { owner: record.owner })
}

/// A sandbox that contradicts the lease: corrupt, or present under another
/// owner, or missing although the lease is active.
pub open spec fn contradicts(record: RecordView, sandbox: Option<SandboxModel>) -> bool {
    if sandbox is None {
        record.state == LeaseState::Active
    } else {
        record.state != LeaseState::Quarantined && !is_owned(record, sandbox)
    }
}

/// What is done with a lease depends on its state and its sandbox alone: a
/// reservation whose sandbox is present under its owner is promoted, a release
/// whose sandbox is present under its owner has its deletion resumed, a
/// contradiction is quarantined, and an active lease whose sandbox is present
/// under its owner is left as it is, like a quarantined one and a release that
/// waits for the runtime.
pub proof fn leases_follow_their_sandboxes(
    record: RecordView,
    sandbox: Option<SandboxModel>,
    proven: bool,
)
    ensures
        plan(record, sandbox, proven) is Promote <==> record.state == LeaseState::Reserved
            && is_owned(record, sandbox),
        plan(record, sandbox, proven) is ResumeDeletion <==> record.state
            == LeaseState::Releasing && is_owned(record, sandbox),
        plan(record, sandbox, proven) is Quarantine <==> contradicts(record, sandbox),
        plan(record, sandbox, proven) is Keep <==> {
            ||| record.state == LeaseState::Quarantined
            ||| record.state == LeaseState::Active && is_owned(record, sandbox)
            ||| record.state == LeaseState::Releasing && sandbox is None && !proven
        },
{
}

/// The proof that the runtime is clean decides only about releases whose
/// sandbox is gone.
pub proof fn the_runtime_proof_only_frees_releases(
    record: RecordView,
    sandbox: Option<SandboxModel>,
)
    ensures
        plan(record, sandbox, true) != plan(record, sandbox, false) <==> record.state
            == LeaseState::Releasing && sandbox is None,
{
}

/// A quarantined lease says what state it was in and, for a corrupt sandbox,
/// ends with what the sandbox reported.
pub proof fn quarantine_reasons_name_the_state(
    record: RecordView,
    sandbox: Option<SandboxModel>,
    proven: bool,
    reason: Seq<char>,
)
    requires
        plan(record, sandbox, proven) == Plan::Quarantine(reason),
    ensures
        sandbox matches Some(SandboxModel::Corrupt { reason: why }) ==> why.is_suffix_of(reason),
        record.state == LeaseState::Reserved ==> {
            ||| "reserved lease "@.is_prefix_of(reason)
            ||| sandbox == Some(SandboxModel::Corrupt { reason })
        },
        record.state == LeaseState::Active ==> "active lease "@.is_prefix_of(reason),
        record.state == LeaseState::Releasing ==> "releasing lease "@.is_prefix_of(reason),
{
    reveal_strlit("reserved lease ");
    reveal_strlit("active lease ");
    reveal_strlit("releasing lease ");
    reveal_strlit("reserved lease owner does not match the durable sandbox owner");
    reveal_strlit("active lease owner does not match the durable sandbox owner");
    reveal_strlit("releasing lease owner does not match the durable sandbox owner");
    reveal_strlit("active lease with no durable sandbox");
    reveal_strlit("active lease has a corrupt durable sandbox: ");
    reveal_strlit("releasing lease has a corrupt durable sandbox: ");
}

/// Reconciling one lease changes its own record and nothing else: it becomes
/// active where it is promoted, carries the reason where it is quarantined, is
/// gone where it is freed, and is otherwise what it was.
pub proof fn reconciling_changes_one_lease(
    records: Seq<RecordView>,
    report: Report,
    record: RecordView,
    sandbox: Option<SandboxModel>,
    proven: bool,
    other: Seq<char>,
)
    requires
        order::is_ordered(records),
        order::find(records, record.lease_id) == Some(record),
    ensures
        ({
            let after = step(
                Progress { records, report },
                record,
                plan(record, sandbox, proven),
            ).records;
            let found = order::find(after, record.lease_id);
            &&& other != record.lease_id ==> order::find(after, other) == order::find(
                records,
                other,
            )
            &&& found is None <==> sandbox is None && (record.state == LeaseState::Reserved
                || (record.state == LeaseState::Releasing && proven))
            &&& found matches Some(kept) ==> {
                &&& kept.same_incarnation(record)
                &&& if contradicts(record, sandbox) {
                    kept.state == LeaseState::Quarantined && kept.quarantine_reason is Some
                } else if record.state == LeaseState::Reserved {
                    kept.state == LeaseState::Active && kept.quarantine_reason is None
                } else {
                    kept == record
                }
            }
        }),
{
    let chosen = plan(record, sandbox, proven);
    match chosen {
        Plan::Free => {
            order::removing_changes_one_lease(records, record.lease_id, other);
        },
        Plan::Promote => {
            order::writing_changes_one_lease(
                records,
                record.with_state(LeaseState::Active),
                other,
            );
        },
        Plan::Quarantine(reason) => {
            order::writing_changes_one_lease(records, record.quarantined(reason), other);
        },
        _ => {},
    }
}

/// The report names a lease exactly where something was done or is left to do,
/// once and in one list; an active lease whose sandbox is present under its
/// owner is not reported at all.
pub proof fn reports_name_what_was_done(
    records: Seq<RecordView>,
    report: Report,
    record: RecordView,
    sandbox: Option<SandboxModel>,
    proven: bool,
)
    ensures
        ({
            let after = step(
                Progress { records, report },
                record,
                plan(record, sandbox, proven),
            ).report;
            let released = sandbox is None && (record.state == LeaseState::Reserved || (
            record.state == LeaseState::Releasing && proven));
            &&& after.freed == if released {
                report.freed.push(record)
            } else {
                report.freed
            }
            &&& after.resuming_deletion == if record.state == LeaseState::Releasing && is_owned(
                record,
                sandbox,
            ) {
                report.resuming_deletion.push(record)
            } else {
                report.resuming_deletion
            }
            &&& if record.state == LeaseState::Reserved && is_owned(record, sandbox) {
                &&& after.promoted.len() == report.promoted.len() + 1
                &&& after.promoted.drop_last() == report.promoted
                &&& after.promoted.last().same_incarnation(record)
                &&& after.promoted.last().state == LeaseState::Active
            } else {
                after.promoted == report.promoted
            }
            &&& if contradicts(record, sandbox) {
                &&& after.quarantined.len() == report.quarantined.len() + 1
                &&& after.quarantined.drop_last() == report.quarantined
                &&& after.quarantined.last().0 == record
                &&& plan(record, sandbox, proven) == Plan::Quarantine(after.quarantined.last().1)
            } else {
                after.quarantined == report.quarantined
            }
        }),
{
}

} // verus!
