use shbox::auth::KeyFingerprint;
use shbox::sandbox::durable::{
    advance, lease_remove_steps, lease_write_steps, Action, Command, FaultInjector, FaultPoint,
    Step,
};
use shbox::sandbox::storage::Stat;
use shbox::sandbox::subid::allocator::{capacity, validate_uniqueness, IdKind};
use shbox::sandbox::subid::ledger::{lease_id_of, new_lease_id, LeaseStore, RecordFact};
use shbox::sandbox::subid::reconcile::reconcile;
use shbox::sandbox::subid::{
    Delegation, Error, LeaseRecord, LeaseState, RuntimeReconciliationProof, SandboxView,
    SubidAllocator, SubidRange,
};
use shbox::sandbox::SandboxId;

const EUID: u32 = 990;
const EGID: u32 = 991;

fn owner() -> KeyFingerprint {
    KeyFingerprint::parse(&format!("SHA256:{}", "A".repeat(43))).expect("owner")
}

fn other_owner() -> KeyFingerprint {
    KeyFingerprint::parse(&format!("SHA256:{}A", "B".repeat(42))).expect("owner")
}

fn sandbox(name: &str) -> SandboxId {
    SandboxId::parse(name).expect("sandbox id")
}

fn ranges(start: u64, count: u64) -> Vec<SubidRange> {
    vec![SubidRange::new(start, count).expect("range")]
}

fn delegation() -> Delegation {
    Delegation {
        uid_ranges: ranges(100_000, 6),
        gid_ranges: ranges(200_000, 6),
    }
}

fn tiny() -> Delegation {
    Delegation {
        uid_ranges: ranges(100_000, 1),
        gid_ranges: ranges(200_000, 1),
    }
}

fn copy(record: &LeaseRecord) -> LeaseRecord {
    record.with_state(record.state)
}

fn claim(
    alloc: &mut SubidAllocator,
    name: &str,
    delegation: &Delegation,
) -> Result<LeaseRecord, Error> {
    alloc.claim(&sandbox(name), &owner(), delegation, EUID, EGID)
}

fn claim_active(alloc: &mut SubidAllocator, name: &str) -> LeaseRecord {
    let record = claim(alloc, name, &delegation()).expect("claim");
    alloc.activate(&record).expect("activate")
}

fn full_release(alloc: &mut SubidAllocator, record: &LeaseRecord) {
    alloc.begin_release(record).expect("begin release");
    alloc.finish_release(record).expect("finish release");
}

#[test]
fn allocates_lowest_available_independently_per_kind() {
    let mut alloc = SubidAllocator::new();
    let first = claim_active(&mut alloc, "dev");
    // Independent pools: UID and GID numerics differ and are each the lowest
    // available of their own pool.
    assert_eq!(first.uid, 100_000);
    assert_eq!(first.gid, 200_000);
    let second = claim_active(&mut alloc, "prod");
    assert_eq!(second.uid, 100_001);
    assert_eq!(second.gid, 200_001);
    assert_ne!((first.uid, first.gid), (second.uid, second.gid));
}

#[test]
fn allocation_skips_fragmented_holes_and_zero() {
    let mut alloc = SubidAllocator::new();
    let delegation = Delegation {
        uid_ranges: vec![
            SubidRange::new(0, 2).expect("range"),       // includes ID 0
            SubidRange::new(100_000, 2).expect("range"), // fragmented second range
            SubidRange::new(50_000, 1).expect("range"),  // out of order
        ],
        gid_ranges: ranges(200_000, 2),
    };
    let record = claim(&mut alloc, "dev", &delegation).expect("claim");
    // 0 is skipped; lowest real ID is 1 from the first range.
    assert_eq!(record.uid, 1);
    let next = claim(&mut alloc, "prod", &delegation).expect("claim");
    // 0 and 1 are gone; the next lowest lives in the 50_000 range.
    assert_eq!(next.uid, 50_000);
}

#[test]
fn allocation_skips_daemon_uid_and_gid() {
    for (daemon_uid, daemon_gid) in [(EUID, EGID), (0, 0), (u32::MAX, u32::MAX)] {
        let mut alloc = SubidAllocator::new();
        let around = |reserved: u32| {
            if reserved == u32::MAX {
                ranges((u32::MAX - 1) as u64, 2)
            } else {
                ranges(reserved as u64, 2)
            }
        };
        let delegation = Delegation {
            uid_ranges: around(daemon_uid),
            gid_ranges: around(daemon_gid),
        };
        let record = alloc
            .claim(&sandbox("daemon-id"), &owner(), &delegation, daemon_uid, daemon_gid)
            .expect("claim the non-daemon IDs");
        assert_ne!(record.uid, daemon_uid);
        assert_ne!(record.gid, daemon_gid);
        assert_ne!(record.uid, 0);
        assert_ne!(record.gid, 0);
    }
}

#[test]
fn parallel_claims_are_unique() {
    let mut alloc = SubidAllocator::new();
    let mut pairs = Vec::new();
    for index in 0..3 {
        let record = claim(&mut alloc, &format!("sb{index}"), &delegation()).expect("claim");
        pairs.push((record.uid, record.gid));
    }
    let mut sorted = pairs.clone();
    sorted.sort_unstable();
    sorted.dedup();
    assert_eq!(sorted.len(), pairs.len(), "duplicate pair allocated: {pairs:?}");
    assert_eq!(pairs.len(), 3);
}

#[test]
fn released_pairs_are_reusable_and_churn_recycles_the_pool() {
    let mut alloc = SubidAllocator::new();
    // Pool of exactly one pair.
    let first = claim(&mut alloc, "dev", &tiny()).expect("claim");
    assert_eq!(first.uid, 100_000);
    assert!(
        claim(&mut alloc, "prod", &tiny()).is_err(),
        "pool of one must exhaust while leased"
    );
    alloc.activate(&first).expect("activate");
    full_release(&mut alloc, &first);
    // Churn: more create/delete cycles than the pool size.
    for cycle in 0..3 {
        let record =
            claim(&mut alloc, &format!("cycle{cycle}"), &tiny()).expect("claim after release");
        assert_eq!(record.uid, 100_000);
        assert_eq!(record.gid, 200_000);
        alloc.activate(&record).expect("activate");
        full_release(&mut alloc, &record);
    }
}

#[test]
fn releasing_and_quarantined_pairs_are_never_selected() {
    let mut alloc = SubidAllocator::new();
    let record = claim(&mut alloc, "dev", &tiny()).expect("claim");
    alloc.activate(&record).expect("activate");
    alloc.begin_release(&record).expect("begin release");
    let error = claim(&mut alloc, "prod", &tiny())
        .expect_err("releasing pair must not be selected");
    assert!(matches!(error, Error::Exhausted { .. }), "{}", error.message());
    alloc.quarantine(&record, "test").expect("quarantine");
    let error = claim(&mut alloc, "stage", &tiny())
        .expect_err("quarantined pair must not be selected");
    assert!(matches!(error, Error::Exhausted { .. }), "{}", error.message());
}

#[test]
fn quarantine_reason_survives_ledger_round_trip() {
    let mut disk = Disk::new();
    let record = disk.claim("reason").expect("claim");
    let record = disk.operate(|alloc| alloc.activate(&record)).expect("activate");
    let reason = "owner mismatch during startup";
    disk.operate(|alloc| alloc.quarantine(&record, reason)).expect("quarantine");
    let persisted = disk.lease_for("reason").expect("quarantined lease");
    assert_eq!(persisted.state, LeaseState::Quarantined);
    assert_eq!(persisted.quarantine_reason.as_deref(), Some(reason));
}

#[test]
fn exhaustion_reports_capacity_by_state() {
    let mut alloc = SubidAllocator::new();
    let first = claim(&mut alloc, "a", &tiny()).expect("claim");
    alloc.begin_release(&first).expect("begin release");
    let error = claim(&mut alloc, "c", &tiny()).expect_err("exhausted");
    let Error::Exhausted { uid, gid } = &error else {
        panic!("expected exhaustion diagnostics: {}", error.message())
    };
    assert_eq!(uid.free, 0);
    assert_eq!(uid.delegated, 1);
    assert_eq!(uid.releasing, 1);
    assert_eq!(gid.free, 0);
    assert!(error.message().contains("releasing"));
    let pool = capacity(&delegation().uid_ranges, &alloc.load().expect("load"), IdKind::Uid);
    assert_eq!(pool.delegated, 6);
    assert_eq!(pool.free, 5);
}

#[test]
fn transitions_enforce_state_and_incarnation() {
    let mut alloc = SubidAllocator::new();
    let record = claim(&mut alloc, "dev", &delegation()).expect("claim");
    // finish_release requires Releasing.
    assert!(matches!(alloc.finish_release(&record), Err(Error::StateConflict(_))));
    // activate requires Reserved.
    assert!(alloc.activate(&record).is_ok());
    assert!(matches!(alloc.activate(&record), Err(Error::StateConflict(_))));
    // begin_release requires the matching incarnation; a stale lease id simply
    // has no record to release.
    let stale = LeaseRecord { lease_id: new_lease_id(), ..copy(&record) };
    assert!(matches!(
        alloc.begin_release(&stale),
        Err(Error::StateConflict(_)) | Err(Error::MissingLease(_))
    ));
    // finish_release of an unknown lease is a distinct missing error.
    assert!(matches!(
        alloc.finish_release(&stale),
        Err(Error::StateConflict(_)) | Err(Error::MissingLease(_))
    ));
}

#[test]
fn stale_cleanup_cannot_remove_a_newer_lease_record() {
    let mut alloc = SubidAllocator::new();
    // Incarnation A: claim, release fully; its numeric pair is freed.
    let a = claim(&mut alloc, "dev", &tiny()).expect("claim");
    alloc.activate(&a).expect("activate");
    alloc.begin_release(&a).expect("begin release");
    alloc.finish_release(&a).expect("finish release");
    // Incarnation B reuses the same numeric pair under a new lease id.
    let b = claim(&mut alloc, "dev", &tiny()).expect("claim");
    assert_eq!((b.uid, b.gid), (a.uid, a.gid));
    assert_ne!(b.lease_id, a.lease_id);
    // A stale cleanup carrying A's record must fail and keep B intact.
    assert!(alloc.finish_release(&a).is_err());
    let live = alloc.lease_for(&sandbox("dev")).expect("load").expect("live lease");
    assert_eq!(live, b);
}

#[test]
fn duplicate_records_block_allocation() {
    let mut alloc = SubidAllocator::new();
    let record = claim_active(&mut alloc, "dev");
    // A second record reusing the same UID (hand-written file).
    let duplicate = LeaseRecord {
        lease_id: new_lease_id(),
        uid: record.uid,
        quarantine_reason: None,
        ..copy(&record)
    };
    alloc.write(duplicate).expect("write duplicate");
    let error = claim(&mut alloc, "prod", &delegation())
        .expect_err("duplicate uid must block allocation");
    assert!(matches!(error, Error::Corrupt(_)), "{}", error.message());
    assert!(validate_uniqueness(&vec![record]).is_ok());
}

#[test]
fn delegation_shrink_blocks_use_without_freeing_the_lease() {
    let mut alloc = SubidAllocator::new();
    let record = claim_active(&mut alloc, "dev");
    let shrunk = Delegation {
        uid_ranges: ranges(999_000, 5),
        gid_ranges: ranges(200_000, 3),
    };
    let error = alloc
        .validate_delegated(&record, &shrunk)
        .expect_err("uid outside delegation");
    assert!(
        matches!(
            error,
            Error::Undelegated { uid_delegated: false, gid_delegated: true, .. }
        ),
        "{}",
        error.message()
    );
    // The record survives; deletion stays possible.
    assert_eq!(
        alloc.lease_for(&sandbox("dev")).expect("load").expect("record"),
        record
    );
    assert!(alloc.validate_delegated(&record, &delegation()).is_ok());
}

/// A lease directory whose durable changes can fail at any point.
struct Disk {
    store: LeaseStore,
    files: Vec<(String, Vec<u8>)>,
    faults: FaultInjector,
}

impl Disk {
    fn new() -> Disk {
        let directory = Stat { mode: 0o040700, uid: EUID };
        let lock = Stat { mode: 0o100600, uid: EUID };
        Disk {
            store: LeaseStore::open("/state/leases", directory, lock, EUID).expect("store"),
            files: vec![(".lease.lock".to_string(), Vec::new())],
            faults: FaultInjector::default(),
        }
    }

    /// Every record, read back from the bytes of its file.
    fn load(&self) -> Vec<LeaseRecord> {
        let facts = self
            .files
            .iter()
            .map(|(name, bytes)| RecordFact {
                name: name.clone(),
                stat: Ok(Stat { mode: 0o100600, uid: EUID }),
                bytes: Ok(bytes.clone()),
            })
            .collect();
        self.store.load(facts).expect("records")
    }

    /// Run the steps of one durable change until they end or fail.
    fn change(&mut self, steps: &Vec<Step>, record: &LeaseRecord) -> Result<(), String> {
        let temp = self.store.temp_name(4711, 1);
        let mut done = 0;
        loop {
            let action = match advance(steps, done, &mut self.faults) {
                Command::Perform(action) => action,
                Command::Abort { reason, .. } => return Err(reason),
                Command::Finished => return Ok(()),
            };
            match action {
                Action::CreateTemp => {
                    self.files.retain(|(name, _)| *name != temp);
                    self.files.push((temp.clone(), Vec::new()));
                }
                Action::WriteTemp => {
                    for (name, bytes) in &mut self.files {
                        if *name == temp {
                            *bytes = record.encode().into_bytes();
                        }
                    }
                }
                Action::RenameTemp => {
                    let target = record.file_name();
                    self.files.retain(|(name, _)| *name != target);
                    for (name, _) in &mut self.files {
                        if *name == temp {
                            *name = target.clone();
                        }
                    }
                }
                Action::UnlinkRecord => {
                    let target = record.file_name();
                    self.files.retain(|(name, _)| *name != target);
                }
                _ => {}
            }
            done += 1;
        }
    }

    /// Run one operation and make what it changed durable.
    fn operate<T>(
        &mut self,
        operation: impl FnOnce(&mut SubidAllocator) -> Result<T, Error>,
    ) -> Result<T, String> {
        let before = self.load();
        let mut alloc = SubidAllocator::from_records(before.clone()).expect("a ledger");
        let outcome = operation(&mut alloc).map_err(|error| error.message())?;
        let changes = alloc.changes_since(&before);
        for record in &changes.write {
            self.change(&lease_write_steps(), record)?;
        }
        for record in &changes.remove {
            self.change(&lease_remove_steps(), record)?;
        }
        Ok(outcome)
    }

    fn claim(&mut self, name: &str) -> Result<LeaseRecord, String> {
        self.operate(|alloc| claim(alloc, name, &tiny()))
    }

    fn lease_for(&mut self, name: &str) -> Option<LeaseRecord> {
        self.operate(|alloc| alloc.lease_for(&sandbox(name))).expect("load")
    }
}

#[test]
fn fault_injection_covers_every_crash_window_of_claim_and_release() {
    for point in [
        FaultPoint::LeaseTempCreate,
        FaultPoint::LeaseWrite,
        FaultPoint::LeaseFileSync,
        FaultPoint::LeaseRename,
        FaultPoint::LeaseParentSync,
        FaultPoint::LeaseUnlink,
        FaultPoint::LeaseUnlinkSync,
    ] {
        let mut disk = Disk::new();
        disk.faults.fail_once(point);
        match point {
            // Faults during claim: the record either never became visible
            // (still free after cleanup) or is Reserved.
            FaultPoint::LeaseTempCreate
            | FaultPoint::LeaseWrite
            | FaultPoint::LeaseFileSync
            | FaultPoint::LeaseRename
            | FaultPoint::LeaseParentSync => {
                assert!(disk.claim("dev").is_err(), "{point:?} must fail the claim");
                let record = disk
                    .load()
                    .into_iter()
                    .find(|record| record.sandbox_id == sandbox("dev"));
                if point == FaultPoint::LeaseParentSync {
                    // A parent-sync fault leaves a durable Reserved record.
                    let record = record.expect("the record was renamed into place");
                    assert_eq!(record.state, LeaseState::Reserved);
                } else {
                    // Before the rename the record never existed, and a retry
                    // may claim successfully afterwards.
                    assert!(record.is_none(), "{point:?}");
                    let retry = disk.claim("dev");
                    assert!(retry.is_ok(), "{point:?}: {retry:?}");
                }
            }
            // Faults during the release barrier: the pair stays non-free or the
            // caller sees the error and re-runs the verified release.
            _ => {
                disk.faults.fail_once(point);
                let record = disk.claim("dev").expect("claim");
                disk.operate(|alloc| alloc.activate(&record)).expect("activate");
                disk.operate(|alloc| alloc.begin_release(&record)).expect("begin release");
                let result = disk.operate(|alloc| alloc.finish_release(&record));
                assert!(result.is_err(), "{point:?} must fail the release");
                let still_recorded = disk.lease_for("dev").is_some();
                if point == FaultPoint::LeaseUnlink {
                    // The unlink never happened: still Releasing.
                    assert!(still_recorded, "{point:?} dropped the record");
                    // Retry completes the release.
                    disk.operate(|alloc| alloc.finish_release(&record)).expect("retry release");
                    assert!(disk.lease_for("dev").is_none());
                } else {
                    // The unlink happened but the sync failed.
                    assert!(!still_recorded);
                    assert!(disk.claim("next").is_ok(), "absence of a record means free");
                }
            }
        }
    }
}

#[test]
fn changes_lead_from_one_ledger_to_the_next() {
    let mut alloc = SubidAllocator::new();
    let kept = claim_active(&mut alloc, "kept");
    let gone = claim_active(&mut alloc, "gone");
    let before = alloc.load().expect("load");
    let unchanged = alloc.changes_since(&before);
    assert!(unchanged.write.is_empty() && unchanged.remove.is_empty());
    full_release(&mut alloc, &gone);
    alloc.quarantine(&kept, "operator").expect("quarantine");
    let added = claim(&mut alloc, "added", &delegation()).expect("claim");
    let changes = alloc.changes_since(&before);
    assert_eq!(changes.remove, vec![gone]);
    let mut written: Vec<&str> =
        changes.write.iter().map(|record| record.sandbox_id.as_str()).collect();
    written.sort_unstable();
    assert_eq!(written, vec!["added", "kept"]);
    assert!(changes.write.contains(&added));
    let kept = changes.write.iter().find(|record| record.lease_id == kept.lease_id);
    assert_eq!(kept.expect("kept").quarantine_reason.as_deref(), Some("operator"));
}

#[test]
fn reconcile_promotes_quarantines_and_frees_per_the_state_table() {
    let mut alloc = SubidAllocator::new();
    // Crash window: Reserved + published Active sandbox -> promoted.
    let promoting = claim(&mut alloc, "win", &delegation()).expect("claim");
    // Active + absent -> quarantined.
    let orphan = claim_active(&mut alloc, "orphan");
    // Releasing + present -> resuming deletion.
    let resuming = claim_active(&mut alloc, "resuming");
    alloc.begin_release(&resuming).expect("begin release");
    // Releasing + absent (+ runtime reconciled) -> freed.
    let freeing = claim_active(&mut alloc, "freeing");
    alloc.begin_release(&freeing).expect("begin release");
    // Quarantined stays untouched.
    let quarantined = claim_active(&mut alloc, "stuck");
    alloc.quarantine(&quarantined, "operator").expect("quarantine");

    let lookup = |id: &SandboxId| -> Result<Option<SandboxView>, String> {
        Ok(match id.as_str() {
            "win" => Some(SandboxView::Active { owner: owner() }),
            "resuming" => Some(SandboxView::Deleting { owner: owner() }),
            _ => None,
        })
    };
    let report = reconcile(
        &mut alloc,
        lookup,
        Some(RuntimeReconciliationProof::from_successful_sweep()),
    )
    .expect("reconcile");
    assert_eq!(report.promoted.len(), 1);
    assert_eq!(report.promoted[0].lease_id, promoting.lease_id);
    assert_eq!(report.promoted[0].state, LeaseState::Active);
    assert_eq!(report.quarantined.len(), 1);
    assert_eq!(report.quarantined[0].0.lease_id, orphan.lease_id);
    assert_eq!(report.resuming_deletion.len(), 1);
    assert_eq!(report.resuming_deletion[0].lease_id, resuming.lease_id);
    assert_eq!(report.freed.len(), 1);
    assert_eq!(report.freed[0].lease_id, freeing.lease_id);

    // The freed pair is allocatable again; the quarantined one is not.
    let recycled = claim(&mut alloc, "next", &delegation()).expect("claim");
    assert_eq!((recycled.uid, recycled.gid), (freeing.uid, freeing.gid));
}

#[test]
fn reconcile_without_runtime_proof_keeps_releasing_records() {
    let mut alloc = SubidAllocator::new();
    let record = claim_active(&mut alloc, "gone");
    alloc.begin_release(&record).expect("begin release");
    let report = reconcile(&mut alloc, |_: &SandboxId| Ok(None), None).expect("reconcile");
    assert!(report.freed.is_empty(), "no free without runtime proof");
    assert_eq!(
        alloc.lease_for(&sandbox("gone")).expect("load").expect("kept"),
        record.with_state(LeaseState::Releasing)
    );
    // Once proven, the same reconciliation frees it.
    let report = reconcile(
        &mut alloc,
        |_: &SandboxId| Ok(None),
        Some(RuntimeReconciliationProof::from_successful_sweep()),
    )
    .expect("reconcile");
    assert_eq!(report.freed.len(), 1);
}

#[test]
fn reconcile_owner_mismatch_is_quarantined() {
    let mut alloc = SubidAllocator::new();
    let active = claim(&mut alloc, "dev", &delegation()).expect("claim");
    alloc.activate(&active).expect("activate");
    let releasing = claim_active(&mut alloc, "releasing-mismatch");
    alloc.begin_release(&releasing).expect("begin release");
    let report = reconcile(
        &mut alloc,
        |_: &SandboxId| Ok(Some(SandboxView::Active { owner: other_owner() })),
        Some(RuntimeReconciliationProof::from_successful_sweep()),
    )
    .expect("reconcile");
    assert_eq!(report.quarantined.len(), 2);
    for lease in [&active, &releasing] {
        assert!(report
            .quarantined
            .iter()
            .any(|(record, _)| record.lease_id == lease.lease_id));
    }
}

#[test]
fn reconcile_corrupt_sandbox_never_frees_its_identity() {
    let mut alloc = SubidAllocator::new();
    let record = claim(&mut alloc, "corrupt", &delegation()).expect("claim");
    let report = reconcile(
        &mut alloc,
        |_: &SandboxId| {
            Ok(Some(SandboxView::Corrupt { reason: "metadata is malformed".to_string() }))
        },
        Some(RuntimeReconciliationProof::from_successful_sweep()),
    )
    .expect("reconcile");
    assert!(report.freed.is_empty());
    assert_eq!(report.quarantined.len(), 1);
    assert_eq!(report.quarantined[0].0.lease_id, record.lease_id);
    assert_eq!(
        alloc.lease_for(&sandbox("corrupt")).expect("load").expect("quarantined").state,
        LeaseState::Quarantined
    );
}

#[test]
fn a_later_failed_lookup_changes_nothing() {
    // Leases that reconciliation would free, promote and quarantine, and one
    // whose sandbox cannot be looked up. The ledger goes by lease id, which is
    // random, so each of them takes its turn at failing.
    for failing in ["absent", "published", "orphan", "unknown"] {
        let mut alloc = SubidAllocator::new();
        claim(&mut alloc, "absent", &delegation()).expect("claim");
        claim(&mut alloc, "published", &delegation()).expect("claim");
        claim_active(&mut alloc, "orphan");
        claim_active(&mut alloc, "unknown");
        let before = alloc.load().expect("load");
        let error = reconcile(
            &mut alloc,
            |id: &SandboxId| match id.as_str() {
                name if name == failing => Err(format!("cannot inspect {name}")),
                "published" => Ok(Some(SandboxView::Active { owner: owner() })),
                _ => Ok(None),
            },
            Some(RuntimeReconciliationProof::from_successful_sweep()),
        )
        .expect_err("lookup error");
        assert!(matches!(
            error,
            Error::Lookup(reason) if reason == format!("cannot inspect {failing}")
        ));
        assert_eq!(alloc.load().expect("load"), before);
    }
    // Two leases in a known order: the second lookup fails.
    let mut alloc = SubidAllocator::new();
    for (token, name) in [(1, "first"), (2, "second")] {
        let record = LeaseRecord {
            lease_id: lease_id_of(token),
            sandbox_id: sandbox(name),
            owner: owner(),
            uid: 100_000 + token as u32,
            gid: 200_000 + token as u32,
            state: LeaseState::Reserved,
            quarantine_reason: None,
        };
        alloc.write(record).expect("write");
    }
    let before = alloc.load().expect("load");
    let error = reconcile(
        &mut alloc,
        |id: &SandboxId| {
            if id.as_str() == "first" {
                Ok(None)
            } else {
                Err("storage unavailable".to_string())
            }
        },
        Some(RuntimeReconciliationProof::from_successful_sweep()),
    )
    .expect_err("lookup error");
    assert!(matches!(error, Error::Lookup(reason) if reason == "storage unavailable"));
    assert_eq!(alloc.load().expect("load"), before);
}

#[test]
fn reconcile_lookup_errors_keep_the_ledger_unmodified() {
    let mut alloc = SubidAllocator::new();
    let record = claim(&mut alloc, "unknown", &delegation()).expect("claim");
    let error = reconcile(
        &mut alloc,
        |_: &SandboxId| Err("storage unavailable".to_string()),
        Some(RuntimeReconciliationProof::from_successful_sweep()),
    )
    .expect_err("lookup error");
    assert!(matches!(error, Error::Lookup(reason) if reason == "storage unavailable"));
    assert_eq!(
        alloc.lease_for(&sandbox("unknown")).expect("load").expect("record"),
        record
    );
}

#[test]
fn ledgers_reopen_with_their_records() {
    let mut alloc = SubidAllocator::new();
    let first = claim_active(&mut alloc, "dev");
    let reopened = SubidAllocator::from_records(alloc.load().expect("load")).expect("ledger");
    assert_eq!(reopened.read(&first.lease_id).expect("read"), Some(first));
    assert!(reopened.read("not-an-id").is_err());
}
