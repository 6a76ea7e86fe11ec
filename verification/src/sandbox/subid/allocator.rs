//! The subordinate-ID allocator.
//!
//! Every isolated durable sandbox leases exactly one subordinate UID and one
//! subordinate GID. A pair becomes reusable only through the verified release
//! transaction, never by inference from age or missing processes.

use crate::auth::fingerprint::KeyFingerprint;
use crate::sandbox::id::SandboxId;
use crate::sandbox::subid::changes::{self, Changes};
use crate::sandbox::subid::delegation::{self, Delegation, SubidRange};
use crate::sandbox::subid::ledger::{self, LeaseRecord, LeaseState, RecordView};
use crate::sandbox::subid::order;
use crate::text;
use vstd::prelude::*;

verus! {

// ---------------------------------------------------------------------------
// Errors

/// Free and used counts for one ID kind at allocation time.
#[derive(Debug, Clone, Copy, PartialEq, Eq, Structural)]
pub struct PoolCapacity {
    pub delegated: u64,
    pub free: u64,
    pub reserved: u64,
    pub active: u64,
    pub releasing: u64,
    pub quarantined: u64,
}

/// Allocator failure. Corruption and state conflicts fail closed.
#[derive(Debug)]
pub enum Error {
    Ledger(ledger::Error),
    /// Two records claim the same UID, GID, or sandbox: the ledger cannot be
    /// trusted to know which IDs are unavailable.
    Corrupt(String),
    /// A transition was attempted against a record that is not the expected
    /// incarnation in the expected state.
    StateConflict(String),
    /// The expected lease record no longer exists.
    MissingLease(String),
    /// A lease references IDs outside the daemon's current delegation.
    Undelegated { lease_id: String, uid_delegated: bool, gid_delegated: bool },
    /// No delegated UID or GID is free.
    Exhausted { uid: PoolCapacity, gid: PoolCapacity },
    /// The durable sandbox could not be inspected during reconciliation.
    Lookup(String),
}

/// The contents of an [`Error`].
pub enum ErrorView {
    Ledger(ledger::ErrorView),
    Corrupt(Seq<char>),
    StateConflict(Seq<char>),
    MissingLease(Seq<char>),
    Undelegated { lease_id: Seq<char>, uid_delegated: bool, gid_delegated: bool },
    Exhausted { uid: PoolCapacity, gid: PoolCapacity },
    Lookup(Seq<char>),
}

impl View for Error {
    type V = ErrorView;

    open spec fn view(&self) -> ErrorView {
        match self {
            Error::Ledger(error) => ErrorView::Ledger(error@),
            Error::Corrupt(reason) => ErrorView::Corrupt(reason@),
            Error::StateConflict(reason) => ErrorView::StateConflict(reason@),
            Error::MissingLease(lease_id) => ErrorView::MissingLease(lease_id@),
            Error::Undelegated { lease_id, uid_delegated, gid_delegated } => {
                ErrorView::Undelegated {
                    lease_id: lease_id@,
                    uid_delegated: *uid_delegated,
                    gid_delegated: *gid_delegated,
                }
            },
            Error::Exhausted { uid, gid } => ErrorView::Exhausted { uid: *uid, gid: *gid },
            Error::Lookup(reason) => ErrorView::Lookup(reason@),
        }
    }
}

/// The text of a capacity.
pub open spec fn capacity_text(c: PoolCapacity) -> Seq<char> {
    text::decimal(c.delegated as nat) + " delegated, "@ + text::decimal(c.free as nat) + " free, "@
        + text::decimal(c.reserved as nat) + " reserved, "@ + text::decimal(c.active as nat)
        + " active, "@ + text::decimal(c.releasing as nat) + " releasing, "@ + text::decimal(
        c.quarantined as nat,
    ) + " quarantined"@
}

impl PoolCapacity {
    /// The operator-facing description.
    pub fn message(&self) -> (r: String)
        ensures
            r@ == capacity_text(*self),
    {
        let mut m = text::decimal_text(self.delegated);
        m.append(" delegated, ");
        m.append(text::decimal_text(self.free).as_str());
        m.append(" free, ");
        m.append(text::decimal_text(self.reserved).as_str());
        m.append(" reserved, ");
        m.append(text::decimal_text(self.active).as_str());
        m.append(" active, ");
        m.append(text::decimal_text(self.releasing).as_str());
        m.append(" releasing, ");
        m.append(text::decimal_text(self.quarantined).as_str());
        m.append(" quarantined");
        m
    }
}

pub open spec fn delegated_word(delegated: bool) -> Seq<char> {
    if delegated {
        "still"@
    } else {
        "no longer"@
    }
}

/// The text of an error.
pub open spec fn error_text(error: ErrorView) -> Seq<char> {
    match error {
        ErrorView::Ledger(error) => "lease ledger: "@ + ledger::error_text(error),
        ErrorView::Corrupt(reason) => "lease ledger is corrupt: "@ + reason,
        ErrorView::StateConflict(reason) => "lease state conflict: "@ + reason,
        ErrorView::MissingLease(lease_id) => "lease "@ + lease_id
            + " does not exist (stale or already released)"@,
        ErrorView::Undelegated { lease_id, uid_delegated, gid_delegated } => "lease "@ + lease_id
            + " IDs are "@ + delegated_word(uid_delegated) + " (UID) / "@ + delegated_word(
            gid_delegated,
        )
            + " (GID) inside the current subordinate delegation; new isolated launches using it fail closed"@,
        ErrorView::Exhausted { uid, gid } => {
            "no free subordinate UID or GID remains — UID pool: "@ + capacity_text(uid)
                + "; GID pool: "@ + capacity_text(gid)
                + "; let pending releases finish, repair quarantined leases, or enlarge the delegation"@
        },
        ErrorView::Lookup(reason) => "sandbox lookup failed during lease reconciliation: "@
            + reason,
    }
}

impl Error {
    /// The operator-facing description.
    pub fn message(&self) -> (r: String)
        ensures
            r@ == error_text(self@),
    {
        match self {
            Error::Ledger(error) => text::cat2("lease ledger: ", error.message().as_str()),
            Error::Corrupt(reason) => text::cat2("lease ledger is corrupt: ", reason.as_str()),
            Error::StateConflict(reason) => text::cat2("lease state conflict: ", reason.as_str()),
            Error::MissingLease(lease_id) => text::cat3(
                "lease ",
                lease_id.as_str(),
                " does not exist (stale or already released)",
            ),
            Error::Undelegated { lease_id, uid_delegated, gid_delegated } => {
                let uid = if *uid_delegated {
                    "still"
                } else {
                    "no longer"
                };
                let gid = if *gid_delegated {
                    "still"
                } else {
                    "no longer"
                };
                let mut m = text::cat4("lease ", lease_id.as_str(), " IDs are ", uid);
                m.append(" (UID) / ");
                m.append(gid);
                m.append(
                    " (GID) inside the current subordinate delegation; new isolated launches using it fail closed",
                );
                m
            },
            Error::Exhausted { uid, gid } => text::cat5(
                "no free subordinate UID or GID remains — UID pool: ",
                uid.message().as_str(),
                "; GID pool: ",
                gid.message().as_str(),
                "; let pending releases finish, repair quarantined leases, or enlarge the delegation",
            ),
            Error::Lookup(reason) => text::cat2(
                "sandbox lookup failed during lease reconciliation: ",
                reason.as_str(),
            ),
        }
    }
}

// ---------------------------------------------------------------------------
// Uniqueness

/// The ledger of an allocator: records of valid leases, ordered by lease id.
pub open spec fn is_ledger(records: Seq<RecordView>) -> bool {
    &&& order::is_ordered(records)
    &&& forall|i: int|
        0 <= i < records.len() ==> ledger::is_lease_id((#[trigger] records[i]).lease_id)
}

/// No UID, no GID, and no sandbox appears twice.
pub open spec fn is_unique(records: Seq<RecordView>) -> bool {
    forall|i: int, j: int|
        0 <= i < j < records.len() ==> {
            &&& (#[trigger] records[i]).uid != (#[trigger] records[j]).uid
            &&& records[i].gid != records[j].gid
            &&& records[i].sandbox_id != records[j].sandbox_id
        }
}

/// Some record among the first `n` has the UID.
pub open spec fn has_uid(records: Seq<RecordView>, n: int, uid: u32) -> bool {
    exists|k: int| 0 <= k < n && (#[trigger] records[k]).uid == uid
}

/// Some record among the first `n` has the GID.
pub open spec fn has_gid(records: Seq<RecordView>, n: int, gid: u32) -> bool {
    exists|k: int| 0 <= k < n && (#[trigger] records[k]).gid == gid
}

/// Some record among the first `n` is of the sandbox.
pub open spec fn has_sandbox(records: Seq<RecordView>, n: int, sandbox_id: Seq<char>) -> bool {
    exists|k: int| 0 <= k < n && (#[trigger] records[k]).sandbox_id == sandbox_id
}

/// What record `i` repeats of the records before it, if anything.
pub open spec fn repetition(records: Seq<RecordView>, i: int) -> Option<Seq<char>> {
    if has_uid(records, i, records[i].uid) {
        Some("UID "@ + text::decimal(records[i].uid as nat) + " appears in more than one lease record"@)
    } else if has_gid(records, i, records[i].gid) {
        Some("GID "@ + text::decimal(records[i].gid as nat) + " appears in more than one lease record"@)
    } else if has_sandbox(records, i, records[i].sandbox_id) {
        Some("sandbox "@ + records[i].sandbox_id + " holds more than one lease record"@)
    } else {
        None
    }
}

/// The first repetition from position `from` on.
pub open spec fn uniqueness_error(records: Seq<RecordView>, from: int) -> Option<Seq<char>>
    decreases records.len() - from,
{
    if from < 0 || from >= records.len() {
        None
    } else {
        match repetition(records, from) {
            Some(reason) => Some(reason),
            None => uniqueness_error(records, from + 1),
        }
    }
}

proof fn lemma_uniqueness(records: Seq<RecordView>, from: int)
    requires
        0 <= from <= records.len(),
    ensures
        uniqueness_error(records, from) is None <==> forall|i: int|
            from <= i < records.len() ==> (#[trigger] repetition(records, i)) is None,
    decreases records.len() - from,
{
    if from < records.len() {
        lemma_uniqueness(records, from + 1);
        if uniqueness_error(records, from) is None {
            assert forall|i: int| from <= i < records.len() implies (#[trigger] repetition(
                records,
                i,
            )) is None by {
                if i > from {
                    assert(repetition(records, i) is None);
                }
            }
        }
    }
}

/// The ledger is accepted exactly when nothing appears twice.
pub proof fn accepted_ledgers_are_unique(records: Seq<RecordView>)
    ensures
        uniqueness_error(records, 0) is None <==> is_unique(records),
{
    lemma_uniqueness(records, 0);
    if uniqueness_error(records, 0) is None {
        assert forall|i: int, j: int| 0 <= i < j < records.len() implies {
            &&& (#[trigger] records[i]).uid != (#[trigger] records[j]).uid
            &&& records[i].gid != records[j].gid
            &&& records[i].sandbox_id != records[j].sandbox_id
        } by {
            assert(repetition(records, j) is None);
        }
    }
    if is_unique(records) {
        assert forall|i: int| 0 <= i < records.len() implies (#[trigger] repetition(
            records,
            i,
        )) is None by {}
    }
}

/// Reject a ledger in which a UID, a GID, or a sandbox appears twice.
pub fn validate_uniqueness(records: &Vec<LeaseRecord>) -> (r: Result<(), Error>)
    ensures
        match uniqueness_error(order::views(records@), 0) {
            None => r is Ok,
            Some(reason) => r matches Err(error) && error@ == ErrorView::Corrupt(reason),
        },
{
    let ghost list = order::views(records@);
    let mut i: usize = 0;
    while i < records.len()
        invariant
            i <= records@.len(),
            list == order::views(records@),
            uniqueness_error(list, 0) == uniqueness_error(list, i as int),
        decreases records@.len() - i,
    {
        let record = &records[i];
        assert(list[i as int] == record@);
        let mut uid = false;
        let mut gid = false;
        let mut sandbox = false;
        let mut k: usize = 0;
        while k < i
            invariant
                k <= i < records@.len(),
                list == order::views(records@),
                record@ == list[i as int],
                uid == has_uid(list, k as int, record@.uid),
                gid == has_gid(list, k as int, record@.gid),
                sandbox == has_sandbox(list, k as int, record@.sandbox_id),
            decreases i - k,
        {
            let ghost earlier = list[k as int];
            assert(earlier == records@[k as int]@);
            let u = records[k].uid == record.uid;
            let g = records[k].gid == record.gid;
            let s = records[k].sandbox_id.same(&record.sandbox_id);
            proof {
                assert(list[k as int].uid == record@.uid <==> u);
                assert(has_uid(list, k + 1, record@.uid) <==> (uid || u)) by {
                    if u {
                        assert(list[k as int].uid == record@.uid);
                    }
                }
                assert(has_gid(list, k + 1, record@.gid) <==> (gid || g)) by {
                    if g {
                        assert(list[k as int].gid == record@.gid);
                    }
                }
                assert(has_sandbox(list, k + 1, record@.sandbox_id) <==> (sandbox || s)) by {
                    if s {
                        assert(list[k as int].sandbox_id == record@.sandbox_id);
                    }
                }
            }
            uid = uid || u;
            gid = gid || g;
            sandbox = sandbox || s;
            k = k + 1;
        }
        if uid {
            return Err(
                Error::Corrupt(
                    text::cat3(
                        "UID ",
                        text::decimal_text(record.uid as u64).as_str(),
                        " appears in more than one lease record",
                    ),
                ),
            );
        }
        if gid {
            return Err(
                Error::Corrupt(
                    text::cat3(
                        "GID ",
                        text::decimal_text(record.gid as u64).as_str(),
                        " appears in more than one lease record",
                    ),
                ),
            );
        }
        if sandbox {
            return Err(
                Error::Corrupt(
                    text::cat3(
                        "sandbox ",
                        record.sandbox_id.as_str(),
                        " holds more than one lease record",
                    ),
                ),
            );
        }
        i = i + 1;
    }
    Ok(())
}

// ---------------------------------------------------------------------------
// Selection

/// An id that may be leased: delegated, not zero, and not taken.
pub open spec fn available(ranges: Seq<SubidRange>, taken: Seq<u32>, id: u32) -> bool {
    delegation::delegates(ranges, id as int) && id != 0 && !taken.contains(id)
}

/// The lowest id that may be leased.
pub open spec fn is_lowest(ranges: Seq<SubidRange>, taken: Seq<u32>, id: u32) -> bool {
    &&& available(ranges, taken, id)
    &&& forall|other: u32| #[trigger] available(ranges, taken, other) ==> id <= other
}

/// No id may be leased.
pub open spec fn is_exhausted(ranges: Seq<SubidRange>, taken: Seq<u32>) -> bool {
    forall|id: u32| !#[trigger] available(ranges, taken, id)
}

fn is_taken(taken: &Vec<u32>, id: u32) -> (r: bool)
    ensures
        r == taken@.contains(id),
{
    let mut i: usize = 0;
    while i < taken.len()
        invariant
            i <= taken@.len(),
            forall|k: int| 0 <= k < i ==> taken@[k] != id,
        decreases taken@.len() - i,
    {
        if taken[i] == id {
            return true;
        }
        i = i + 1;
    }
    false
}

/// The lowest free id of one range.
fn lowest_in(range: &SubidRange, taken: &Vec<u32>) -> (r: Option<u32>)
    ensures
        match r {
            Some(id) => range.has(id as int) && id != 0 && !taken@.contains(id) && forall|other: u32|
                #[trigger] range.has(other as int) && other != 0 && !taken@.contains(other) ==> id
                    <= other,
            None => forall|other: u32|
                !(#[trigger] range.has(other as int) && other != 0 && !taken@.contains(other)),
        },
{
    let end = range.end();
    let mut next: u64 = range.start() as u64;
    while next < end
        invariant
            range.first() <= next <= end,
            end == range.first() + range.size(),
            end <= delegation::ID_SPACE,
            forall|other: u32|
                #[trigger] range.has(other as int) && other != 0 && !taken@.contains(other) ==> next
                    <= other,
        decreases end - next,
    {
        let id: u32 = next as u32;
        if id != 0 && !is_taken(taken, id) {
            return Some(id);
        }
        next = next + 1;
    }
    None
}

/// Deterministic lowest-available selection across possibly fragmented ranges.
/// Zero is never selected, whatever is delegated.
pub fn lowest_available(ranges: &Vec<SubidRange>, unavailable: &Vec<u32>) -> (r: Option<u32>)
    ensures
        match r {
            Some(id) => is_lowest(ranges@, unavailable@, id),
            None => is_exhausted(ranges@, unavailable@),
        },
{
    let mut best: Option<u32> = None;
    let mut i: usize = 0;
    while i < ranges.len()
        invariant
            i <= ranges@.len(),
            match best {
                Some(id) => available(ranges@, unavailable@, id) && forall|k: int, other: u32|
                    0 <= k < i && #[trigger] ranges@[k].has(other as int) && other != 0
                        && !unavailable@.contains(other) ==> id <= other,
                None => forall|k: int, other: u32|
                    0 <= k < i && #[trigger] ranges@[k].has(other as int) && other != 0
                        ==> unavailable@.contains(other),
            },
        decreases ranges@.len() - i,
    {
        let found = lowest_in(&ranges[i], unavailable);
        match found {
            Some(id) => {
                assert(ranges@[i as int].has(id as int));
                match best {
                    Some(held) => {
                        if id < held {
                            best = Some(id);
                        }
                    },
                    None => {
                        best = Some(id);
                    },
                }
            },
            None => {},
        }
        i = i + 1;
    }
    best
}

/// The UIDs that may not be leased: zero, the daemon's own, and every leased
/// one, in whatever state its lease is.
pub open spec fn taken_uids(records: Seq<RecordView>, euid: u32) -> Seq<u32> {
    seq![0u32, euid] + records.map_values(|record: RecordView| record.uid)
}

/// The GIDs that may not be leased.
pub open spec fn taken_gids(records: Seq<RecordView>, egid: u32) -> Seq<u32> {
    seq![0u32, egid] + records.map_values(|record: RecordView| record.gid)
}

fn collect_uids(records: &Vec<LeaseRecord>, euid: u32) -> (r: Vec<u32>)
    ensures
        r@ == taken_uids(order::views(records@), euid),
{
    let mut out: Vec<u32> = vec![0u32, euid];
    let ghost list = order::views(records@);
    let ghost ids = list.map_values(|record: RecordView| record.uid);
    let mut i: usize = 0;
    assert(out@ =~= seq![0u32, euid] + ids.take(0));
    while i < records.len()
        invariant
            i <= records@.len(),
            list == order::views(records@),
            ids == list.map_values(|record: RecordView| record.uid),
            out@ == seq![0u32, euid] + ids.take(i as int),
        decreases records@.len() - i,
    {
        assert(ids[i as int] == records@[i as int].uid);
        out.push(records[i].uid);
        i = i + 1;
        assert(out@ =~= seq![0u32, euid] + ids.take(i as int));
    }
    assert(ids.take(ids.len() as int) =~= ids);
    out
}

fn collect_gids(records: &Vec<LeaseRecord>, egid: u32) -> (r: Vec<u32>)
    ensures
        r@ == taken_gids(order::views(records@), egid),
{
    let mut out: Vec<u32> = vec![0u32, egid];
    let ghost list = order::views(records@);
    let ghost ids = list.map_values(|record: RecordView| record.gid);
    let mut i: usize = 0;
    assert(out@ =~= seq![0u32, egid] + ids.take(0));
    while i < records.len()
        invariant
            i <= records@.len(),
            list == order::views(records@),
            ids == list.map_values(|record: RecordView| record.gid),
            out@ == seq![0u32, egid] + ids.take(i as int),
        decreases records@.len() - i,
    {
        assert(ids[i as int] == records@[i as int].gid);
        out.push(records[i].gid);
        i = i + 1;
        assert(out@ =~= seq![0u32, egid] + ids.take(i as int));
    }
    assert(ids.take(ids.len() as int) =~= ids);
    out
}

// ---------------------------------------------------------------------------
// Capacity

/// The two kinds of subordinate ids.
#[derive(Debug, Clone, Copy, PartialEq, Eq, Structural)]
pub enum IdKind {
    Uid,
    Gid,
}

/// The number of delegated ids, counted range by range.
pub open spec fn delegated_total(ranges: Seq<SubidRange>) -> int
    decreases ranges.len(),
{
    if ranges.len() == 0 {
        0
    } else {
        delegated_total(ranges.drop_last()) + ranges.last().size()
    }
}

pub open spec fn id_of(record: RecordView, kind: IdKind) -> u32 {
    match kind {
        IdKind::Uid => record.uid,
        IdKind::Gid => record.gid,
    }
}

/// How many leased ids of a kind lie inside the ranges.
pub open spec fn used_total(ranges: Seq<SubidRange>, records: Seq<RecordView>, kind: IdKind) -> nat
    decreases records.len(),
{
    if records.len() == 0 {
        0
    } else {
        used_total(ranges, records.drop_last(), kind) + if delegation::delegates(
            ranges,
            id_of(records.last(), kind) as int,
        ) {
            1nat
        } else {
            0nat
        }
    }
}

/// How many records are in a state.
pub open spec fn state_total(records: Seq<RecordView>, state: LeaseState) -> nat
    decreases records.len(),
{
    if records.len() == 0 {
        0
    } else {
        state_total(records.drop_last(), state) + if records.last().state == state {
            1nat
        } else {
            0nat
        }
    }
}

/// The larger of a number and zero, at most the largest `u64`.
pub open spec fn clamp(n: int) -> u64 {
    if n < 0 {
        0
    } else if n > u64::MAX {
        u64::MAX
    } else {
        n as u64
    }
}

/// The capacity of one id kind.
pub open spec fn capacity_of(
    ranges: Seq<SubidRange>,
    records: Seq<RecordView>,
    kind: IdKind,
) -> PoolCapacity {
    let delegated = clamp(delegated_total(ranges));
    PoolCapacity {
        delegated,
        free: clamp(delegated - used_total(ranges, records, kind)),
        reserved: state_total(records, LeaseState::Reserved) as u64,
        active: state_total(records, LeaseState::Active) as u64,
        releasing: state_total(records, LeaseState::Releasing) as u64,
        quarantined: state_total(records, LeaseState::Quarantined) as u64,
    }
}

fn count_delegated(ranges: &Vec<SubidRange>) -> (r: u64)
    ensures
        r == clamp(delegated_total(ranges@)),
{
    let mut total: u64 = 0;
    let mut i: usize = 0;
    assert(ranges@.take(0) =~= Seq::<SubidRange>::empty());
    while i < ranges.len()
        invariant
            i <= ranges@.len(),
            total == clamp(delegated_total(ranges@.take(i as int))),
            0 <= delegated_total(ranges@.take(i as int)),
        decreases ranges@.len() - i,
    {
        let size: u64 = ranges[i].end() - ranges[i].start() as u64;
        assert(ranges@.take(i + 1).drop_last() =~= ranges@.take(i as int));
        total = total.saturating_add(size);
        i = i + 1;
    }
    assert(ranges@.take(ranges@.len() as int) =~= ranges@);
    total
}

/// Free and used counts for one id kind.
pub fn capacity(ranges: &Vec<SubidRange>, records: &Vec<LeaseRecord>, kind: IdKind) -> (r:
    PoolCapacity)
    ensures
        r == capacity_of(ranges@, order::views(records@), kind),
{
    let delegated = count_delegated(ranges);
    let ghost list = order::views(records@);
    let mut used: u64 = 0;
    let mut reserved: u64 = 0;
    let mut active: u64 = 0;
    let mut releasing: u64 = 0;
    let mut quarantined: u64 = 0;
    let mut i: usize = 0;
    assert(list.take(0) =~= Seq::<RecordView>::empty());
    while i < records.len()
        invariant
            i <= records@.len(),
            list == order::views(records@),
            used <= i,
            reserved <= i,
            active <= i,
            releasing <= i,
            quarantined <= i,
            used == used_total(ranges@, list.take(i as int), kind),
            reserved == state_total(list.take(i as int), LeaseState::Reserved),
            active == state_total(list.take(i as int), LeaseState::Active),
            releasing == state_total(list.take(i as int), LeaseState::Releasing),
            quarantined == state_total(list.take(i as int), LeaseState::Quarantined),
        decreases records@.len() - i,
    {
        proof {
            assert(list.take(i + 1).drop_last() =~= list.take(i as int));
            assert(list.take(i + 1).last() == records@[i as int]@);
        }
        let id: u32 = match kind {
            IdKind::Uid => records[i].uid,
            IdKind::Gid => records[i].gid,
        };
        if delegation::any_contains(ranges, id) {
            used = used + 1;
        }
        match records[i].state {
            LeaseState::Reserved => {
                reserved = reserved + 1;
            },
            LeaseState::Active => {
                active = active + 1;
            },
            LeaseState::Releasing => {
                releasing = releasing + 1;
            },
            LeaseState::Quarantined => {
                quarantined = quarantined + 1;
            },
        }
        i = i + 1;
    }
    assert(list.take(list.len() as int) =~= list);
    PoolCapacity {
        delegated,
        free: delegated.saturating_sub(used),
        reserved,
        active,
        releasing,
        quarantined,
    }
}

// ---------------------------------------------------------------------------
// Transitions

/// The names of states, as they are listed in a message.
pub open spec fn state_names(states: Seq<LeaseState>) -> Seq<char>
    decreases states.len(),
{
    if states.len() == 0 {
        seq![]
    } else if states.len() == 1 {
        ledger::state_text(states[0])
    } else {
        state_names(states.drop_last()) + " or "@ + ledger::state_text(states.last())
    }
}

fn list_states(states: &Vec<LeaseState>) -> (r: String)
    ensures
        r@ == state_names(states@),
{
    if states.len() == 0 {
        return String::new();
    }
    let mut out = states[0].as_str().to_owned();
    let mut i: usize = 1;
    assert(states@.take(1)[0] == states@[0]);
    while i < states.len()
        invariant
            1 <= i <= states@.len(),
            out@ == state_names(states@.take(i as int)),
        decreases states@.len() - i,
    {
        assert(states@.take(i + 1).drop_last() =~= states@.take(i as int));
        out.append(" or ");
        out.append(states[i].as_str());
        i = i + 1;
    }
    assert(states@.take(states@.len() as int) =~= states@);
    out
}

/// The stored record of a lease that must be the expected incarnation.
pub open spec fn incarnation_of(
    records: Seq<RecordView>,
    expected: RecordView,
    mismatch: Seq<char>,
) -> Result<RecordView, ErrorView> {
    if !ledger::is_lease_id(expected.lease_id) {
        Err(ErrorView::Ledger(ledger::ErrorView::InvalidLeaseId(expected.lease_id)))
    } else {
        match order::find(records, expected.lease_id) {
            None => Err(ErrorView::MissingLease(expected.lease_id)),
            Some(current) => if !current.same_incarnation(expected) {
                Err(ErrorView::StateConflict("lease "@ + expected.lease_id + mismatch))
            } else {
                Ok(current)
            },
        }
    }
}

/// The stored record of a lease that must be the expected incarnation in one
/// of the given states.
pub open spec fn expected_outcome(
    records: Seq<RecordView>,
    expected: RecordView,
    states: Seq<LeaseState>,
) -> Result<RecordView, ErrorView> {
    match incarnation_of(
        records,
        expected,
        " is not the expected incarnation (sandbox/owner/IDs changed)"@,
    ) {
        Err(error) => Err(error),
        Ok(current) => if !states.contains(current.state) {
            Err(
                ErrorView::StateConflict(
                    "lease "@ + expected.lease_id + " is "@ + ledger::state_text(current.state)
                        + ", expected "@ + state_names(states),
                ),
            )
        } else {
            Ok(current)
        },
    }
}

/// The stored record after quarantine.
pub open spec fn quarantine_outcome(
    records: Seq<RecordView>,
    expected: RecordView,
    reason: Seq<char>,
) -> Result<RecordView, ErrorView> {
    match incarnation_of(records, expected, " is not the expected incarnation"@) {
        Err(error) => Err(error),
        Ok(current) => Ok(current.quarantined(reason)),
    }
}

/// The states from which a release may begin.
pub open spec fn releasable() -> Seq<LeaseState> {
    seq![LeaseState::Active, LeaseState::Reserved]
}

/// The durable ledger and the operations on it.
#[derive(Debug)]
pub struct SubidAllocator {
    records: Vec<LeaseRecord>,
}

impl View for SubidAllocator {
    type V = Seq<RecordView>;

    closed spec fn view(&self) -> Seq<RecordView> {
        order::views(self.records@)
    }
}

/// The record that a claim reserves.
pub open spec fn reserved_record(
    lease_id: Seq<char>,
    sandbox_id: Seq<char>,
    owner: Seq<char>,
    uid: u32,
    gid: u32,
) -> RecordView {
    RecordView {
        lease_id,
        sandbox_id,
        owner,
        uid,
        gid,
        state: LeaseState::Reserved,
        quarantine_reason: None,
    }
}

/// What a claim does to the ledger and returns. A corrupt ledger, a sandbox
/// that already holds a lease, and an exhausted pool change nothing; otherwise
/// the lowest available UID and the lowest available GID are reserved.
pub open spec fn claim_outcome(
    records: Seq<RecordView>,
    lease_id: Seq<char>,
    sandbox_id: Seq<char>,
    owner: Seq<char>,
    delegation: delegation::DelegationView,
    euid: u32,
    egid: u32,
    after: Seq<RecordView>,
    r: Result<LeaseRecord, Error>,
) -> bool {
    let uids = taken_uids(records, euid);
    let gids = taken_gids(records, egid);
    match uniqueness_error(records, 0) {
        Some(reason) => after == records && (r matches Err(error) && error@ == ErrorView::Corrupt(
            reason,
        )),
        None => if has_sandbox(records, records.len() as int, sandbox_id) {
            after == records && (r matches Err(error) && error@ == ErrorView::StateConflict(
                "sandbox "@ + sandbox_id
                    + " already holds a lease; one durable sandbox has exactly one incarnation lease"@,
            ))
        } else if is_exhausted(delegation.uid_ranges, uids) || is_exhausted(
            delegation.gid_ranges,
            gids,
        ) {
            after == records && (r matches Err(error) && error@ == (ErrorView::Exhausted {
                uid: capacity_of(delegation.uid_ranges, records, IdKind::Uid),
                gid: capacity_of(delegation.gid_ranges, records, IdKind::Gid),
            }))
        } else {
            r matches Ok(record) && {
                &&& record@ == reserved_record(
                    lease_id,
                    sandbox_id,
                    owner,
                    record@.uid,
                    record@.gid,
                )
                &&& is_lowest(delegation.uid_ranges, uids, record@.uid)
                &&& is_lowest(delegation.gid_ranges, gids, record@.gid)
                &&& after == order::written(records, record@)
            }
        },
    }
}

impl SubidAllocator {
    #[verifier::type_invariant]
    pub closed spec fn valid(&self) -> bool {
        is_ledger(order::views(self.records@))
    }

    /// The allocator of an empty ledger.
    pub fn new() -> (r: SubidAllocator)
        ensures
            r@ == Seq::<RecordView>::empty(),
    {
        let records: Vec<LeaseRecord> = Vec::new();
        assert(order::views(records@) =~= Seq::<RecordView>::empty());
        SubidAllocator { records }
    }

    /// The allocator of a loaded ledger: records of valid leases, ordered by
    /// lease id.
    pub fn from_records(records: Vec<LeaseRecord>) -> (r: Option<SubidAllocator>)
        ensures
            match r {
                Some(allocator) => is_ledger(order::views(records@)) && allocator@ == order::views(
                    records@,
                ),
                None => !is_ledger(order::views(records@)),
            },
    {
        let ghost list = order::views(records@);
        let mut i: usize = 0;
        while i < records.len()
            invariant
                i <= records@.len(),
                list == order::views(records@),
                forall|k: int| 0 <= k < i ==> ledger::is_lease_id((#[trigger] list[k]).lease_id),
                forall|j: int, k: int|
                    0 <= j < k < i ==> text::before(
                        (#[trigger] list[j]).lease_id,
                        (#[trigger] list[k]).lease_id,
                    ),
            decreases records@.len() - i,
        {
            assert(list[i as int] == records@[i as int]@);
            if ledger::validate_lease_id(records[i].lease_id.as_str()).is_err() {
                return None;
            }
            if i > 0 {
                assert(list[i - 1] == records@[i - 1]@);
                if !text::is_before(
                    records[i - 1].lease_id.as_str(),
                    records[i].lease_id.as_str(),
                ) {
                    return None;
                }
                proof {
                    assert forall|j: int| 0 <= j < i implies text::before(
                        (#[trigger] list[j]).lease_id,
                        list[i as int].lease_id,
                    ) by {
                        if j < i - 1 {
                            assert(text::before(list[j].lease_id, list[i - 1].lease_id));
                            text::lemma_before(
                                list[j].lease_id,
                                list[i - 1].lease_id,
                                list[i as int].lease_id,
                            );
                        }
                    }
                }
            }
            i = i + 1;
        }
        Some(SubidAllocator { records })
    }

    fn put(&mut self, record: LeaseRecord)
        requires
            ledger::is_lease_id(record@.lease_id),
        ensures
            final(self)@ == order::written(old(self)@, record@),
            is_ledger(final(self)@),
    {
        proof {
            use_type_invariant(&*self);
        }
        let ghost start = self@;
        let mut records: Vec<LeaseRecord> = Vec::new();
        assert(order::views(records@) =~= Seq::<RecordView>::empty());
        std::mem::swap(&mut records, &mut self.records);
        let ghost view = record@;
        order::write_record(&mut records, record);
        proof {
            lemma_written_is_ledger(start, view);
        }
        self.records = records;
    }

    fn discard(&mut self, lease_id: &str)
        ensures
            final(self)@ == order::removed(old(self)@, lease_id@),
            is_ledger(final(self)@),
    {
        proof {
            use_type_invariant(&*self);
        }
        let ghost start = self@;
        let mut records: Vec<LeaseRecord> = Vec::new();
        assert(order::views(records@) =~= Seq::<RecordView>::empty());
        std::mem::swap(&mut records, &mut self.records);
        order::remove_record(&mut records, lease_id);
        proof {
            lemma_removed_is_ledger(start, lease_id@);
        }
        self.records = records;
    }

    /// Publish a record as it stands.
    pub fn write(&mut self, record: LeaseRecord) -> (r: Result<(), Error>)
        ensures
            if ledger::is_lease_id(record@.lease_id) {
                r is Ok && final(self)@ == order::written(old(self)@, record@)
            } else {
                (r matches Err(error) && error@ == ErrorView::Ledger(
                    ledger::ErrorView::InvalidLeaseId(record@.lease_id),
                )) && final(self)@ == old(self)@
            },
            is_ledger(final(self)@),
    {
        match ledger::validate_lease_id(record.lease_id.as_str()) {
            Err(error) => {
                proof {
                    use_type_invariant(&*self);
                }
                Err(Error::Ledger(error))
            },
            Ok(_) => {
                self.put(record);
                Ok(())
            },
        }
    }

    /// The stored record of a lease.
    pub fn read(&self, lease_id: &str) -> (r: Result<Option<LeaseRecord>, Error>)
        ensures
            if ledger::is_lease_id(lease_id@) {
                match order::find(self@, lease_id@) {
                    Some(expected) => r matches Ok(Some(record)) && record@ == expected,
                    None => r matches Ok(None),
                }
            } else {
                r matches Err(error) && error@ == ErrorView::Ledger(
                    ledger::ErrorView::InvalidLeaseId(lease_id@),
                )
            },
    {
        match ledger::validate_lease_id(lease_id) {
            Err(error) => Err(Error::Ledger(error)),
            Ok(_) => {
                let at = order::position_of(&self.records, lease_id);
                if at < self.records.len() {
                    assert(order::views(self.records@)[at as int] == self.records@[at as int]@);
                    Ok(Some(self.records[at].clone()))
                } else {
                    Ok(None)
                }
            },
        }
    }

    /// What has to be made durable since the ledger held these records.
    pub fn changes_since(&self, before: &Vec<LeaseRecord>) -> (r: Changes)
        ensures
            order::views(r.write@) == changes::to_write(
                order::views(before@),
                self@,
                self@.len() as int,
            ),
            order::views(r.remove@) == changes::to_remove(
                order::views(before@),
                self@,
                before@.len() as int,
            ),
    {
        changes::changes(before, &self.records)
    }

    /// The whole ledger, if nothing in it appears twice. Duplicates are
    /// corruption: allocation must stop, not route around an ambiguous record.
    pub fn load(&self) -> (r: Result<Vec<LeaseRecord>, Error>)
        ensures
            match uniqueness_error(self@, 0) {
                None => r matches Ok(records) && order::views(records@) == self@,
                Some(reason) => r matches Err(error) && error@ == ErrorView::Corrupt(reason),
            },
            is_ledger(self@),
    {
        proof {
            use_type_invariant(self);
        }
        match validate_uniqueness(&self.records) {
            Err(error) => Err(error),
            Ok(_) => {
                let mut out: Vec<LeaseRecord> = Vec::new();
                let ghost list = order::views(self.records@);
                let mut i: usize = 0;
                assert(order::views(out@) =~= list.take(0));
                while i < self.records.len()
                    invariant
                        i <= self.records@.len(),
                        list == order::views(self.records@),
                        order::views(out@) == list.take(i as int),
                    decreases self.records@.len() - i,
                {
                    let copy = self.records[i].clone();
                    proof {
                        assert(list[i as int] == self.records@[i as int]@);
                        assert(order::views(out@.push(copy)) =~= order::views(out@).push(copy@));
                        assert(list.take(i + 1) =~= list.take(i as int).push(list[i as int]));
                    }
                    out.push(copy);
                    i = i + 1;
                }
                assert(list.take(list.len() as int) =~= list);
                Ok(out)
            },
        }
    }

    /// The single live lease of a durable sandbox, if any.
    pub fn lease_for(&self, sandbox_id: &SandboxId) -> (r: Result<Option<LeaseRecord>, Error>)
        ensures
            match uniqueness_error(self@, 0) {
                Some(reason) => r matches Err(error) && error@ == ErrorView::Corrupt(reason),
                None => match r {
                    Ok(Some(record)) => self@.contains(record@) && record@.sandbox_id
                        == sandbox_id@,
                    Ok(None) => !has_sandbox(self@, self@.len() as int, sandbox_id@),
                    Err(_) => false,
                },
            },
    {
        match validate_uniqueness(&self.records) {
            Err(error) => Err(error),
            Ok(_) => {
                let ghost list = order::views(self.records@);
                let mut i: usize = 0;
                while i < self.records.len()
                    invariant
                        i <= self.records@.len(),
                        list == order::views(self.records@),
                        self@ == list,
                        uniqueness_error(list, 0) is None,
                        forall|k: int|
                            0 <= k < i ==> (#[trigger] list[k]).sandbox_id != sandbox_id@,
                    decreases self.records@.len() - i,
                {
                    assert(list[i as int] == self.records@[i as int]@);
                    if self.records[i].sandbox_id.same(sandbox_id) {
                        return Ok(Some(self.records[i].clone()));
                    }
                    i = i + 1;
                }
                Ok(None)
            },
        }
    }

    /// Allocate one UID and one GID for a new sandbox incarnation under a
    /// fresh random lease id, and publish the reserved record.
    pub fn claim(
        &mut self,
        sandbox_id: &SandboxId,
        owner: &KeyFingerprint,
        delegation: &Delegation,
        euid: u32,
        egid: u32,
    ) -> (r: Result<LeaseRecord, Error>)
        ensures
            exists|lease_id: Seq<char>|
                #[trigger] ledger::is_lease_id(lease_id) && claim_outcome(
                    old(self)@,
                    lease_id,
                    sandbox_id@,
                    owner@,
                    delegation@,
                    euid,
                    egid,
                    final(self)@,
                    r,
                ),
            is_ledger(final(self)@),
            is_unique(old(self)@) ==> is_unique(final(self)@),
    {
        let lease_id = ledger::new_lease_id();
        let ghost token = lease_id@;
        let r = self.claim_as(lease_id, sandbox_id, owner, delegation, euid, egid);
        assert(ledger::is_lease_id(token));
        r
    }

    /// Allocate one UID and one GID for a new sandbox incarnation and publish
    /// the reserved record. The UID and GID pools are independent; each gets
    /// its own lowest-available selection.
    pub fn claim_as(
        &mut self,
        lease_id: String,
        sandbox_id: &SandboxId,
        owner: &KeyFingerprint,
        delegation: &Delegation,
        euid: u32,
        egid: u32,
    ) -> (r: Result<LeaseRecord, Error>)
        requires
            ledger::is_lease_id(lease_id@),
        ensures
            claim_outcome(
                old(self)@,
                lease_id@,
                sandbox_id@,
                owner@,
                delegation@,
                euid,
                egid,
                final(self)@,
                r,
            ),
            is_ledger(final(self)@),
            is_unique(old(self)@) ==> is_unique(final(self)@),
    {
        proof {
            use_type_invariant(&*self);
            accepted_ledgers_are_unique(self@);
        }
        let ghost start = self@;
        match validate_uniqueness(&self.records) {
            Err(error) => {
                return Err(error);
            },
            Ok(_) => {},
        }
        let mut i: usize = 0;
        while i < self.records.len()
            invariant
                i <= self.records@.len(),
                start == order::views(self.records@),
                self@ == start,
                start == old(self)@,
                is_ledger(start),
                uniqueness_error(start, 0) is None,
                forall|k: int| 0 <= k < i ==> (#[trigger] start[k]).sandbox_id != sandbox_id@,
            decreases self.records@.len() - i,
        {
            assert(start[i as int] == self.records@[i as int]@);
            if self.records[i].sandbox_id.same(sandbox_id) {
                assert(start[i as int].sandbox_id == sandbox_id@);
                return Err(
                    Error::StateConflict(
                        text::cat3(
                            "sandbox ",
                            sandbox_id.as_str(),
                            " already holds a lease; one durable sandbox has exactly one incarnation lease",
                        ),
                    ),
                );
            }
            i = i + 1;
        }
        let uids = collect_uids(&self.records, euid);
        let gids = collect_gids(&self.records, egid);
        let uid = lowest_available(&delegation.uid_ranges, &uids);
        let gid = lowest_available(&delegation.gid_ranges, &gids);
        match (uid, gid) {
            (Some(uid), Some(gid)) => {
                let record = LeaseRecord {
                    lease_id,
                    sandbox_id: sandbox_id.clone(),
                    owner: owner.clone(),
                    uid,
                    gid,
                    state: LeaseState::Reserved,
                    quarantine_reason: None,
                };
                proof {
                    assert(available(delegation@.uid_ranges, uids@, uid));
                    assert(available(delegation@.gid_ranges, gids@, gid));
                    reserving_keeps_the_ledger_unique(start, record@, euid, egid);
                }
                let copy = record.clone();
                self.put(record);
                Ok(copy)
            },
            _ => Err(
                Error::Exhausted {
                    uid: capacity(&delegation.uid_ranges, &self.records, IdKind::Uid),
                    gid: capacity(&delegation.gid_ranges, &self.records, IdKind::Gid),
                },
            ),
        }
    }

    fn incarnation(&self, expected: &LeaseRecord, mismatch: &str) -> (r: Result<LeaseRecord, Error>)
        ensures
            match incarnation_of(self@, expected@, mismatch@) {
                Ok(current) => r matches Ok(record) && record@ == current,
                Err(expected) => r matches Err(error) && error@ == expected,
            },
    {
        let current = match self.read(expected.lease_id.as_str()) {
            Err(error) => {
                return Err(error);
            },
            Ok(None) => {
                return Err(Error::MissingLease(expected.lease_id.clone()));
            },
            Ok(Some(current)) => current,
        };
        if !same_incarnation(&current, expected) {
            return Err(
                Error::StateConflict(text::cat3("lease ", expected.lease_id.as_str(), mismatch)),
            );
        }
        Ok(current)
    }

    /// The stored record of `expected.lease_id`, if it is the same incarnation
    /// in one of `states`.
    pub fn expected_record(&self, expected: &LeaseRecord, states: &Vec<LeaseState>) -> (r: Result<
        LeaseRecord,
        Error,
    >)
        ensures
            match expected_outcome(self@, expected@, states@) {
                Ok(current) => r matches Ok(record) && record@ == current,
                Err(expected) => r matches Err(error) && error@ == expected,
            },
    {
        let current = match self.incarnation(
            expected,
            " is not the expected incarnation (sandbox/owner/IDs changed)",
        ) {
            Ok(current) => current,
            Err(error) => {
                return Err(error);
            },
        };
        let mut i: usize = 0;
        let mut found = false;
        while i < states.len()
            invariant
                i <= states@.len(),
                found <==> exists|k: int| 0 <= k < i && states@[k] == current@.state,
            decreases states@.len() - i,
        {
            if states[i] == current.state {
                found = true;
            }
            i = i + 1;
        }
        if !found {
            let mut m = text::cat4(
                "lease ",
                expected.lease_id.as_str(),
                " is ",
                current.state.as_str(),
            );
            m.append(", expected ");
            m.append(list_states(states).as_str());
            assert(!states@.contains(current@.state));
            return Err(Error::StateConflict(m));
        }
        assert(states@.contains(current@.state));
        Ok(current)
    }

    /// Move the expected incarnation from one of `from` to `to`.
    pub fn transition(&mut self, expected: &LeaseRecord, from: &Vec<LeaseState>, to: LeaseState) -> (r:
        Result<LeaseRecord, Error>)
        ensures
            match expected_outcome(old(self)@, expected@, from@) {
                Ok(current) => (r matches Ok(next) && next@ == current.with_state(to))
                    && final(self)@ == order::written(old(self)@, current.with_state(to)),
                Err(expected) => (r matches Err(error) && error@ == expected) && final(self)@
                    == old(self)@,
            },
            is_ledger(final(self)@),
    {
        proof {
            use_type_invariant(&*self);
        }
        match self.expected_record(expected, from) {
            Err(error) => Err(error),
            Ok(current) => {
                let next = current.with_state(to);
                proof {
                    order::lemma_position(self@, expected@.lease_id, 0);
                }
                let copy = next.clone();
                self.put(next);
                Ok(copy)
            },
        }
    }

    /// `Reserved -> Active`: the durable sandbox has been published. The
    /// expected record pins the incarnation, so a stale caller cannot activate
    /// a newer lease.
    pub fn activate(&mut self, expected: &LeaseRecord) -> (r: Result<LeaseRecord, Error>)
        ensures
            match expected_outcome(old(self)@, expected@, seq![LeaseState::Reserved]) {
                Ok(current) => (r matches Ok(next) && next@ == current.with_state(
                    LeaseState::Active,
                )) && final(self)@ == order::written(
                    old(self)@,
                    current.with_state(LeaseState::Active),
                ),
                Err(expected) => (r matches Err(error) && error@ == expected) && final(self)@
                    == old(self)@,
            },
            is_ledger(final(self)@),
    {
        let from: Vec<LeaseState> = vec![LeaseState::Reserved];
        assert(from@ =~= seq![LeaseState::Reserved]);
        self.transition(expected, &from, LeaseState::Active)
    }

    /// `Active -> Releasing`, durable before any destructive cleanup starts.
    /// Also accepts `Reserved`, for a sandbox deleted between reservation and
    /// publication.
    pub fn begin_release(&mut self, expected: &LeaseRecord) -> (r: Result<(), Error>)
        ensures
            match expected_outcome(old(self)@, expected@, releasable()) {
                Ok(current) => r is Ok && final(self)@ == order::written(
                    old(self)@,
                    current.with_state(LeaseState::Releasing),
                ),
                Err(expected) => (r matches Err(error) && error@ == expected) && final(self)@
                    == old(self)@,
            },
            is_ledger(final(self)@),
    {
        let from: Vec<LeaseState> = vec![LeaseState::Active, LeaseState::Reserved];
        assert(from@ =~= releasable());
        match self.transition(expected, &from, LeaseState::Releasing) {
            Ok(_) => Ok(()),
            Err(error) => Err(error),
        }
    }

    fn remove_in(&mut self, expected: &LeaseRecord, state: LeaseState) -> (r: Result<(), Error>)
        ensures
            match expected_outcome(old(self)@, expected@, seq![state]) {
                Ok(_) => r is Ok && final(self)@ == order::removed(
                    old(self)@,
                    expected@.lease_id,
                ),
                Err(expected) => (r matches Err(error) && error@ == expected) && final(self)@
                    == old(self)@,
            },
            is_ledger(final(self)@),
    {
        proof {
            use_type_invariant(&*self);
        }
        let states: Vec<LeaseState> = vec![state];
        assert(states@ =~= seq![state]);
        match self.expected_record(expected, &states) {
            Err(error) => Err(error),
            Ok(_) => {
                self.discard(expected.lease_id.as_str());
                Ok(())
            },
        }
    }

    /// The verified release barrier: the record must still be the expected
    /// incarnation in `Releasing`; only then is it removed. After `Ok(())` the
    /// pair is reusable.
    pub fn finish_release(&mut self, expected: &LeaseRecord) -> (r: Result<(), Error>)
        ensures
            match expected_outcome(old(self)@, expected@, seq![LeaseState::Releasing]) {
                Ok(_) => r is Ok && final(self)@ == order::removed(
                    old(self)@,
                    expected@.lease_id,
                ),
                Err(expected) => (r matches Err(error) && error@ == expected) && final(self)@
                    == old(self)@,
            },
            is_ledger(final(self)@),
    {
        self.remove_in(expected, LeaseState::Releasing)
    }

    /// Remove a reservation whose durable sandbox was never published.
    pub fn free_reserved_absent(&mut self, expected: &LeaseRecord) -> (r: Result<(), Error>)
        ensures
            match expected_outcome(old(self)@, expected@, seq![LeaseState::Reserved]) {
                Ok(_) => r is Ok && final(self)@ == order::removed(
                    old(self)@,
                    expected@.lease_id,
                ),
                Err(expected) => (r matches Err(error) && error@ == expected) && final(self)@
                    == old(self)@,
            },
            is_ledger(final(self)@),
    {
        self.remove_in(expected, LeaseState::Reserved)
    }

    /// Move any record of this incarnation to `Quarantined`, recording why.
    /// Quarantined IDs are never allocated automatically.
    pub fn quarantine(&mut self, expected: &LeaseRecord, reason: &str) -> (r: Result<(), Error>)
        ensures
            match quarantine_outcome(old(self)@, expected@, reason@) {
                Ok(next) => r is Ok && final(self)@ == order::written(old(self)@, next),
                Err(expected) => (r matches Err(error) && error@ == expected) && final(self)@
                    == old(self)@,
            },
            is_ledger(final(self)@),
    {
        proof {
            use_type_invariant(&*self);
        }
        match self.incarnation(expected, " is not the expected incarnation") {
            Err(error) => Err(error),
            Ok(current) => {
                proof {
                    order::lemma_position(self@, expected@.lease_id, 0);
                }
                self.put(current.with_quarantine_reason(reason));
                Ok(())
            },
        }
    }

    /// Fail closed when a lease's IDs are no longer inside the daemon's
    /// current delegation. The record is kept: deletion must stay possible,
    /// and the pair must not be freed just because the delegation shrank.
    pub fn validate_delegated(&self, record: &LeaseRecord, delegation: &Delegation) -> (r: Result<
        (),
        Error,
    >)
        ensures
            ({
                let uid_delegated = delegation::delegates(
                    delegation@.uid_ranges,
                    record@.uid as int,
                );
                let gid_delegated = delegation::delegates(
                    delegation@.gid_ranges,
                    record@.gid as int,
                );
                if uid_delegated && gid_delegated {
                    r is Ok
                } else {
                    r matches Err(error) && error@ == (ErrorView::Undelegated {
                        lease_id: record@.lease_id,
                        uid_delegated,
                        gid_delegated,
                    })
                }
            }),
    {
        let uid_delegated = delegation.contains_uid(record.uid);
        let gid_delegated = delegation.contains_gid(record.gid);
        if uid_delegated && gid_delegated {
            Ok(())
        } else {
            Err(
                Error::Undelegated {
                    lease_id: record.lease_id.clone(),
                    uid_delegated,
                    gid_delegated,
                },
            )
        }
    }
}

/// Whether two records are of the same incarnation.
pub fn same_incarnation(current: &LeaseRecord, expected: &LeaseRecord) -> (r: bool)
    ensures
        r == current@.same_incarnation(expected@),
{
    text::same_text(current.lease_id.as_str(), expected.lease_id.as_str())
        && current.sandbox_id.same(&expected.sandbox_id) && current.owner.same(&expected.owner)
        && current.uid == expected.uid && current.gid == expected.gid
}

// ---------------------------------------------------------------------------
// Laws

proof fn lemma_written_is_ledger(records: Seq<RecordView>, record: RecordView)
    requires
        is_ledger(records),
        ledger::is_lease_id(record.lease_id),
    ensures
        is_ledger(order::written(records, record)),
{
    order::writing_keeps_the_order(records, record);
    order::lemma_position(records, record.lease_id, 0);
    order::lemma_inserted(records, record);
    let after = order::written(records, record);
    if order::position(records, record.lease_id, 0) >= records.len() {
        assert forall|i: int| 0 <= i < after.len() implies ledger::is_lease_id(
            (#[trigger] after[i]).lease_id,
        ) by {
            assert(after.contains(after[i]));
            if after[i] != record {
                let k = choose|k: int| 0 <= k < records.len() && records[k] == after[i];
                assert(ledger::is_lease_id(records[k].lease_id));
            }
        }
    }
}

proof fn lemma_removed_is_ledger(records: Seq<RecordView>, lease_id: Seq<char>)
    requires
        is_ledger(records),
    ensures
        is_ledger(order::removed(records, lease_id)),
{
    order::removing_keeps_the_order(records, lease_id);
    order::lemma_position(records, lease_id, 0);
    let at = order::position(records, lease_id, 0);
    let after = order::removed(records, lease_id);
    assert forall|i: int| 0 <= i < after.len() implies ledger::is_lease_id(
        (#[trigger] after[i]).lease_id,
    ) by {
        let k = if at < records.len() && i >= at { i + 1 } else { i };
        assert(after[i] == records[k]);
    }
}

/// A record that differs from every other record in UID, GID, and sandbox.
pub open spec fn stands_alone(records: Seq<RecordView>, record: RecordView) -> bool {
    forall|i: int|
        0 <= i < records.len() ==> {
            &&& (#[trigger] records[i]).uid != record.uid
            &&& records[i].gid != record.gid
            &&& records[i].sandbox_id != record.sandbox_id
        }
}

proof fn lemma_insert_unique(records: Seq<RecordView>, record: RecordView)
    requires
        is_unique(records),
        stands_alone(records, record),
    ensures
        is_unique(order::inserted(records, record)),
    decreases records.len(),
{
    let result = order::inserted(records, record);
    if records.len() > 0 && text::before(record.lease_id, records.last().lease_id) {
        let init = records.drop_last();
        lemma_insert_unique(init, record);
        order::lemma_inserted(init, record);
        let inner = order::inserted(init, record);
        assert forall|i: int, j: int| 0 <= i < j < result.len() implies {
            &&& (#[trigger] result[i]).uid != (#[trigger] result[j]).uid
            &&& result[i].gid != result[j].gid
            &&& result[i].sandbox_id != result[j].sandbox_id
        } by {
            if j < inner.len() {
                assert(inner[i] == result[i] && inner[j] == result[j]);
            } else {
                assert(result[j] == records[records.len() - 1]);
                assert(inner.contains(inner[i]));
                if inner[i] != record {
                    let k = choose|k: int| 0 <= k < init.len() && init[k] == inner[i];
                    assert(records[k] == result[i]);
                }
            }
        }
    }
}

/// Reserving a pair that no record holds, for a sandbox that no record names,
/// keeps the ledger unique.
pub proof fn reserving_keeps_the_ledger_unique(
    records: Seq<RecordView>,
    record: RecordView,
    euid: u32,
    egid: u32,
)
    requires
        is_unique(records),
        !taken_uids(records, euid).contains(record.uid),
        !taken_gids(records, egid).contains(record.gid),
        !has_sandbox(records, records.len() as int, record.sandbox_id),
    ensures
        is_unique(order::written(records, record)),
{
    let uids = taken_uids(records, euid);
    let gids = taken_gids(records, egid);
    assert forall|i: int| 0 <= i < records.len() implies {
        &&& (#[trigger] records[i]).uid != record.uid
        &&& records[i].gid != record.gid
        &&& records[i].sandbox_id != record.sandbox_id
    } by {
        assert(uids[i + 2] == records[i].uid);
        assert(gids[i + 2] == records[i].gid);
    }
    order::lemma_position(records, record.lease_id, 0);
    if order::position(records, record.lease_id, 0) >= records.len() {
        lemma_insert_unique(records, record);
    }
}

/// A leased pair is never selected, in whatever state its lease is; neither is
/// zero, nor an id of the daemon.
pub proof fn leased_ids_are_never_selected(
    records: Seq<RecordView>,
    euid: u32,
    egid: u32,
    ranges: Seq<SubidRange>,
    i: int,
)
    requires
        0 <= i < records.len(),
    ensures
        !available(ranges, taken_uids(records, euid), records[i].uid),
        !available(ranges, taken_gids(records, egid), records[i].gid),
        !available(ranges, taken_uids(records, euid), 0),
        !available(ranges, taken_uids(records, euid), euid),
        !available(ranges, taken_gids(records, egid), 0),
        !available(ranges, taken_gids(records, egid), egid),
{
    assert(taken_uids(records, euid)[i + 2] == records[i].uid);
    assert(taken_gids(records, egid)[i + 2] == records[i].gid);
    assert(taken_uids(records, euid)[1] == euid);
    assert(taken_gids(records, egid)[1] == egid);
}

/// Once a release is finished, the pair may be selected again.
pub proof fn released_pairs_are_reusable(
    records: Seq<RecordView>,
    record: RecordView,
    euid: u32,
    egid: u32,
    uid_ranges: Seq<SubidRange>,
    gid_ranges: Seq<SubidRange>,
)
    requires
        order::is_ordered(records),
        is_unique(records),
        records.contains(record),
        record.uid != 0,
        record.uid != euid,
        record.gid != 0,
        record.gid != egid,
        delegation::delegates(uid_ranges, record.uid as int),
        delegation::delegates(gid_ranges, record.gid as int),
    ensures
        available(
            uid_ranges,
            taken_uids(order::removed(records, record.lease_id), euid),
            record.uid,
        ),
        available(
            gid_ranges,
            taken_gids(order::removed(records, record.lease_id), egid),
            record.gid,
        ),
{
    order::lemma_find_member(records, record);
    order::lemma_position(records, record.lease_id, 0);
    let at = order::position(records, record.lease_id, 0);
    let after = order::removed(records, record.lease_id);
    assert forall|i: int| 0 <= i < after.len() implies (#[trigger] after[i]).uid != record.uid
        && after[i].gid != record.gid by {
        let k = if i >= at { i + 1 } else { i };
        assert(after[i] == records[k]);
        if k < at {
            assert(records[k].uid != records[at].uid);
        } else {
            assert(records[at].uid != records[k].uid);
        }
    }
    let uids = taken_uids(after, euid);
    let gids = taken_gids(after, egid);
    if uids.contains(record.uid) {
        let i = choose|i: int| 0 <= i < uids.len() && uids[i] == record.uid;
        assert(i >= 2);
        assert(after[i - 2].uid == record.uid);
    }
    if gids.contains(record.gid) {
        let i = choose|i: int| 0 <= i < gids.len() && gids[i] == record.gid;
        assert(i >= 2);
        assert(after[i - 2].gid == record.gid);
    }
}

/// Releasing under one lease id never touches the record of another: a stale
/// cleanup from an old incarnation cannot remove a newer lease, even where the
/// newer lease reuses the same pair for the same sandbox.
pub proof fn stale_cleanup_keeps_newer_leases(
    records: Seq<RecordView>,
    stale: RecordView,
    newer: RecordView,
)
    requires
        order::is_ordered(records),
        records.contains(newer),
        newer.lease_id != stale.lease_id,
    ensures
        order::find(order::removed(records, stale.lease_id), newer.lease_id) == Some(newer),
        order::find(records, stale.lease_id) is None ==> expected_outcome(
            records,
            stale,
            seq![LeaseState::Releasing],
        ) is Err,
{
    order::lemma_find_member(records, newer);
    order::removing_changes_one_lease(records, stale.lease_id, newer.lease_id);
}

/// A transition keeps the pair and the sandbox of every lease, so a ledger
/// that is unique stays unique.
pub proof fn transitions_keep_the_ledger_unique(
    records: Seq<RecordView>,
    current: RecordView,
    next: RecordView,
)
    requires
        order::is_ordered(records),
        is_unique(records),
        records.contains(current),
        next.same_incarnation(current),
    ensures
        is_unique(order::written(records, next)),
{
    order::lemma_find_member(records, current);
    order::lemma_position(records, current.lease_id, 0);
}

/// Removing a record keeps the ledger unique.
pub proof fn removals_keep_the_ledger_unique(records: Seq<RecordView>, lease_id: Seq<char>)
    requires
        is_unique(records),
    ensures
        is_unique(order::removed(records, lease_id)),
{
    order::lemma_position(records, lease_id, 0);
}

/// The life of a lease: a reservation can be activated, an active lease can
/// begin its release, a releasing lease can finish it, and none of the steps
/// can be taken twice.
pub proof fn lease_life_cycle(records: Seq<RecordView>, record: RecordView)
    requires
        is_ledger(records),
        records.contains(record),
        record.state == LeaseState::Reserved,
    ensures
        ({
            let active = record.with_state(LeaseState::Active);
            let releasing = record.with_state(LeaseState::Releasing);
            let activated = order::written(records, active);
            let released = order::written(activated, releasing);
            let finished = order::removed(released, record.lease_id);
            &&& expected_outcome(records, record, seq![LeaseState::Reserved]) == Ok::<
                RecordView,
                ErrorView,
            >(record)
            &&& expected_outcome(records, record, seq![LeaseState::Releasing]) is Err
            &&& expected_outcome(activated, record, seq![LeaseState::Reserved]) is Err
            &&& expected_outcome(activated, record, releasable()) == Ok::<RecordView, ErrorView>(
                active,
            )
            &&& active.with_state(LeaseState::Releasing) == releasing
            &&& expected_outcome(released, record, releasable()) is Err
            &&& expected_outcome(released, record, seq![LeaseState::Releasing]) == Ok::<
                RecordView,
                ErrorView,
            >(releasing)
            &&& expected_outcome(finished, record, seq![LeaseState::Releasing]) == Err::<
                RecordView,
                ErrorView,
            >(ErrorView::MissingLease(record.lease_id))
        }),
{
    let active = record.with_state(LeaseState::Active);
    let releasing = record.with_state(LeaseState::Releasing);
    let activated = order::written(records, active);
    let released = order::written(activated, releasing);
    let i = choose|i: int| 0 <= i < records.len() && records[i] == record;
    assert(ledger::is_lease_id(records[i].lease_id));
    order::lemma_find_member(records, record);
    order::writing_keeps_the_order(records, active);
    order::writing_changes_one_lease(records, active, record.lease_id);
    order::writing_keeps_the_order(activated, releasing);
    order::writing_changes_one_lease(activated, releasing, record.lease_id);
    order::removing_changes_one_lease(released, record.lease_id, record.lease_id);
    assert(seq![LeaseState::Reserved][0] == LeaseState::Reserved);
    assert(seq![LeaseState::Releasing][0] == LeaseState::Releasing);
    assert(releasable()[0] == LeaseState::Active);
    assert(!seq![LeaseState::Reserved].contains(LeaseState::Active));
    assert(!seq![LeaseState::Releasing].contains(LeaseState::Reserved));
    assert(!releasable().contains(LeaseState::Releasing));
    assert(seq![LeaseState::Reserved].contains(LeaseState::Reserved));
    assert(seq![LeaseState::Releasing].contains(LeaseState::Releasing));
    assert(releasable().contains(LeaseState::Active));
}

// ---------------------------------------------------------------------------
// What a claim gives

/// A claim for a sandbox without a lease, while a free id of each kind is
/// delegated, gives a reservation with the lowest pair that is neither root's,
/// nor the daemon's, nor leased, and adds it to the ledger; everything else is
/// refused and changes nothing.
pub proof fn claims_take_the_lowest_free_pair(
    records: Seq<RecordView>,
    lease_id: Seq<char>,
    sandbox_id: Seq<char>,
    owner: Seq<char>,
    delegation: delegation::DelegationView,
    euid: u32,
    egid: u32,
    after: Seq<RecordView>,
    r: Result<LeaseRecord, Error>,
    other: Seq<char>,
)
    requires
        is_ledger(records),
        claim_outcome(
            records,
            lease_id,
            sandbox_id,
            owner,
            delegation,
            euid,
            egid,
            after,
            r,
        ),
    ensures
        r is Err ==> after == records,
        r is Ok <==> {
            &&& is_unique(records)
            &&& forall|i: int|
                0 <= i < records.len() ==> (#[trigger] records[i]).sandbox_id != sandbox_id
            &&& exists|uid: u32| is_free_uid(records, delegation, euid, uid)
            &&& exists|gid: u32| is_free_gid(records, delegation, egid, gid)
        },
        r matches Ok(record) ==> {
            &&& record@.lease_id == lease_id
            &&& record@.sandbox_id == sandbox_id
            &&& record@.owner == owner
            &&& record@.state == LeaseState::Reserved
            &&& record@.quarantine_reason is None
            &&& is_free_uid(records, delegation, euid, record@.uid)
            &&& is_free_gid(records, delegation, egid, record@.gid)
            &&& forall|uid: u32|
                #[trigger] is_free_uid(records, delegation, euid, uid) ==> record@.uid <= uid
            &&& forall|gid: u32|
                #[trigger] is_free_gid(records, delegation, egid, gid) ==> record@.gid <= gid
            &&& order::find(after, lease_id) == Some(record@)
            &&& other != lease_id ==> order::find(after, other) == order::find(records, other)
        },
{
    accepted_ledgers_are_unique(records);
    assert forall|uid: u32| #[trigger]
        is_free_uid(records, delegation, euid, uid) <==> available(
        delegation.uid_ranges,
        taken_uids(records, euid),
        uid,
    ) by {
        lemma_free_uid(records, delegation, euid, uid);
    }
    assert forall|gid: u32| #[trigger]
        is_free_gid(records, delegation, egid, gid) <==> available(
        delegation.gid_ranges,
        taken_gids(records, egid),
        gid,
    ) by {
        lemma_free_gid(records, delegation, egid, gid);
    }
    assert(has_sandbox(records, records.len() as int, sandbox_id) <==> !(forall|i: int|
        0 <= i < records.len() ==> (#[trigger] records[i]).sandbox_id != sandbox_id));
    assert(is_exhausted(delegation.uid_ranges, taken_uids(records, euid)) <==> !exists|uid: u32|
        is_free_uid(records, delegation, euid, uid)) by {
        if exists|uid: u32| is_free_uid(records, delegation, euid, uid) {
            let uid = choose|uid: u32| is_free_uid(records, delegation, euid, uid);
            assert(available(delegation.uid_ranges, taken_uids(records, euid), uid));
        } else {
            assert forall|uid: u32| !#[trigger] available(
                delegation.uid_ranges,
                taken_uids(records, euid),
                uid,
            ) by {
                assert(!is_free_uid(records, delegation, euid, uid));
            }
        }
    }
    assert(is_exhausted(delegation.gid_ranges, taken_gids(records, egid)) <==> !exists|gid: u32|
        is_free_gid(records, delegation, egid, gid)) by {
        if exists|gid: u32| is_free_gid(records, delegation, egid, gid) {
            let gid = choose|gid: u32| is_free_gid(records, delegation, egid, gid);
            assert(available(delegation.gid_ranges, taken_gids(records, egid), gid));
        } else {
            assert forall|gid: u32| !#[trigger] available(
                delegation.gid_ranges,
                taken_gids(records, egid),
                gid,
            ) by {
                assert(!is_free_gid(records, delegation, egid, gid));
            }
        }
    }
    if let Ok(record) = r {
        order::writing_changes_one_lease(records, record@, other);
    }
}

/// A user id that a claim may take.
pub open spec fn is_free_uid(
    records: Seq<RecordView>,
    delegation: delegation::DelegationView,
    euid: u32,
    uid: u32,
) -> bool {
    &&& delegation::delegates(delegation.uid_ranges, uid as int)
    &&& uid != 0
    &&& uid != euid
    &&& forall|i: int| 0 <= i < records.len() ==> (#[trigger] records[i]).uid != uid
}

/// A group id that a claim may take.
pub open spec fn is_free_gid(
    records: Seq<RecordView>,
    delegation: delegation::DelegationView,
    egid: u32,
    gid: u32,
) -> bool {
    &&& delegation::delegates(delegation.gid_ranges, gid as int)
    &&& gid != 0
    &&& gid != egid
    &&& forall|i: int| 0 <= i < records.len() ==> (#[trigger] records[i]).gid != gid
}

proof fn lemma_free_uid(
    records: Seq<RecordView>,
    delegation: delegation::DelegationView,
    euid: u32,
    uid: u32,
)
    ensures
        is_free_uid(records, delegation, euid, uid) <==> available(
            delegation.uid_ranges,
            taken_uids(records, euid),
            uid,
        ),
{
    let taken = taken_uids(records, euid);
    assert(taken[0] == 0 && taken[1] == euid);
    if taken.contains(uid) {
        let k = choose|k: int| 0 <= k < taken.len() && taken[k] == uid;
        if k >= 2 {
            assert(records[k - 2].uid == uid);
        }
    } else {
        assert forall|i: int| 0 <= i < records.len() implies (#[trigger] records[i]).uid != uid by {
            assert(taken[i + 2] == records[i].uid);
        }
    }
}

proof fn lemma_free_gid(
    records: Seq<RecordView>,
    delegation: delegation::DelegationView,
    egid: u32,
    gid: u32,
)
    ensures
        is_free_gid(records, delegation, egid, gid) <==> available(
            delegation.gid_ranges,
            taken_gids(records, egid),
            gid,
        ),
{
    let taken = taken_gids(records, egid);
    assert(taken[0] == 0 && taken[1] == egid);
    if taken.contains(gid) {
        let k = choose|k: int| 0 <= k < taken.len() && taken[k] == gid;
        if k >= 2 {
            assert(records[k - 2].gid == gid);
        }
    } else {
        assert forall|i: int| 0 <= i < records.len() implies (#[trigger] records[i]).gid != gid by {
            assert(taken[i + 2] == records[i].gid);
        }
    }
}

/// A lease is acted on exactly when the ledger holds that incarnation in one of
/// the expected states; a lease that is not there is reported as missing, and
/// one that is another incarnation or in another state as a conflict.
pub proof fn only_the_expected_lease_is_acted_on(
    records: Seq<RecordView>,
    expected: RecordView,
    states: Seq<LeaseState>,
    reason: Seq<char>,
)
    ensures
        ({
            let found = order::find(records, expected.lease_id);
            let present = ledger::is_lease_id(expected.lease_id) && (found matches Some(current)
                && current.lease_id == expected.lease_id && current.sandbox_id
                == expected.sandbox_id && current.owner == expected.owner && current.uid
                == expected.uid && current.gid == expected.gid);
            let outcome = expected_outcome(records, expected, states);
            &&& outcome is Ok <==> present && states.contains(found->Some_0.state)
            &&& outcome matches Ok(current) ==> found == Some(current)
            &&& ledger::is_lease_id(expected.lease_id) && found is None ==> outcome == Err::<
                RecordView,
                ErrorView,
            >(ErrorView::MissingLease(expected.lease_id))
            &&& ledger::is_lease_id(expected.lease_id) && found is Some && outcome is Err
                ==> outcome->Err_0 is StateConflict
            &&& quarantine_outcome(records, expected, reason) is Ok <==> present
            &&& quarantine_outcome(records, expected, reason) matches Ok(next) ==> {
                &&& next.same_incarnation(expected)
                &&& next.state == LeaseState::Quarantined
                &&& next.quarantine_reason == Some(reason)
            }
        }),
        releasable().contains(LeaseState::Active),
        releasable().contains(LeaseState::Reserved),
        !releasable().contains(LeaseState::Releasing),
        !releasable().contains(LeaseState::Quarantined),
{
    assert(releasable()[0] == LeaseState::Active && releasable()[1] == LeaseState::Reserved);
}

/// One more lease counts once, in its own state, and takes one id from the pool
/// exactly where the pool delegates its id.
pub proof fn every_lease_is_counted_once(
    ranges: Seq<SubidRange>,
    records: Seq<RecordView>,
    record: RecordView,
    kind: IdKind,
)
    requires
        records.len() < u64::MAX,
    ensures
        ({
            let before = capacity_of(ranges, records, kind);
            let after = capacity_of(ranges, records.push(record), kind);
            let id = match kind {
                IdKind::Uid => record.uid,
                IdKind::Gid => record.gid,
            };
            &&& after.delegated == before.delegated
            &&& after.reserved == before.reserved + if record.state == LeaseState::Reserved {
                1int
            } else {
                0
            }
            &&& after.active == before.active + if record.state == LeaseState::Active {
                1int
            } else {
                0
            }
            &&& after.releasing == before.releasing + if record.state == LeaseState::Releasing {
                1int
            } else {
                0
            }
            &&& after.quarantined == before.quarantined + if record.state
                == LeaseState::Quarantined {
                1int
            } else {
                0
            }
            &&& delegation::delegates(ranges, id as int) && before.free > 0 ==> after.free
                == before.free - 1
            &&& !delegation::delegates(ranges, id as int) ==> after.free == before.free
        }),
        capacity_of(ranges, seq![], kind).free == capacity_of(ranges, seq![], kind).delegated,
        capacity_of(ranges, seq![], kind).reserved == 0,
        capacity_of(ranges, seq![], kind).active == 0,
        capacity_of(ranges, seq![], kind).releasing == 0,
        capacity_of(ranges, seq![], kind).quarantined == 0,
{
    assert(records.push(record).drop_last() =~= records);
    lemma_state_total(records, LeaseState::Reserved);
    lemma_state_total(records, LeaseState::Active);
    lemma_state_total(records, LeaseState::Releasing);
    lemma_state_total(records, LeaseState::Quarantined);
}

proof fn lemma_state_total(records: Seq<RecordView>, state: LeaseState)
    ensures
        state_total(records, state) <= records.len(),
    decreases records.len(),
{
    if records.len() > 0 {
        lemma_state_total(records.drop_last(), state);
    }
}

/// A pool delegates the ids of all its ranges.
pub proof fn ranges_add_up(ranges: Seq<SubidRange>, range: SubidRange, kind: IdKind)
    requires
        0 <= delegated_total(ranges),
        0 <= range.size(),
        delegated_total(ranges) + range.size() <= u64::MAX,
    ensures
        capacity_of(ranges.push(range), seq![], kind).delegated == capacity_of(
            ranges,
            seq![],
            kind,
        ).delegated + range.size(),
        capacity_of(seq![], seq![], kind).delegated == 0,
{
    assert(ranges.push(range).drop_last() =~= ranges);
}

/// A lease in the ledger, in one of two states.
pub open spec fn is_held(
    records: Seq<RecordView>,
    expected: RecordView,
    one: LeaseState,
    two: LeaseState,
) -> bool {
    &&& ledger::is_lease_id(expected.lease_id)
    &&& order::find(records, expected.lease_id) matches Some(current) && current.same_incarnation(
        expected,
    ) && (current.state == one || current.state == two)
}

/// A lease is activated from its reservation, released from activity or from its
/// reservation, and removed once it is releasing, or while it is only reserved;
/// each leaves every other lease alone, and a refusal changes nothing.
pub proof fn leases_move_forward(
    activated: &mut SubidAllocator,
    a: Result<LeaseRecord, Error>,
    released: &mut SubidAllocator,
    b: Result<(), Error>,
    finished: &mut SubidAllocator,
    c: Result<(), Error>,
    freed: &mut SubidAllocator,
    d: Result<(), Error>,
    expected: LeaseRecord,
    other: Seq<char>,
)
    requires
        call_ensures(SubidAllocator::activate, (activated, &expected), a),
        call_ensures(SubidAllocator::begin_release, (released, &expected), b),
        call_ensures(SubidAllocator::finish_release, (finished, &expected), c),
        call_ensures(SubidAllocator::free_reserved_absent, (freed, &expected), d),
        is_ledger(old(activated)@),
        is_ledger(old(released)@),
        is_ledger(old(finished)@),
        is_ledger(old(freed)@),
        other != expected@.lease_id,
    ensures
        a is Ok <==> is_held(
            old(activated)@,
            expected@,
            LeaseState::Reserved,
            LeaseState::Reserved,
        ),
        a matches Ok(next) ==> next@.state == LeaseState::Active && next@.same_incarnation(
            expected@,
        ) && order::find(final(activated)@, expected@.lease_id) == Some(next@),
        a is Err ==> final(activated)@ == old(activated)@,
        order::find(final(activated)@, other) == order::find(old(activated)@, other),
        b is Ok <==> is_held(old(released)@, expected@, LeaseState::Active, LeaseState::Reserved),
        b is Ok ==> (order::find(final(released)@, expected@.lease_id) matches Some(next)
            && next.state == LeaseState::Releasing && next.same_incarnation(expected@)),
        b is Err ==> final(released)@ == old(released)@,
        order::find(final(released)@, other) == order::find(old(released)@, other),
        c is Ok <==> is_held(
            old(finished)@,
            expected@,
            LeaseState::Releasing,
            LeaseState::Releasing,
        ),
        c is Ok ==> order::find(final(finished)@, expected@.lease_id) is None,
        c is Err ==> final(finished)@ == old(finished)@,
        order::find(final(finished)@, other) == order::find(old(finished)@, other),
        d is Ok <==> is_held(old(freed)@, expected@, LeaseState::Reserved, LeaseState::Reserved),
        d is Ok ==> order::find(final(freed)@, expected@.lease_id) is None,
        d is Err ==> final(freed)@ == old(freed)@,
        order::find(final(freed)@, other) == order::find(old(freed)@, other),
{
    let id = expected@.lease_id;
    let reserved = seq![LeaseState::Reserved];
    let releasing = seq![LeaseState::Releasing];
    assert(reserved[0] == LeaseState::Reserved && releasing[0] == LeaseState::Releasing);
    assert(releasable()[0] == LeaseState::Active && releasable()[1] == LeaseState::Reserved);
    order::lemma_position(old(activated)@, id, 0);
    order::lemma_position(old(released)@, id, 0);
    if let Ok(next) = a {
        order::writing_changes_one_lease(old(activated)@, next@, other);
    }
    if b is Ok {
        let current = order::find(old(released)@, id)->Some_0;
        order::writing_changes_one_lease(
            old(released)@,
            current.with_state(LeaseState::Releasing),
            other,
        );
    }
    order::removing_changes_one_lease(old(finished)@, id, other);
    order::removing_changes_one_lease(old(freed)@, id, other);
}

/// A launch may use a lease exactly while both of its ids are delegated, and a
/// sandbox has the lease that names it.
pub proof fn leases_stay_delegated(
    allocator: SubidAllocator,
    record: LeaseRecord,
    delegation: Delegation,
    r: Result<(), Error>,
    sandbox_id: SandboxId,
    found: Result<Option<LeaseRecord>, Error>,
)
    requires
        call_ensures(SubidAllocator::validate_delegated, (&allocator, &record, &delegation), r),
        call_ensures(SubidAllocator::lease_for, (&allocator, &sandbox_id), found),
    ensures
        r is Ok <==> delegation::delegates(delegation@.uid_ranges, record@.uid as int)
            && delegation::delegates(delegation@.gid_ranges, record@.gid as int),
        found is Ok <==> is_unique(allocator@),
        found matches Ok(Some(lease)) ==> allocator@.contains(lease@) && lease@.sandbox_id
            == sandbox_id@,
        found matches Ok(None) ==> forall|i: int|
            0 <= i < allocator@.len() ==> (#[trigger] allocator@[i]).sandbox_id != sandbox_id@,
{
    accepted_ledgers_are_unique(allocator@);
}

/// An error ends with its reason, and names the lease it is about.
pub proof fn messages_end_with_their_reason(error: ErrorView)
    ensures
        match error {
            ErrorView::Ledger(inner) => ledger::error_text(inner).is_suffix_of(error_text(error)),
            ErrorView::Corrupt(reason) => reason.is_suffix_of(error_text(error)),
            ErrorView::StateConflict(reason) => reason.is_suffix_of(error_text(error)),
            ErrorView::Lookup(reason) => reason.is_suffix_of(error_text(error)),
            ErrorView::MissingLease(lease_id) => ("lease "@ + lease_id).is_prefix_of(
                error_text(error),
            ),
            ErrorView::Undelegated { lease_id, .. } => ("lease "@ + lease_id).is_prefix_of(
                error_text(error),
            ),
            ErrorView::Exhausted { .. } => true,
        },
{
    match error {
        ErrorView::Ledger(inner) => {
            text::lemma_ends("lease ledger: "@, ledger::error_text(inner));
        },
        ErrorView::Corrupt(reason) => {
            text::lemma_ends("lease ledger is corrupt: "@, reason);
        },
        ErrorView::StateConflict(reason) => {
            text::lemma_ends("lease state conflict: "@, reason);
        },
        ErrorView::Lookup(reason) => {
            text::lemma_ends("sandbox lookup failed during lease reconciliation: "@, reason);
        },
        ErrorView::MissingLease(lease_id) => {
            text::lemma_ends(
                "lease "@ + lease_id,
                " does not exist (stale or already released)"@,
            );
        },
        ErrorView::Undelegated { lease_id, uid_delegated, gid_delegated } => {
            let end = " IDs are "@ + delegated_word(uid_delegated) + " (UID) / "@ + delegated_word(
                gid_delegated,
            )
                + " (GID) inside the current subordinate delegation; new isolated launches using it fail closed"@;
            text::lemma_ends("lease "@ + lease_id, end);
            assert(error_text(error) =~= "lease "@ + lease_id + end);
        },
        ErrorView::Exhausted { .. } => {},
    }
}

/// An exhausted pool is reported with its capacities: the UID capacity over the
/// delegated UIDs and the GID capacity over the delegated GIDs, as they are
/// counted over the same records.
pub proof fn exhaustion_reports_both_capacities(
    allocator: &mut SubidAllocator,
    lease_id: String,
    sandbox_id: &SandboxId,
    owner: &KeyFingerprint,
    delegation: &Delegation,
    euid: u32,
    egid: u32,
    r: Result<LeaseRecord, Error>,
    uid_ranges: &Vec<SubidRange>,
    gid_ranges: &Vec<SubidRange>,
    records: &Vec<LeaseRecord>,
    uids: PoolCapacity,
    gids: PoolCapacity,
)
    requires
        call_ensures(
            SubidAllocator::claim_as,
            (allocator, lease_id, sandbox_id, owner, delegation, euid, egid),
            r,
        ),
        uid_ranges@ == delegation@.uid_ranges,
        gid_ranges@ == delegation@.gid_ranges,
        order::views(records@) == old(allocator)@,
        call_ensures(capacity, (uid_ranges, records, IdKind::Uid), uids),
        call_ensures(capacity, (gid_ranges, records, IdKind::Gid), gids),
    ensures
        r matches Err(Error::Exhausted { uid, gid }) ==> uid == uids && gid == gids,
{
}

} // verus!
