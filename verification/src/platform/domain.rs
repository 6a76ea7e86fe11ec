//! Process domains: the state machine behind the races between launching,
//! cleaning up, and deleting.
//!
//! ```text
//! Idle (absent)  -- first launch -->  Active  -- drained and empty -->  Idle
//! Active/Idle    -- delete -->        Deleting  -- reject launches, wait for
//!                                      in-flight ones, kill and remove, gone
//! ```
//!
//! A domain itself belongs to the engine; here it is a handle.

use crate::platform::error::{self, LaunchError, LaunchErrorView};
use crate::sandbox::id::SandboxId;
use crate::text;
use vstd::prelude::*;

verus! {

/// The phase of one sandbox's domain.
#[derive(Debug, Clone, Copy, PartialEq, Eq, Structural)]
pub enum DomainPhase {
    /// No domain exists.
    Idle,
    /// A domain exists and launches may join it.
    Active,
    /// Removal is in progress; launches are rejected.
    Deleting,
}

/// What the registry knows of one sandbox.
#[derive(Debug, Clone, Copy)]
pub struct DomainSlot {
    pub phase: DomainPhase,
    /// Launches between joining the domain and their waiter's end.
    pub in_flight: usize,
    pub domain: Option<u64>,
}

/// A slot nothing happened in yet.
pub open spec fn idle_slot() -> DomainSlot {
    DomainSlot { phase: DomainPhase::Idle, in_flight: 0, domain: None }
}

/// The slots by sandbox.
pub type Slots = Map<Seq<char>, DomainSlot>;

/// The slots of a list of entries.
pub open spec fn slots_of(entries: Seq<(SandboxId, DomainSlot)>) -> Slots
    decreases entries.len(),
{
    if entries.len() == 0 {
        Map::empty()
    } else {
        slots_of(entries.drop_last()).insert(entries.last().0@, entries.last().1)
    }
}

/// No sandbox has two entries.
pub open spec fn distinct(entries: Seq<(SandboxId, DomainSlot)>) -> bool {
    forall|i: int, j: int|
        0 <= i < j < entries.len() ==> (#[trigger] entries[i]).0@ != (#[trigger] entries[j]).0@
}

/// A sandbox has an entry.
pub open spec fn listed(entries: Seq<(SandboxId, DomainSlot)>, id: Seq<char>) -> bool {
    exists|i: int| 0 <= i < entries.len() && (#[trigger] entries[i]).0@ == id
}

proof fn lemma_slots(entries: Seq<(SandboxId, DomainSlot)>)
    requires
        distinct(entries),
    ensures
        forall|id: Seq<char>| #[trigger] slots_of(entries).contains_key(id) <==> listed(entries, id),
        forall|i: int|
            0 <= i < entries.len() ==> slots_of(entries)[(#[trigger] entries[i]).0@]
                == entries[i].1,
    decreases entries.len(),
{
    if entries.len() > 0 {
        let short = entries.drop_last();
        let n = short.len() as int;
        assert forall|i: int, j: int| 0 <= i < j < short.len() implies (#[trigger] short[i]).0@ != (
        #[trigger] short[j]).0@ by {
            assert(entries[i].0@ != entries[j].0@);
        }
        lemma_slots(short);
        assert forall|id: Seq<char>| #[trigger] slots_of(entries).contains_key(id) <==> listed(
            entries,
            id,
        ) by {
            assert(slots_of(short).contains_key(id) <==> listed(short, id));
            if listed(short, id) {
                let k = choose|k: int| 0 <= k < short.len() && (#[trigger] short[k]).0@ == id;
                assert(entries[k].0@ == id);
            }
            if listed(entries, id) {
                let k = choose|k: int| 0 <= k < entries.len() && (#[trigger] entries[k]).0@ == id;
                if k < n {
                    assert(short[k].0@ == id);
                }
            }
            assert(entries[n] == entries.last());
        }
        assert forall|i: int| 0 <= i < entries.len() implies slots_of(entries)[(
        #[trigger] entries[i]).0@] == entries[i].1 by {
            if i < n {
                assert(short[i] == entries[i]);
                assert(entries[i].0@ != entries[n].0@);
            }
        }
    }
}

/// The per-sandbox domain registry.
#[derive(Debug)]
pub struct DomainRegistry {
    entries: Vec<(SandboxId, DomainSlot)>,
}

impl View for DomainRegistry {
    type V = Slots;

    closed spec fn view(&self) -> Slots {
        slots_of(self.entries@)
    }
}

/// The slot of a sandbox, idle if it has none.
pub open spec fn slot_of(slots: Slots, id: Seq<char>) -> DomainSlot {
    if slots.contains_key(id) {
        slots[id]
    } else {
        idle_slot()
    }
}

/// How a launch joins its sandbox's domain.
pub enum Joining {
    /// The domain is being deleted.
    Rejected,
    /// There is a domain.
    Existing(u64),
    /// A domain has to be created first.
    Create,
}

/// How a launch joins its sandbox's domain.
pub open spec fn joining(slots: Slots, id: Seq<char>) -> Joining {
    let slot = slot_of(slots, id);
    if slot.phase == DomainPhase::Deleting {
        Joining::Rejected
    } else {
        match slot.domain {
            Some(domain) => Joining::Existing(domain),
            None => Joining::Create,
        }
    }
}

/// The slots after a launch joined an existing domain.
pub open spec fn joined(slots: Slots, id: Seq<char>) -> Slots {
    let slot = slot_of(slots, id);
    slots.insert(id, DomainSlot { in_flight: (slot.in_flight + 1) as usize, ..slot })
}

/// The slots after a launch created a domain and joined it.
pub open spec fn created(slots: Slots, id: Seq<char>, domain: u64) -> Slots {
    let slot = slot_of(slots, id);
    slots.insert(
        id,
        DomainSlot {
            phase: DomainPhase::Active,
            in_flight: (slot.in_flight + 1) as usize,
            domain: Some(domain),
        },
    )
}

/// The slot after one launch less is in flight.
pub open spec fn landed(slot: DomainSlot) -> DomainSlot {
    DomainSlot {
        in_flight: if slot.in_flight == 0 {
            0
        } else {
            (slot.in_flight - 1) as usize
        },
        ..slot
    }
}

/// The domain that may be cleaned up once a launch has finished: nothing is in
/// flight, and the slot is not being deleted.
pub open spec fn cleanup_candidate(slots: Slots, id: Seq<char>) -> Option<u64> {
    if slots.contains_key(id) && slots[id].phase == DomainPhase::Active && landed(slots[id]).in_flight
        == 0 {
        slots[id].domain
    } else {
        None
    }
}

/// The slots after a launch finished and its domain stayed.
pub open spec fn finished(slots: Slots, id: Seq<char>) -> Slots {
    if slots.contains_key(id) {
        slots.insert(id, landed(slots[id]))
    } else {
        slots
    }
}

/// The slots after a launch finished and its domain was found empty.
pub open spec fn cleaned(slots: Slots, id: Seq<char>, removed: bool) -> Slots {
    if removed {
        slots.remove(id)
    } else {
        slots.insert(id, DomainSlot { domain: None, ..landed(slots[id]) })
    }
}

/// How a deletion starts.
#[derive(Debug, Clone, Copy, PartialEq, Eq)]
pub enum ReleaseStart {
    /// The sandbox has no slot: nothing is to do.
    Nothing,
    /// Kill every member of the domain, if there is one, then wait for the
    /// launches in flight.
    Kill(Option<u64>),
}

/// What a look at the launch barrier decides.
#[derive(Debug, Clone, Copy, PartialEq, Eq)]
pub enum Barrier {
    /// Launches are still in flight.
    Wait,
    /// The domain, taken out of its slot, may be torn down.
    Drained(Option<u64>),
}

/// The slots with the phase of a sandbox changed.
pub open spec fn in_phase(slots: Slots, id: Seq<char>, phase: DomainPhase) -> Slots {
    if slots.contains_key(id) {
        slots.insert(id, DomainSlot { phase, ..slots[id] })
    } else {
        slots
    }
}

/// The slots with the domain of a sandbox taken out.
pub open spec fn taken(slots: Slots, id: Seq<char>) -> Slots {
    if slots.contains_key(id) {
        slots.insert(id, DomainSlot { domain: None, ..slots[id] })
    } else {
        slots
    }
}

/// The slots with a domain put back after a failed teardown.
pub open spec fn restored(slots: Slots, id: Seq<char>, domain: Option<u64>) -> Slots {
    if slots.contains_key(id) {
        slots.insert(id, DomainSlot { phase: DomainPhase::Active, domain, ..slots[id] })
    } else {
        slots
    }
}

pub open spec fn being_deleted() -> LaunchErrorView {
    error::plain("sandbox process domain is being deleted; new launches are rejected"@)
}

pub open spec fn already_deleting() -> LaunchErrorView {
    error::plain("sandbox process domain deletion is already in progress"@)
}

pub open spec fn not_drained() -> LaunchErrorView {
    error::plain("sandbox launch barrier did not drain before deletion"@)
}

pub open spec fn still_populated() -> LaunchErrorView {
    error::plain("sandbox process domain still contains processes after kill"@)
}

impl DomainRegistry {
    #[verifier::type_invariant]
    pub closed spec fn valid(&self) -> bool {
        distinct(self.entries@)
    }

    /// A registry without sandboxes.
    pub fn new() -> (r: DomainRegistry)
        ensures
            r@ == Slots::empty(),
    {
        DomainRegistry { entries: Vec::new() }
    }

    fn find(&self, id: &SandboxId) -> (r: Option<usize>)
        ensures
            match r {
                Some(i) => i < self.entries@.len() && self.entries@[i as int].0@ == id@,
                None => !listed(self.entries@, id@),
            },
    {
        let mut i: usize = 0;
        while i < self.entries.len()
            invariant
                i <= self.entries@.len(),
                forall|k: int| 0 <= k < i ==> (#[trigger] self.entries@[k]).0@ != id@,
            decreases self.entries@.len() - i,
        {
            if self.entries[i].0.same(id) {
                return Some(i);
            }
            i = i + 1;
        }
        None
    }

    /// The slot of a sandbox.
    pub fn get(&self, id: &SandboxId) -> (r: Option<DomainSlot>)
        ensures
            match r {
                Some(slot) => self@.contains_key(id@) && self@[id@] == slot,
                None => !self@.contains_key(id@),
            },
    {
        proof {
            use_type_invariant(self);
            lemma_slots(self.entries@);
        }
        match self.find(id) {
            Some(i) => Some(self.entries[i].1),
            None => None,
        }
    }

    fn slot(&self, id: &SandboxId) -> (r: DomainSlot)
        ensures
            r == slot_of(self@, id@),
    {
        match self.get(id) {
            Some(slot) => slot,
            None => DomainSlot { phase: DomainPhase::Idle, in_flight: 0, domain: None },
        }
    }

    fn put(&mut self, id: &SandboxId, slot: DomainSlot)
        ensures
            final(self)@ == old(self)@.insert(id@, slot),
    {
        proof {
            use_type_invariant(&*self);
            lemma_slots(self.entries@);
        }
        let at = self.find(id);
        let mut entries: Vec<(SandboxId, DomainSlot)> = Vec::new();
        std::mem::swap(&mut entries, &mut self.entries);
        let ghost before = entries@;
        match at {
            Some(i) => {
                let entry = (id.clone(), slot);
                entries[i] = entry;
                proof {
                    let after = before.update(i as int, entry);
                    assert(entries@ =~= after);
                    assert(distinct(after));
                    lemma_slots(after);
                    assert(slots_of(after) =~= slots_of(before).insert(id@, slot)) by {
                        assert forall|key: Seq<char>| slots_of(after).contains_key(key)
                            <==> slots_of(before).insert(id@, slot).contains_key(key) by {
                            if listed(before, key) {
                                let k = choose|k: int|
                                    0 <= k < before.len() && (#[trigger] before[k]).0@ == key;
                                assert(after[k].0@ == key);
                            }
                            if listed(after, key) {
                                let k = choose|k: int|
                                    0 <= k < after.len() && (#[trigger] after[k]).0@ == key;
                                assert(before[k].0@ == key);
                            }
                            assert(after[i as int].0@ == id@);
                        }
                        assert forall|key: Seq<char>| slots_of(after).contains_key(key) implies
                            slots_of(after)[key] == slots_of(before).insert(id@, slot)[key] by {
                            assert(listed(after, key));
                            let k = choose|k: int|
                                0 <= k < after.len() && (#[trigger] after[k]).0@ == key;
                            if k != i {
                                assert(before[k] == after[k]);
                                assert(before[k].0@ != before[i as int].0@);
                            }
                        }
                    }
                }
            },
            None => {
                let entry = (id.clone(), slot);
                entries.push(entry);
                proof {
                    let after = before.push(entry);
                    assert(after.drop_last() =~= before);
                    assert(slots_of(after) == slots_of(before).insert(id@, slot));
                    assert forall|i: int, j: int| 0 <= i < j < after.len() implies (
                    #[trigger] after[i]).0@ != (#[trigger] after[j]).0@ by {
                        if j < before.len() {
                            assert(before[i].0@ != before[j].0@);
                        } else {
                            assert(before[i] == after[i]);
                        }
                    }
                }
            },
        }
        self.entries = entries;
    }

    fn forget(&mut self, id: &SandboxId)
        ensures
            final(self)@ == old(self)@.remove(id@),
    {
        proof {
            use_type_invariant(&*self);
            lemma_slots(self.entries@);
        }
        let at = self.find(id);
        let mut entries: Vec<(SandboxId, DomainSlot)> = Vec::new();
        std::mem::swap(&mut entries, &mut self.entries);
        let ghost before = entries@;
        match at {
            Some(i) => {
                let _ = entries.remove(i);
                proof {
                    let after = before.remove(i as int);
                    assert(entries@ =~= after);
                    assert forall|a: int, b: int| 0 <= a < b < after.len() implies (
                    #[trigger] after[a]).0@ != (#[trigger] after[b]).0@ by {
                        let oa = if a < i { a } else { a + 1 };
                        let ob = if b < i { b } else { b + 1 };
                        assert(before[oa].0@ != before[ob].0@);
                    }
                    lemma_slots(after);
                    assert(slots_of(after) =~= slots_of(before).remove(id@)) by {
                        assert forall|key: Seq<char>| slots_of(after).contains_key(key)
                            <==> slots_of(before).remove(id@).contains_key(key) by {
                            if listed(after, key) {
                                let k = choose|k: int|
                                    0 <= k < after.len() && (#[trigger] after[k]).0@ == key;
                                let ok = if k < i { k } else { k + 1 };
                                assert(before[ok].0@ == key);
                                assert(before[ok].0@ != before[i as int].0@);
                            }
                            if listed(before, key) && key != id@ {
                                let k = choose|k: int|
                                    0 <= k < before.len() && (#[trigger] before[k]).0@ == key;
                                let nk = if k < i { k } else { k - 1 };
                                assert(after[nk].0@ == key);
                            }
                        }
                        assert forall|key: Seq<char>| slots_of(after).contains_key(key) implies
                            slots_of(after)[key] == slots_of(before).remove(id@)[key] by {
                            assert(listed(after, key));
                            let k = choose|k: int|
                                0 <= k < after.len() && (#[trigger] after[k]).0@ == key;
                            let ok = if k < i { k } else { k + 1 };
                            assert(before[ok] == after[k]);
                            assert(before[ok].0@ != before[i as int].0@);
                        }
                    }
                }
            },
            None => {
                assert(slots_of(before) =~= slots_of(before).remove(id@));
            },
        }
        self.entries = entries;
    }

    /// Join the sandbox's domain, creating it with `create` if there is none,
    /// and register one launch in flight against it.
    pub fn process_domain<F: FnOnce() -> Result<u64, String>>(
        &mut self,
        id: &SandboxId,
        create: F,
    ) -> (r: Result<u64, LaunchError>)
        requires
            joining(old(self)@, id@) is Create ==> create.requires(()),
            slot_of(old(self)@, id@).in_flight < usize::MAX,
        ensures
            match joining(old(self)@, id@) {
                Joining::Rejected => final(self)@ == old(self)@ && (r matches Err(error) && error@
                    == being_deleted()),
                Joining::Existing(domain) => final(self)@ == joined(old(self)@, id@) && r == Ok::<
                    u64,
                    LaunchError,
                >(domain),
                Joining::Create => exists|outcome: Result<u64, String>|
                    #[trigger] create.ensures((), outcome) && (match outcome {
                        Ok(domain) => final(self)@ == created(old(self)@, id@, domain) && r == Ok::<
                            u64,
                            LaunchError,
                        >(domain),
                        Err(reason) => final(self)@ == old(self)@.insert(
                            id@,
                            slot_of(old(self)@, id@),
                        ) && (r matches Err(error) && error@ == error::plain(reason@)),
                    }),
            },
    {
        let slot = self.slot(id);
        if slot.phase == DomainPhase::Deleting {
            return Err(
                LaunchError::new(
                    "sandbox process domain is being deleted; new launches are rejected",
                ),
            );
        }
        match slot.domain {
            Some(domain) => {
                self.put(id, DomainSlot { in_flight: slot.in_flight + 1, ..slot });
                Ok(domain)
            },
            None => {
                let outcome = create();
                assert(create.ensures((), outcome));
                match outcome {
                    Ok(domain) => {
                        self.put(
                            id,
                            DomainSlot {
                                phase: DomainPhase::Active,
                                in_flight: slot.in_flight + 1,
                                domain: Some(domain),
                            },
                        );
                        Ok(domain)
                    },
                    Err(reason) => {
                        self.put(id, slot);
                        Err(LaunchError::new(reason.as_str()))
                    },
                }
            },
        }
    }

    /// One launch less is in flight. A domain that nothing uses any more is
    /// removed: no launch is in flight, it has no members, and the slot is not
    /// being deleted. `is_populated` answers `None` when it cannot tell.
    pub fn launch_finished<P: FnOnce(u64) -> Option<bool>, R: FnOnce(u64) -> bool>(
        &mut self,
        id: &SandboxId,
        is_populated: P,
        remove_empty: R,
    )
        requires
            cleanup_candidate(old(self)@, id@) matches Some(domain) ==> is_populated.requires(
                (domain,),
            ),
            cleanup_candidate(old(self)@, id@) matches Some(domain) ==> (is_populated.ensures(
                (domain,),
                Some(false),
            ) ==> remove_empty.requires((domain,))),
        ensures
            match cleanup_candidate(old(self)@, id@) {
                None => final(self)@ == finished(old(self)@, id@),
                Some(domain) => exists|populated: Option<bool>|
                    #[trigger] is_populated.ensures((domain,), populated) && (if populated == Some(
                        false,
                    ) {
                        exists|removed: bool|
                            #[trigger] remove_empty.ensures((domain,), removed) && final(self)@
                                == cleaned(old(self)@, id@, removed)
                    } else {
                        final(self)@ == finished(old(self)@, id@)
                    }),
            },
    {
        let slot = match self.get(id) {
            Some(slot) => slot,
            None => {
                return ;
            },
        };
        let in_flight: usize = if slot.in_flight == 0 {
            0
        } else {
            slot.in_flight - 1
        };
        let slot = DomainSlot { in_flight, ..slot };
        if slot.phase == DomainPhase::Active && in_flight == 0 {
            if let Some(domain) = slot.domain {
                let populated = is_populated(domain);
                assert(is_populated.ensures((domain,), populated));
                if let Some(false) = populated {
                    let removed = remove_empty(domain);
                    assert(remove_empty.ensures((domain,), removed));
                    if removed {
                        self.forget(id);
                    } else {
                        self.put(id, DomainSlot { domain: None, ..slot });
                    }
                    return ;
                }
            }
        }
        self.put(id, slot);
    }

    /// Start a deletion: reject new launches first. A deletion in progress is
    /// not started twice.
    pub fn begin_release(&mut self, id: &SandboxId) -> (r: Result<ReleaseStart, LaunchError>)
        ensures
            if !old(self)@.contains_key(id@) {
                final(self)@ == old(self)@ && r == Ok::<ReleaseStart, LaunchError>(
                    ReleaseStart::Nothing,
                )
            } else if old(self)@[id@].phase == DomainPhase::Deleting {
                final(self)@ == old(self)@ && (r matches Err(error) && error@ == already_deleting())
            } else {
                final(self)@ == in_phase(old(self)@, id@, DomainPhase::Deleting) && r == Ok::<
                    ReleaseStart,
                    LaunchError,
                >(ReleaseStart::Kill(old(self)@[id@].domain))
            },
    {
        match self.get(id) {
            None => Ok(ReleaseStart::Nothing),
            Some(slot) => {
                if slot.phase == DomainPhase::Deleting {
                    return Err(
                        LaunchError::new("sandbox process domain deletion is already in progress"),
                    );
                }
                self.put(id, DomainSlot { phase: DomainPhase::Deleting, ..slot });
                Ok(ReleaseStart::Kill(slot.domain))
            },
        }
    }

    /// Look at the launch barrier. A wait that timed out gives the deletion
    /// up; otherwise the domain is taken out once nothing is in flight.
    pub fn release_barrier(&mut self, id: &SandboxId, timed_out: bool) -> (r: Result<
        Barrier,
        LaunchError,
    >)
        ensures
            if timed_out {
                final(self)@ == in_phase(old(self)@, id@, DomainPhase::Active) && (r matches Err(
                    error,
                ) && error@ == not_drained())
            } else if slot_of(old(self)@, id@).in_flight > 0 {
                final(self)@ == old(self)@ && r == Ok::<Barrier, LaunchError>(Barrier::Wait)
            } else {
                final(self)@ == taken(old(self)@, id@) && r == Ok::<Barrier, LaunchError>(
                    Barrier::Drained(slot_of(old(self)@, id@).domain),
                )
            },
    {
        let found = self.get(id);
        if timed_out {
            if let Some(slot) = found {
                self.put(id, DomainSlot { phase: DomainPhase::Active, ..slot });
            }
            return Err(LaunchError::new("sandbox launch barrier did not drain before deletion"));
        }
        match found {
            None => Ok(Barrier::Drained(None)),
            Some(slot) => {
                if slot.in_flight > 0 {
                    return Ok(Barrier::Wait);
                }
                self.put(id, DomainSlot { domain: None, ..slot });
                Ok(Barrier::Drained(slot.domain))
            },
        }
    }

    /// End a deletion: the slot is gone after a teardown, and gets its domain
    /// back after a failed one, so that the caller can retry.
    pub fn finish_release(
        &mut self,
        id: &SandboxId,
        domain: Option<u64>,
        teardown: Result<(), LaunchError>,
    ) -> (r: Result<(), LaunchError>)
        ensures
            match teardown {
                Ok(_) => final(self)@ == old(self)@.remove(id@) && r is Ok,
                Err(expected) => final(self)@ == restored(old(self)@, id@, domain) && (r matches Err(
                    error,
                ) && error@ == expected@),
            },
    {
        match teardown {
            Ok(_) => {
                self.forget(id);
                Ok(())
            },
            Err(error) => {
                if let Some(slot) = self.get(id) {
                    self.put(id, DomainSlot { phase: DomainPhase::Active, domain, ..slot });
                }
                Err(error)
            },
        }
    }
}

/// A failure that the engine reported.
#[derive(Debug)]
pub enum EngineError {
    /// The child's setup failed: the user command never executed.
    Setup { stage: String, detail: String, errno: Option<u32> },
    Other { message: String },
}

/// The launch-facing text of an engine failure.
pub open spec fn engine_text(failure: EngineError) -> Seq<char> {
    match failure {
        EngineError::Setup { stage, detail, errno } => "sandbox child setup failed at "@ + stage@
            + " (detail "@ + detail@ + ", errno "@ + (match errno {
            Some(errno) => text::decimal(errno as nat),
            None => "n/a"@,
        }) + ")"@,
        EngineError::Other { message } => "sandbox launch failed: "@ + message@,
    }
}

/// Render an engine failure for the launch error.
pub fn describe_engine_error(failure: &EngineError) -> (r: String)
    ensures
        r@ == engine_text(*failure),
{
    match failure {
        EngineError::Setup { stage, detail, errno } => {
            let code = match errno {
                Some(errno) => text::decimal_text(*errno as u64),
                None => String::from_str("n/a"),
            };
            let mut out = text::cat5(
                "sandbox child setup failed at ",
                stage.as_str(),
                " (detail ",
                detail.as_str(),
                ", errno ",
            );
            out.append(code.as_str());
            out.append(")");
            out
        },
        EngineError::Other { message } => text::cat2("sandbox launch failed: ", message.as_str()),
    }
}

/// An engine call was made, with this outcome.
pub open spec fn called<T, F: FnOnce(u64) -> Result<T, EngineError>>(
    call: F,
    domain: u64,
    outcome: Result<T, EngineError>,
) -> bool {
    call.ensures((domain,), outcome)
}

/// The outcome of tearing a domain down: kill every member, wait for the kernel
/// to agree that it is empty, then remove it. Each step runs only after the one
/// before it succeeded.
pub open spec fn torn_down<
    K: FnOnce(u64) -> Result<(), EngineError>,
    W: FnOnce(u64) -> Result<bool, EngineError>,
    M: FnOnce(u64) -> Result<(), EngineError>,
>(r: Result<(), LaunchError>, domain: u64, kill: K, wait: W, remove: M) -> bool {
    exists|killed: Result<(), EngineError>|
        #[trigger] called(kill, domain, killed) && (match killed {
            Err(failure) => r matches Err(error) && error@ == error::plain(engine_text(failure)),
            Ok(_) => exists|emptied: Result<bool, EngineError>|
                #[trigger] called(wait, domain, emptied) && (match emptied {
                    Err(failure) => r matches Err(error) && error@ == error::plain(
                        engine_text(failure),
                    ),
                    Ok(false) => r matches Err(error) && error@ == still_populated(),
                    Ok(true) => exists|removed: Result<(), EngineError>|
                        #[trigger] called(remove, domain, removed) && (match removed {
                            Err(failure) => r matches Err(error) && error@ == error::plain(
                                engine_text(failure),
                            ),
                            Ok(_) => r is Ok,
                        }),
                }),
        })
}

fn engine_failure<T>(failure: &EngineError) -> (r: Result<T, LaunchError>)
    ensures
        r matches Err(error) && error@ == error::plain(engine_text(*failure)),
{
    Err(LaunchError::new(describe_engine_error(failure).as_str()))
}

/// Tear a domain down outside the registry. Without a domain there is nothing
/// to do. Nothing waits before the kill succeeded, and nothing is removed
/// before the domain was found empty.
pub fn teardown<
    K: FnOnce(u64) -> Result<(), EngineError>,
    W: FnOnce(u64) -> Result<bool, EngineError>,
    M: FnOnce(u64) -> Result<(), EngineError>,
>(domain: Option<u64>, kill: K, wait: W, remove: M) -> (r: Result<(), LaunchError>)
    requires
        domain matches Some(d) ==> kill.requires((d,)),
        forall|d: u64, killed: Result<(), EngineError>|
            domain == Some(d) && killed is Ok && #[trigger] called(kill, d, killed)
                ==> wait.requires((d,)),
        forall|d: u64, emptied: Result<bool, EngineError>|
            domain == Some(d) && emptied == Ok::<bool, EngineError>(true) && #[trigger] called(
                wait,
                d,
                emptied,
            ) ==> remove.requires((d,)),
    ensures
        match domain {
            None => r is Ok,
            Some(domain) => torn_down(r, domain, kill, wait, remove),
        },
{
    let domain = match domain {
        None => {
            return Ok(());
        },
        Some(domain) => domain,
    };
    let killed = kill(domain);
    assert(called(kill, domain, killed));
    if let Err(failure) = &killed {
        return engine_failure(failure);
    }
    let emptied = wait(domain);
    assert(called(wait, domain, emptied));
    match &emptied {
        Err(failure) => {
            return engine_failure(failure);
        },
        Ok(empty) => {
            if !*empty {
                return Err(
                    LaunchError::new("sandbox process domain still contains processes after kill"),
                );
            }
        },
    }
    let removed = remove(domain);
    assert(called(remove, domain, removed));
    match &removed {
        Err(failure) => engine_failure(failure),
        Ok(_) => Ok(()),
    }
}

// ---------------------------------------------------------------------------
// What the registry promises

/// While a sandbox is being deleted every launch is rejected, and a launch that
/// finishes neither ends the deletion nor removes the slot.
pub proof fn deleting_sandboxes_only_drain(slots: Slots, id: Seq<char>)
    requires
        slots.contains_key(id),
        slots[id].phase == DomainPhase::Deleting,
    ensures
        joining(slots, id) is Rejected,
        cleanup_candidate(slots, id) is None,
        finished(slots, id).contains_key(id),
        finished(slots, id)[id].phase == DomainPhase::Deleting,
        finished(slots, id)[id].domain == slots[id].domain,
        finished(slots, id)[id].in_flight <= slots[id].in_flight,
{
}

/// A finished launch takes back exactly what joining registered.
pub proof fn finishing_undoes_joining(slots: Slots, id: Seq<char>)
    requires
        slots.contains_key(id),
        slots[id].in_flight < usize::MAX,
    ensures
        finished(joined(slots, id), id) == slots,
{
    assert(finished(joined(slots, id), id) =~= slots);
}

/// A domain is cleaned up only after its last launch, and never while the
/// sandbox is being deleted.
pub proof fn live_launches_keep_their_domain(slots: Slots, id: Seq<char>)
    ensures
        slots.contains_key(id) && slots[id].in_flight > 1 ==> cleanup_candidate(slots, id) is None,
        cleanup_candidate(slots, id) is Some ==> slots[id].in_flight <= 1 && slots[id].phase
            == DomainPhase::Active,
{
}

/// After a failed teardown the slot holds its domain again and a deletion can
/// start anew.
pub proof fn failed_releases_can_be_retried(slots: Slots, id: Seq<char>, domain: Option<u64>)
    requires
        slots.contains_key(id),
    ensures
        restored(slots, id, domain)[id].domain == domain,
        restored(slots, id, domain)[id].phase != DomainPhase::Deleting,
        restored(taken(slots, id), id, slots[id].domain) == in_phase(
            slots,
            id,
            DomainPhase::Active,
        ),
{
    assert(restored(taken(slots, id), id, slots[id].domain) =~= in_phase(
        slots,
        id,
        DomainPhase::Active,
    ));
}

/// Nothing that happens to one sandbox changes another's slot.
pub proof fn sandboxes_are_independent(
    slots: Slots,
    id: Seq<char>,
    other: Seq<char>,
    domain: u64,
    phase: DomainPhase,
    removed: bool,
)
    requires
        id != other,
    ensures
        slot_of(joined(slots, id), other) == slot_of(slots, other),
        slot_of(created(slots, id, domain), other) == slot_of(slots, other),
        slot_of(finished(slots, id), other) == slot_of(slots, other),
        slot_of(cleaned(slots, id, removed), other) == slot_of(slots, other),
        slot_of(in_phase(slots, id, phase), other) == slot_of(slots, other),
        slot_of(taken(slots, id), other) == slot_of(slots, other),
        slot_of(restored(slots, id, Some(domain)), other) == slot_of(slots, other),
{
}

/// A launch is refused exactly while its sandbox is being deleted; otherwise it
/// joins the domain there is, or has one created.
pub proof fn launches_join_one_domain(slots: Slots, id: Seq<char>)
    ensures
        joining(slots, id) is Rejected <==> slots.contains_key(id) && slots[id].phase
            == DomainPhase::Deleting,
        joining(slots, id) matches Joining::Existing(domain) ==> slots.contains_key(id)
            && slots[id].domain == Some(domain),
        joining(slots, id) is Create <==> !slots.contains_key(id) || (slots[id].phase
            != DomainPhase::Deleting && slots[id].domain is None),
{
}

/// Joining and creating count one launch more; only creating sets a domain, and
/// makes the sandbox active.
pub proof fn launches_are_counted(slots: Slots, id: Seq<char>, domain: u64)
    requires
        slots.contains_key(id) ==> slots[id].in_flight < usize::MAX,
    ensures
        ({
            let before = if slots.contains_key(id) {
                slots[id].in_flight as int
            } else {
                0
            };
            let one = joined(slots, id);
            let new = created(slots, id, domain);
            &&& one.contains_key(id) && new.contains_key(id)
            &&& one[id].in_flight == before + 1
            &&& new[id].in_flight == before + 1
            &&& slots.contains_key(id) ==> one[id].domain == slots[id].domain && one[id].phase
                == slots[id].phase
            &&& !slots.contains_key(id) ==> one[id].domain is None && one[id].phase
                == DomainPhase::Idle
            &&& new[id].domain == Some(domain)
            &&& new[id].phase == DomainPhase::Active
            &&& joining(new, id) == Joining::Existing(domain)
        }),
{
}

/// The end of a launch counts one launch less and changes nothing else. The
/// last launch of an active sandbox leaves its domain to be cleaned up; an
/// unknown sandbox is left alone.
pub proof fn the_last_launch_cleans_up(slots: Slots, id: Seq<char>, domain: u64)
    ensures
        !slots.contains_key(id) ==> finished(slots, id) == slots,
        slots.contains_key(id) ==> {
            let after = finished(slots, id)[id];
            &&& slots[id].in_flight > 0 ==> after.in_flight == slots[id].in_flight - 1
            &&& slots[id].in_flight == 0 ==> after.in_flight == 0
            &&& after.phase == slots[id].phase
            &&& after.domain == slots[id].domain
        },
        cleanup_candidate(slots, id) == Some(domain) <==> slots.contains_key(id) && slots[id].phase
            == DomainPhase::Active && slots[id].in_flight <= 1 && slots[id].domain == Some(domain),
        cleanup_candidate(created(Map::empty(), id, domain), id) == Some(domain),
{
}

/// A cleaned-up domain is gone: with the whole slot if it could be removed, and
/// otherwise from a slot that a later launch fills again.
pub proof fn cleaned_domains_are_gone(slots: Slots, id: Seq<char>)
    requires
        slots.contains_key(id),
    ensures
        !cleaned(slots, id, true).contains_key(id),
        cleaned(slots, id, false).contains_key(id),
        cleaned(slots, id, false)[id].domain is None,
        cleaned(slots, id, false)[id].phase == slots[id].phase,
        cleaned(slots, id, false)[id].in_flight == finished(slots, id)[id].in_flight,
        slots[id].phase != DomainPhase::Deleting ==> joining(cleaned(slots, id, false), id)
            is Create,
{
}

/// Entering a phase and taking a domain out change that and nothing else.
pub proof fn releases_change_one_field(slots: Slots, id: Seq<char>, phase: DomainPhase)
    ensures
        !slots.contains_key(id) ==> in_phase(slots, id, phase) == slots && taken(slots, id)
            == slots && restored(slots, id, None) == slots,
        slots.contains_key(id) ==> {
            &&& in_phase(slots, id, phase)[id].phase == phase
            &&& in_phase(slots, id, phase)[id].domain == slots[id].domain
            &&& in_phase(slots, id, phase)[id].in_flight == slots[id].in_flight
            &&& taken(slots, id)[id].domain is None
            &&& taken(slots, id)[id].phase == slots[id].phase
            &&& taken(slots, id)[id].in_flight == slots[id].in_flight
            &&& restored(slots, id, None)[id].phase == DomainPhase::Active
            &&& restored(slots, id, None)[id].in_flight == slots[id].in_flight
        },
{
}

/// A release starts once: it rejects new launches from then on, hands out the
/// domain to kill, and refuses to start again; an unknown sandbox has nothing to
/// release.
pub proof fn releases_start_once(
    registry: &mut DomainRegistry,
    id: SandboxId,
    r: Result<ReleaseStart, LaunchError>,
    later: &mut DomainRegistry,
    again: Result<ReleaseStart, LaunchError>,
)
    requires
        call_ensures(DomainRegistry::begin_release, (registry, &id), r),
        call_ensures(DomainRegistry::begin_release, (later, &id), again),
        final(registry)@ == old(later)@,
    ensures
        r == Ok::<ReleaseStart, LaunchError>(ReleaseStart::Nothing) <==> !old(registry)@.contains_key(id@),
        r is Err <==> old(registry)@.contains_key(id@) && old(registry)@[id@].phase
            == DomainPhase::Deleting,
        r matches Ok(ReleaseStart::Kill(domain)) ==> {
            &&& domain == old(registry)@[id@].domain
            &&& final(registry)@[id@].in_flight == old(registry)@[id@].in_flight
            &&& joining(final(registry)@, id@) is Rejected
            &&& again is Err
        },
        r is Err ==> final(registry)@ == old(registry)@,
{
}

/// A release waits exactly while launches are in flight, then takes the domain;
/// one that waited too long fails, and launches are accepted again.
pub proof fn releases_wait_for_launches(
    registry: &mut DomainRegistry,
    id: SandboxId,
    timed_out: bool,
    r: Result<Barrier, LaunchError>,
)
    requires
        call_ensures(DomainRegistry::release_barrier, (registry, &id, timed_out), r),
        old(registry)@.contains_key(id@),
    ensures
        r is Err <==> timed_out,
        r == Ok::<Barrier, LaunchError>(Barrier::Wait) <==> !timed_out && old(registry)@[id@].in_flight > 0,
        r matches Ok(Barrier::Drained(domain)) ==> domain == old(registry)@[id@].domain && final(registry)@[id@].domain is None,
        timed_out ==> !(joining(final(registry)@, id@) is Rejected) && final(registry)@[id@].domain
            == old(registry)@[id@].domain,
        r == Ok::<Barrier, LaunchError>(Barrier::Wait) ==> final(registry)@ == old(registry)@,
{
}

/// A finished release forgets the sandbox; a failed one gives its domain back
/// and accepts launches again. Other sandboxes are left alone.
pub proof fn failed_teardowns_give_the_domain_back(
    registry: &mut DomainRegistry,
    id: SandboxId,
    domain: Option<u64>,
    teardown: Result<(), LaunchError>,
    r: Result<(), LaunchError>,
    other: Seq<char>,
)
    requires
        call_ensures(DomainRegistry::finish_release, (registry, &id, domain, teardown), r),
    ensures
        r is Ok <==> teardown is Ok,
        teardown is Ok ==> !final(registry)@.contains_key(id@),
        teardown is Err && old(registry)@.contains_key(id@) ==> final(registry)@[id@].domain
            == domain && !(joining(final(registry)@, id@) is Rejected),
        other != id@ ==> slot_of(final(registry)@, other) == slot_of(old(registry)@, other),
{
}

} // verus!
