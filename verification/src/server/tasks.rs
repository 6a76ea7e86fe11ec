//! The registry of host bridges: daemon shutdown waits for every bridge that
//! was tracked, and tracks none afterwards.

use vstd::prelude::*;

verus! {

/// The tracked host bridges, by id.
#[derive(Debug)]
pub struct HostTaskRegistry {
    ids: Vec<u64>,
    next_id: u64,
    closed: bool,
}

/// The contents of a [`HostTaskRegistry`].
pub struct RegistryView {
    pub ids: Set<u64>,
    pub next_id: u64,
    pub closed: bool,
}

impl View for HostTaskRegistry {
    type V = RegistryView;

    closed spec fn view(&self) -> RegistryView {
        RegistryView { ids: self.ids@.to_set(), next_id: self.next_id, closed: self.closed }
    }
}

/// The id behind another one.
pub open spec fn id_after(id: u64) -> u64 {
    if id == u64::MAX {
        0
    } else {
        (id + 1) as u64
    }
}

impl HostTaskRegistry {
    #[verifier::type_invariant]
    pub closed spec fn valid(&self) -> bool {
        self.ids@.no_duplicates()
    }

    /// An open registry without bridges.
    pub fn new() -> (r: HostTaskRegistry)
        ensures
            r@ == (RegistryView { ids: Set::empty(), next_id: 0, closed: false }),
    {
        let r = HostTaskRegistry { ids: Vec::new(), next_id: 0, closed: false };
        assert(r.ids@.to_set() =~= Set::<u64>::empty());
        r
    }

    fn find(&self, id: u64) -> (r: Option<usize>)
        ensures
            match r {
                Some(i) => i < self.ids@.len() && self.ids@[i as int] == id,
                None => !self.ids@.contains(id),
            },
    {
        let mut i: usize = 0;
        while i < self.ids.len()
            invariant
                i <= self.ids@.len(),
                forall|k: int| 0 <= k < i ==> self.ids@[k] != id,
            decreases self.ids@.len() - i,
        {
            if self.ids[i] == id {
                return Some(i);
            }
            i = i + 1;
        }
        None
    }

    /// Track a bridge. A closed registry refuses: the caller runs the bridge to
    /// its end itself.
    pub fn track(&mut self) -> (r: Option<u64>)
        ensures
            if old(self)@.closed {
                r is None && final(self)@ == old(self)@
            } else {
                r == Some(old(self)@.next_id) && final(self)@ == (RegistryView {
                    ids: old(self)@.ids.insert(old(self)@.next_id),
                    next_id: id_after(old(self)@.next_id),
                    ..old(self)@
                })
            },
    {
        if self.closed {
            return None;
        }
        proof {
            use_type_invariant(&*self);
        }
        let id = self.next_id;
        let ghost before = self.ids@;
        self.next_id = if id == u64::MAX {
            0
        } else {
            id + 1
        };
        let mut ids: Vec<u64> = Vec::new();
        let known = self.find(id).is_some();
        std::mem::swap(&mut ids, &mut self.ids);
        if !known {
            ids.push(id);
        }
        proof {
            if known {
                assert(before.to_set().insert(id) =~= before.to_set());
            } else {
                assert(before.push(id).to_set() =~= before.to_set().insert(id)) by {
                    assert forall|x: u64| #[trigger] before.push(id).to_set().contains(x)
                        <==> before.to_set().insert(id).contains(x) by {
                        if before.contains(x) {
                            let k = choose|k: int| 0 <= k < before.len() && before[k] == x;
                            assert(before.push(id)[k] == x);
                        }
                        assert(before.push(id)[before.len() as int] == id);
                    }
                }
            }
        }
        self.ids = ids;
        Some(id)
    }

    /// A bridge finished.
    pub fn complete(&mut self, id: u64)
        ensures
            final(self)@ == (RegistryView { ids: old(self)@.ids.remove(id), ..old(self)@ }),
    {
        proof {
            use_type_invariant(&*self);
        }
        let at = self.find(id);
        let ghost before = self.ids@;
        let mut ids: Vec<u64> = Vec::new();
        std::mem::swap(&mut ids, &mut self.ids);
        match at {
            Some(i) => {
                let _ = ids.remove(i);
                proof {
                    let after = before.remove(i as int);
                    assert(ids@ =~= after);
                    assert forall|a: int, b: int|
                        0 <= a < after.len() && 0 <= b < after.len() && a != b implies after[a]
                        != after[b] by {
                        let oa = if a < i { a } else { a + 1 };
                        let ob = if b < i { b } else { b + 1 };
                        assert(before[oa] != before[ob]);
                    }
                    assert(after.to_set() =~= before.to_set().remove(id)) by {
                        assert forall|x: u64| #[trigger] after.to_set().contains(x)
                            <==> before.to_set().remove(id).contains(x) by {
                            if after.contains(x) {
                                let k = choose|k: int| 0 <= k < after.len() && after[k] == x;
                                let ok = if k < i { k } else { k + 1 };
                                assert(before[ok] == x);
                                assert(before[ok] != before[i as int]);
                            }
                            if before.contains(x) && x != id {
                                let k = choose|k: int| 0 <= k < before.len() && before[k] == x;
                                let nk = if k < i { k } else { k - 1 };
                                assert(after[nk] == x);
                            }
                        }
                    }
                }
            },
            None => {
                assert(before.to_set().remove(id) =~= before.to_set());
            },
        }
        self.ids = ids;
    }

    /// Track nothing any more.
    pub fn close(&mut self)
        ensures
            final(self)@ == (RegistryView { closed: true, ..old(self)@ }),
    {
        proof {
            use_type_invariant(&*self);
        }
        self.closed = true;
    }

    /// The bridges whose processes are force-killed: all of them.
    pub fn force_stop(&self) -> (r: Vec<u64>)
        ensures
            r@.to_set() == self@.ids,
            r@.no_duplicates(),
    {
        proof {
            use_type_invariant(self);
        }
        self.copy_ids()
    }

    fn copy_ids(&self) -> (r: Vec<u64>)
        ensures
            r@ == self.ids@,
    {
        let mut out: Vec<u64> = Vec::new();
        let mut i: usize = 0;
        while i < self.ids.len()
            invariant
                i <= self.ids@.len(),
                out@ == self.ids@.take(i as int),
            decreases self.ids@.len() - i,
        {
            assert(self.ids@.take(i + 1) =~= self.ids@.take(i as int).push(self.ids@[i as int]));
            out.push(self.ids[i]);
            i = i + 1;
        }
        assert(self.ids@.take(self.ids@.len() as int) =~= self.ids@);
        out
    }

    /// One round of waiting for every bridge: the registry is closed, and the
    /// bridges to wait for are taken out. Nothing to wait for ends the rounds.
    pub fn take_all(&mut self) -> (r: Vec<u64>)
        ensures
            r@.to_set() == old(self)@.ids,
            r@.no_duplicates(),
            final(self)@ == (RegistryView { ids: Set::empty(), closed: true, ..old(self)@ }),
    {
        proof {
            use_type_invariant(&*self);
        }
        self.closed = true;
        let mut ids: Vec<u64> = Vec::new();
        std::mem::swap(&mut ids, &mut self.ids);
        assert(self.ids@.to_set() =~= Set::<u64>::empty());
        ids
    }
}

/// Ids follow each other without repeating before all of them were used.
pub proof fn ids_follow_each_other(id: u64, other: u64)
    ensures
        id < u64::MAX ==> id_after(id) == id + 1,
        id_after(u64::MAX) == 0,
        id_after(id) == id_after(other) ==> id == other,
{
}

/// A task is tracked, under an id of its own, exactly while the registry is
/// open; every other task stays tracked.
pub proof fn open_registries_track_tasks(registry: &mut HostTaskRegistry, r: Option<u64>)
    requires
        call_ensures(HostTaskRegistry::track, (registry,), r),
    ensures
        r is None <==> old(registry)@.closed,
        final(registry)@.closed == old(registry)@.closed,
        r matches Some(id) ==> {
            &&& id == old(registry)@.next_id
            &&& final(registry)@.next_id == id_after(id)
            &&& forall|other: u64|
                final(registry)@.ids.contains(other) <==> other == id || old(registry)@.ids.contains(other)
        },
        r is None ==> final(registry)@ == old(registry)@,
{
}

/// A completed task, and no other, is tracked no longer.
pub proof fn completed_tasks_are_forgotten(registry: &mut HostTaskRegistry, id: u64, other: u64)
    requires
        call_ensures(HostTaskRegistry::complete, (registry, id), ()),
    ensures
        final(registry)@.ids.contains(other) <==> other != id && old(registry)@.ids.contains(other),
        final(registry)@.closed == old(registry)@.closed,
        final(registry)@.next_id == old(registry)@.next_id,
{
}

/// A registry that was closed or emptied tracks nothing more, and emptying it
/// hands out every task once.
pub proof fn closed_registries_stay_closed(
    closing: &mut HostTaskRegistry,
    emptying: &mut HostTaskRegistry,
    all: Vec<u64>,
    later: &mut HostTaskRegistry,
    r: Option<u64>,
    id: u64,
)
    requires
        call_ensures(HostTaskRegistry::close, (closing,), ()),
        call_ensures(HostTaskRegistry::take_all, (emptying,), all),
        call_ensures(HostTaskRegistry::track, (later,), r),
    ensures
        final(closing)@ == old(later)@ || final(emptying)@ == old(later)@ ==> r is None,
        final(closing)@.ids == old(closing)@.ids,
        all@.to_set().contains(id) <==> old(emptying)@.ids.contains(id),
        all@.no_duplicates(),
        !final(emptying)@.ids.contains(id),
{
}

} // verus!
