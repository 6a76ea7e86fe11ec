//! The live key store: the accepted snapshot and the on-disk identities it was
//! built from.

use crate::auth::snapshot::{AuthSnapshot, SnapshotView};
use crate::auth::source::{Error, ErrorView};
use std::sync::Arc;
use vstd::prelude::*;

verus! {

/// The observable state of one key source path, links not followed.
///
/// A missing path is a first-class identity: both key sources may legitimately
/// be absent. The status-change time rather than the modification time is part
/// of the identity, because a permission-only change moves only the former.
#[derive(Debug, Clone, Copy, PartialEq, Eq, Structural)]
pub enum FileIdentity {
    /// The path does not exist, or could not be inspected.
    Absent,
    /// A directory entry: device, inode, status-change time, mode, size.
    Inode { dev: u64, ino: u64, ctime_ns: i64, mode: u32, size: u64 },
}

/// The two key-source identities by role.
#[derive(Debug, Clone, Copy, PartialEq, Eq, Structural)]
pub struct SourceIdentities {
    /// The host `authorized_keys`.
    pub host: FileIdentity,
    /// The sandbox `allowed_keys`.
    pub allowed: FileIdentity,
}

/// What one request-time refresh check did.
#[derive(Debug, Clone, Copy, PartialEq, Eq, Structural)]
pub enum RefreshOutcome {
    /// Identities matched and no revalidation was forced: the live snapshot
    /// was left untouched.
    Unchanged,
    /// Both key sources were re-read, fully re-validated, and published.
    Reloaded,
}

/// The single live key store.
///
/// A refresh re-runs the full validation only when an identity changed or a
/// revalidation was forced. A failed refresh never publishes: the previous
/// snapshot keeps serving and the observed identities are adopted, so a broken
/// file costs at most one rejected parse per on-disk change.
#[derive(Debug)]
pub struct KeyStore {
    snapshot: Arc<AuthSnapshot>,
    identities: SourceIdentities,
    revalidate: bool,
    loads: u64,
}

/// The contents of a [`KeyStore`].
pub struct StoreView {
    pub snapshot: SnapshotView,
    pub identities: SourceIdentities,
    pub revalidate: bool,
    pub loads: u64,
}

impl View for KeyStore {
    type V = StoreView;

    closed spec fn view(&self) -> StoreView {
        StoreView {
            snapshot: self.snapshot@,
            identities: self.identities,
            revalidate: self.revalidate,
            loads: self.loads,
        }
    }
}

impl StoreView {
    /// Whether a refresh that observes these identities must re-read.
    pub open spec fn due(self, observed: SourceIdentities) -> bool {
        self.revalidate || self.identities != observed
    }

    /// The store after re-reading: the observed identities are adopted and the
    /// forced flag is consumed whatever came of it; only a success publishes.
    pub open spec fn reread(
        self,
        observed: SourceIdentities,
        outcome: Result<SnapshotView, ErrorView>,
    ) -> StoreView {
        StoreView {
            snapshot: match outcome {
                Ok(snapshot) => snapshot,
                Err(_) => self.snapshot,
            },
            identities: observed,
            revalidate: false,
            loads: ((self.loads + 1) % 0x1_0000_0000_0000_0000) as u64,
        }
    }

    /// The store after a request to revalidate.
    pub open spec fn invalidated(self) -> StoreView {
        StoreView { revalidate: true, ..self }
    }
}

/// The contents of a load outcome.
pub open spec fn outcome_view(outcome: Result<AuthSnapshot, Error>) -> Result<
    SnapshotView,
    ErrorView,
> {
    match outcome {
        Ok(snapshot) => Ok(snapshot@),
        Err(error) => Err(error@),
    }
}

/// What a re-read reports to its caller.
pub open spec fn reported(
    outcome: Result<SnapshotView, ErrorView>,
    r: Result<RefreshOutcome, Error>,
) -> bool {
    match outcome {
        Ok(_) => r == Ok::<RefreshOutcome, Error>(RefreshOutcome::Reloaded),
        Err(expected) => r matches Err(error) && error@ == expected,
    }
}

impl KeyStore {
    /// Build the store from an initial load. This is the boot path and stays
    /// fail-closed: a load error is an error, never a fallback.
    pub fn load(outcome: Result<AuthSnapshot, Error>, identities: SourceIdentities) -> (r: Result<
        KeyStore,
        Error,
    >)
        ensures
            match outcome {
                Ok(snapshot) => r matches Ok(store) && store@ == (StoreView {
                    snapshot: snapshot@,
                    identities,
                    revalidate: false,
                    loads: 1,
                }),
                Err(expected) => r matches Err(error) && error@ == expected@,
            },
    {
        match outcome {
            Ok(snapshot) => Ok(
                KeyStore { snapshot: Arc::new(snapshot), identities, revalidate: false, loads: 1 },
            ),
            Err(error) => Err(error),
        }
    }

    /// The live snapshot.
    pub fn snapshot(&self) -> (r: Arc<AuthSnapshot>)
        ensures
            r@ == self@.snapshot,
    {
        self.snapshot.clone()
    }

    /// Administrator keys in the live snapshot.
    pub fn admin_count(&self) -> (r: usize)
        ensures
            r == self@.snapshot.admin_count,
    {
        self.snapshot.admin_count()
    }

    /// Force the next refresh to re-read and re-validate both key sources even
    /// when their identities look unchanged.
    pub fn invalidate(&mut self)
        ensures
            final(self)@ == old(self)@.invalidated(),
    {
        self.revalidate = true;
    }

    /// Whether a refresh that observes these identities must re-read.
    pub fn refresh_due(&self, observed: SourceIdentities) -> (r: bool)
        ensures
            r == self@.due(observed),
    {
        self.revalidate || self.identities != observed
    }

    /// Take over the outcome of a re-read.
    pub fn adopt(
        &mut self,
        observed: SourceIdentities,
        outcome: Result<AuthSnapshot, Error>,
    ) -> (r: Result<RefreshOutcome, Error>)
        ensures
            final(self)@ == old(self)@.reread(observed, outcome_view(outcome)),
            reported(outcome_view(outcome), r),
    {
        self.revalidate = false;
        self.identities = observed;
        self.loads = if self.loads == u64::MAX {
            0
        } else {
            self.loads + 1
        };
        match outcome {
            Ok(snapshot) => {
                self.snapshot = Arc::new(snapshot);
                Ok(RefreshOutcome::Reloaded)
            },
            Err(error) => Err(error),
        }
    }

    /// Compare the observed identities and, when either changed or the store
    /// was invalidated, run `load` once and take over its outcome. `load` is
    /// not called otherwise.
    pub fn refresh_if_changed<F: FnOnce() -> Result<AuthSnapshot, Error>>(
        &mut self,
        observed: SourceIdentities,
        load: F,
    ) -> (r: Result<RefreshOutcome, Error>)
        requires
            old(self)@.due(observed) ==> load.requires(()),
        ensures
            !old(self)@.due(observed) ==> r == Ok::<RefreshOutcome, Error>(
                RefreshOutcome::Unchanged,
            ) && final(self)@ == old(self)@,
            old(self)@.due(observed) ==> exists|outcome: Result<AuthSnapshot, Error>|
                load.ensures((), outcome) && final(self)@ == old(self)@.reread(
                    observed,
                    #[trigger] outcome_view(outcome),
                ) && reported(outcome_view(outcome), r),
    {
        if !self.refresh_due(observed) {
            return Ok(RefreshOutcome::Unchanged);
        }
        let outcome = load();
        let ghost taken = outcome;
        let r = self.adopt(observed, outcome);
        assert(load.ensures((), taken) && outcome_view(taken) == outcome_view(taken));
        r
    }

    /// Refresh, and return the live snapshot together with how the refresh
    /// went: a rejected refresh answers from the previous snapshot.
    pub fn snapshot_for_auth<F: FnOnce() -> Result<AuthSnapshot, Error>>(
        &mut self,
        observed: SourceIdentities,
        load: F,
    ) -> (r: (Arc<AuthSnapshot>, Result<RefreshOutcome, Error>))
        requires
            old(self)@.due(observed) ==> load.requires(()),
        ensures
            r.0@ == final(self)@.snapshot,
            !old(self)@.due(observed) ==> r.1 == Ok::<RefreshOutcome, Error>(
                RefreshOutcome::Unchanged,
            ) && final(self)@ == old(self)@,
            old(self)@.due(observed) ==> exists|outcome: Result<AuthSnapshot, Error>|
                load.ensures((), outcome) && final(self)@ == old(self)@.reread(
                    observed,
                    #[trigger] outcome_view(outcome),
                ) && reported(outcome_view(outcome), r.1),
    {
        let outcome = self.refresh_if_changed(observed, load);
        (self.snapshot(), outcome)
    }

    /// Validation attempts so far, the initial load included.
    pub fn load_count(&self) -> (r: u64)
        ensures
            r == self@.loads,
    {
        self.loads
    }
}

/// A rejected re-read keeps serving the previous snapshot.
pub proof fn a_failed_refresh_keeps_the_snapshot(
    store: StoreView,
    observed: SourceIdentities,
    error: ErrorView,
)
    ensures
        store.reread(observed, Err(error)).snapshot == store.snapshot,
{
}

/// After a re-read, accepted or rejected, the same on-disk state is not read
/// again: a stable bad file is parsed once.
pub proof fn a_stable_state_is_read_once(
    store: StoreView,
    observed: SourceIdentities,
    outcome: Result<SnapshotView, ErrorView>,
)
    ensures
        !store.reread(observed, outcome).due(observed),
{
}

/// Any change of either identity makes the next refresh re-read.
pub proof fn a_changed_state_is_read_again(
    store: StoreView,
    first: SourceIdentities,
    outcome: Result<SnapshotView, ErrorView>,
    second: SourceIdentities,
)
    requires
        first != second,
    ensures
        store.reread(first, outcome).due(second),
{
}

/// Invalidating forces exactly one re-read: the next refresh is due whatever
/// it observes, and the one after it is not.
pub proof fn invalidating_forces_one_reread(
    store: StoreView,
    observed: SourceIdentities,
    outcome: Result<SnapshotView, ErrorView>,
)
    ensures
        store.invalidated().due(observed),
        !store.invalidated().reread(observed, outcome).due(observed),
        store.invalidated().snapshot == store.snapshot,
{
}

/// A reread happens exactly when it was forced or a source changed, counts as a
/// load, remembers what was observed, and takes the snapshot over if there is a
/// new one.
pub proof fn rereads_follow_changes(
    store: StoreView,
    observed: SourceIdentities,
    outcome: Result<SnapshotView, ErrorView>,
)
    ensures
        store.due(observed) <==> store.revalidate || store.identities.host != observed.host
            || store.identities.allowed != observed.allowed,
        store.reread(observed, outcome).identities == observed,
        !store.reread(observed, outcome).revalidate,
        outcome matches Ok(snapshot) ==> store.reread(observed, outcome).snapshot == snapshot,
        store.loads < u64::MAX ==> store.reread(observed, outcome).loads == store.loads + 1,
        store.invalidated().identities == store.identities,
        store.invalidated().loads == store.loads,
{
}

/// A store starts with the snapshot it was loaded from, as of what was observed,
/// and is not due until something changes.
pub proof fn stores_start_up_to_date(
    outcome: Result<AuthSnapshot, Error>,
    identities: SourceIdentities,
    r: Result<KeyStore, Error>,
    observed: SourceIdentities,
)
    requires
        call_ensures(KeyStore::load, (outcome, identities), r),
    ensures
        r is Ok <==> outcome is Ok,
        r matches Ok(store) ==> {
            &&& store@.snapshot == outcome->Ok_0@
            &&& store@.due(observed) <==> observed != identities
            &&& store@.loads == 1
        },
{
}

/// Adopting a reread replaces the snapshot exactly when it succeeded, and says
/// so.
pub proof fn adopted_rereads_are_reported(
    store: &mut KeyStore,
    observed: SourceIdentities,
    outcome: Result<AuthSnapshot, Error>,
    r: Result<RefreshOutcome, Error>,
)
    requires
        call_ensures(KeyStore::adopt, (store, observed, outcome), r),
    ensures
        r is Ok <==> outcome is Ok,
        outcome matches Ok(snapshot) ==> final(store)@.snapshot == snapshot@ && r == Ok::<
            RefreshOutcome,
            Error,
        >(RefreshOutcome::Reloaded),
        outcome is Err ==> final(store)@.snapshot == old(store)@.snapshot,
        !final(store)@.due(observed),
{
}

} // verus!
