//! The validated authentication snapshot: accepted keys and their roles.

use crate::auth::fingerprint::KeyFingerprint;
use crate::auth::source::{
    self, has_fingerprint, parse_key_source, AuthorizedKey, Error, ErrorView, PublicKey,
};
use vstd::prelude::*;

verus! {

/// Role granted to a key at authentication time.
#[derive(Debug, Clone, Copy, PartialEq, Eq, Structural)]
pub enum Role {
    Normal,
    Admin,
}

/// The authenticated identity of an SSH connection, fixed for its lifetime.
#[derive(Debug)]
pub struct Principal {
    pub fingerprint: KeyFingerprint,
    pub role: Role,
}

/// Accepted Ed25519 keys and their roles. Administrator keys come first.
#[derive(Debug)]
pub struct AuthSnapshot {
    keys: Vec<AuthorizedKey>,
    admin_count: usize,
}

/// The contents of an [`AuthSnapshot`].
pub struct SnapshotView {
    /// Accepted fingerprints in insertion order.
    pub keys: Seq<Seq<char>>,
    /// How many of them, from the front, are administrators.
    pub admin_count: nat,
}

impl View for AuthSnapshot {
    type V = SnapshotView;

    closed spec fn view(&self) -> SnapshotView {
        SnapshotView { keys: source::fingerprints(self.keys@), admin_count: self.admin_count as nat }
    }
}

impl SnapshotView {
    /// Keys are distinct, and the administrators are among them.
    pub open spec fn well_formed(self) -> bool {
        self.keys.no_duplicates() && self.admin_count <= self.keys.len()
    }

    /// The role of a fingerprint, if it is accepted.
    pub open spec fn role_of(self, fingerprint: Seq<char>) -> Option<Role> {
        if self.keys.take(self.admin_count as int).contains(fingerprint) {
            Some(Role::Admin)
        } else if self.keys.contains(fingerprint) {
            Some(Role::Normal)
        } else {
            None
        }
    }
}

/// `keys` followed by those of `more` that are not yet among them.
pub open spec fn joined(keys: Seq<Seq<char>>, more: Seq<Seq<char>>) -> Seq<Seq<char>>
    decreases more.len(),
{
    if more.len() == 0 {
        keys
    } else {
        let before = joined(keys, more.drop_last());
        if before.contains(more.last()) {
            before
        } else {
            before.push(more.last())
        }
    }
}

/// The snapshot of a host source and an allowed source.
pub open spec fn merged(host: Seq<Seq<char>>, allowed: Seq<Seq<char>>) -> SnapshotView {
    let admins = joined(seq![], host);
    SnapshotView { keys: joined(admins, allowed), admin_count: admins.len() }
}

/// The fingerprints of one source: none when it is absent.
pub open spec fn loaded(path: Seq<char>, read: Result<Option<Vec<u8>>, Error>) -> Result<
    Seq<Seq<char>>,
    ErrorView,
> {
    match read {
        Err(error) => Err(error@),
        Ok(None) => Ok(seq![]),
        Ok(Some(bytes)) => match source::source_outcome(bytes@, true) {
            Ok(keys) => Ok(keys),
            Err(reason) => Err(ErrorView::Invalid { path, reason }),
        },
    }
}

/// The snapshot of both sources, or the first error: the host source before
/// the allowed source, and an empty union last.
pub open spec fn load_outcome(
    host_path: Seq<char>,
    host: Result<Option<Vec<u8>>, Error>,
    allowed_path: Seq<char>,
    allowed: Result<Option<Vec<u8>>, Error>,
) -> Result<SnapshotView, ErrorView> {
    match loaded(host_path, host) {
        Err(error) => Err(error),
        Ok(host_keys) => match loaded(allowed_path, allowed) {
            Err(error) => Err(error),
            Ok(allowed_keys) => {
                let snapshot = merged(host_keys, allowed_keys);
                if snapshot.keys.len() == 0 {
                    Err(ErrorView::EmptyAuthSnapshot { host_path, allowed_path })
                } else {
                    Ok(snapshot)
                }
            },
        },
    }
}

proof fn lemma_joined(keys: Seq<Seq<char>>, more: Seq<Seq<char>>)
    ensures
        keys.is_prefix_of(joined(keys, more)),
        keys.no_duplicates() ==> joined(keys, more).no_duplicates(),
        forall|f: Seq<char>|
            joined(keys, more).contains(f) <==> keys.contains(f) || more.contains(f),
    decreases more.len(),
{
    if more.len() > 0 {
        lemma_joined(keys, more.drop_last());
        let before = joined(keys, more.drop_last());
        let result = joined(keys, more);
        assert(more =~= more.drop_last().push(more.last()));
        assert forall|f: Seq<char>| result.contains(f) <==> keys.contains(f) || more.contains(f) by {
            if more.contains(f) {
                let i = choose|i: int| 0 <= i < more.len() && more[i] == f;
                if i < more.len() - 1 {
                    assert(more.drop_last()[i] == f);
                    assert(more.drop_last().contains(f));
                    assert(before.contains(f));
                }
                if !before.contains(more.last()) {
                    assert(result.last() == more.last());
                    if before.contains(f) {
                        let k = choose|k: int| 0 <= k < before.len() && before[k] == f;
                        assert(result[k] == f);
                    }
                }
            }
            if keys.contains(f) && !before.contains(more.last()) {
                let k = choose|k: int| 0 <= k < before.len() && before[k] == f;
                assert(result[k] == f);
            }
            if result.contains(f) && !before.contains(f) {
                assert(f == more.last());
                assert(more[more.len() - 1] == f);
            }
            if before.contains(f) && more.drop_last().contains(f) {
                let i = choose|i: int| 0 <= i < more.drop_last().len() && more.drop_last()[i] == f;
                assert(more[i] == f);
            }
        }
        assert(keys =~= result.take(keys.len() as int));
    } else {
        assert(keys =~= joined(keys, more).take(keys.len() as int));
    }
}

/// A merged snapshot is well formed.
pub proof fn merged_is_well_formed(host: Seq<Seq<char>>, allowed: Seq<Seq<char>>)
    ensures
        merged(host, allowed).well_formed(),
{
    lemma_joined(seq![], host);
    lemma_joined(joined(seq![], host), allowed);
}

/// A key in the host source is an administrator, also where the allowed source
/// lists it too.
pub proof fn host_keys_are_administrators(
    host: Seq<Seq<char>>,
    allowed: Seq<Seq<char>>,
    fingerprint: Seq<char>,
)
    requires
        host.contains(fingerprint),
    ensures
        merged(host, allowed).role_of(fingerprint) == Some(Role::Admin),
{
    lemma_joined(seq![], host);
    let admins = joined(seq![], host);
    lemma_joined(admins, allowed);
    let keys = joined(admins, allowed);
    assert(admins.contains(fingerprint));
    assert(keys.take(admins.len() as int) =~= admins);
}

/// A key that only the allowed source lists is a normal key.
pub proof fn allowed_only_keys_are_normal(
    host: Seq<Seq<char>>,
    allowed: Seq<Seq<char>>,
    fingerprint: Seq<char>,
)
    requires
        allowed.contains(fingerprint),
        !host.contains(fingerprint),
    ensures
        merged(host, allowed).role_of(fingerprint) == Some(Role::Normal),
{
    lemma_joined(seq![], host);
    let admins = joined(seq![], host);
    lemma_joined(admins, allowed);
    let keys = joined(admins, allowed);
    assert(keys.take(admins.len() as int) =~= admins);
    assert(!Seq::<Seq<char>>::empty().contains(fingerprint));
    assert(!admins.contains(fingerprint));
    assert(keys.contains(fingerprint));
}

/// A key that neither source lists is not accepted.
pub proof fn unlisted_keys_are_refused(
    host: Seq<Seq<char>>,
    allowed: Seq<Seq<char>>,
    fingerprint: Seq<char>,
)
    requires
        !host.contains(fingerprint),
        !allowed.contains(fingerprint),
    ensures
        merged(host, allowed).role_of(fingerprint) is None,
{
    lemma_joined(seq![], host);
    let admins = joined(seq![], host);
    lemma_joined(admins, allowed);
    let keys = joined(admins, allowed);
    assert(keys.take(admins.len() as int) =~= admins);
    assert(!Seq::<Seq<char>>::empty().contains(fingerprint));
    assert(!keys.contains(fingerprint));
}

fn join_keys(keys: &mut Vec<AuthorizedKey>, more: &Vec<AuthorizedKey>)
    ensures
        source::fingerprints(final(keys)@) == joined(source::fingerprints(old(keys)@), source::fingerprints(more@)),
{
    let ghost start = source::fingerprints(keys@);
    let ghost list = source::fingerprints(more@);
    let mut i: usize = 0;
    assert(list.take(0) =~= Seq::<Seq<char>>::empty());
    while i < more.len()
        invariant
            i <= more@.len(),
            list == source::fingerprints(more@),
            source::fingerprints(keys@) == joined(start, list.take(i as int)),
        decreases more@.len() - i,
    {
        proof {
            assert(list.take(i + 1).drop_last() =~= list.take(i as int));
            assert(list.take(i + 1).last() == more@[i as int].fingerprint@);
        }
        if !has_fingerprint(keys, &more[i].fingerprint) {
            let fingerprint = more[i].fingerprint.clone();
            proof {
                let entry = AuthorizedKey { fingerprint };
                assert(source::fingerprints(keys@.push(entry)) =~= source::fingerprints(keys@).push(fingerprint@));
            }
            keys.push(AuthorizedKey { fingerprint });
        }
        i = i + 1;
    }
    assert(list.take(list.len() as int) =~= list);
}

/// Parse one source that was read.
fn load_source(path: &str, read: Result<Option<Vec<u8>>, Error>) -> (r: Result<
    Vec<AuthorizedKey>,
    Error,
>)
    ensures
        match loaded(path@, read) {
            Ok(expected) => r matches Ok(keys) && source::fingerprints(keys@) == expected,
            Err(expected) => r matches Err(error) && error@ == expected,
        },
{
    match read {
        Err(error) => Err(error),
        Ok(None) => {
            let keys: Vec<AuthorizedKey> = Vec::new();
            assert(source::fingerprints(keys@) =~= Seq::<Seq<char>>::empty());
            Ok(keys)
        },
        Ok(Some(bytes)) => parse_key_source(bytes.as_slice(), path, true),
    }
}

impl Default for AuthSnapshot {
    /// The snapshot that accepts nobody.
    fn default() -> (r: AuthSnapshot)
        ensures
            r@ == (SnapshotView { keys: seq![], admin_count: 0 }),
    {
        let keys: Vec<AuthorizedKey> = Vec::new();
        assert(source::fingerprints(keys@) =~= Seq::<Seq<char>>::empty());
        AuthSnapshot { keys, admin_count: 0 }
    }
}

impl AuthSnapshot {
    /// Keys are distinct, and the administrators are among them.
    #[verifier::type_invariant]
    pub closed spec fn valid(&self) -> bool {
        source::fingerprints(self.keys@).no_duplicates() && self.admin_count <= self.keys@.len()
    }

    /// Parse an authorized-keys file with the strict bare subset:
    /// `ssh-ed25519 <base64> [comment]`. Options, certificates, non-Ed25519
    /// keys, malformed lines, and duplicate keys invalidate the whole file.
    pub fn parse_authorized_keys(bytes: &[u8]) -> (r: Result<Vec<AuthorizedKey>, Error>)
        ensures
            match source::source_outcome(bytes@, false) {
                Ok(expected) => r matches Ok(keys) && source::fingerprints(keys@) == expected,
                Err(reason) => r matches Err(error) && error@ == (ErrorView::Invalid {
                    path: "<authorized_keys>"@,
                    reason,
                }),
            },
    {
        parse_key_source(bytes, "<authorized_keys>", false)
    }

    /// Build the full authentication snapshot from the bytes of the host
    /// `authorized_keys` and the sandbox `allowed_keys`.
    pub fn load(
        host_path: &str,
        host: Result<Option<Vec<u8>>, Error>,
        allowed_path: &str,
        allowed: Result<Option<Vec<u8>>, Error>,
    ) -> (r: Result<AuthSnapshot, Error>)
        ensures
            match load_outcome(host_path@, host, allowed_path@, allowed) {
                Ok(expected) => r matches Ok(snapshot) && snapshot@ == expected,
                Err(expected) => r matches Err(error) && error@ == expected,
            },
    {
        let host_keys = match load_source(host_path, host) {
            Ok(keys) => keys,
            Err(error) => {
                return Err(error);
            },
        };
        let allowed_keys = match load_source(allowed_path, allowed) {
            Ok(keys) => keys,
            Err(error) => {
                return Err(error);
            },
        };
        let mut keys: Vec<AuthorizedKey> = Vec::new();
        assert(source::fingerprints(keys@) =~= Seq::<Seq<char>>::empty());
        join_keys(&mut keys, &host_keys);
        let admin_count = keys.len();
        assert(source::fingerprints(keys@).len() == keys@.len());
        join_keys(&mut keys, &allowed_keys);
        assert(source::fingerprints(keys@).len() == keys@.len());
        if keys.len() == 0 {
            return Err(
                Error::EmptyAuthSnapshot {
                    host_path: host_path.to_owned(),
                    allowed_path: allowed_path.to_owned(),
                },
            );
        }
        proof {
            merged_is_well_formed(source::fingerprints(host_keys@), source::fingerprints(allowed_keys@));
        }
        Ok(AuthSnapshot { keys, admin_count })
    }

    /// Look up an authenticated key and derive its role.
    pub fn authenticate(&self, key: &PublicKey) -> (r: Option<Principal>)
        ensures
            match r {
                Some(principal) => key@.ed25519 && principal.fingerprint@ == key@.fingerprint
                    && self@.role_of(key@.fingerprint) == Some(principal.role),
                None => !key@.ed25519 || self@.role_of(key@.fingerprint) is None,
            },
    {
        proof {
            use_type_invariant(self);
        }
        if !key.is_ed25519() {
            return None;
        }
        let fingerprint = KeyFingerprint::from_ssh_key(key);
        let ghost all = source::fingerprints(self.keys@);
        let mut i: usize = 0;
        while i < self.keys.len()
            invariant
                i <= self.keys@.len(),
                all == source::fingerprints(self.keys@),
                all.no_duplicates(),
                self.admin_count <= self.keys@.len(),
                key@.ed25519,
                fingerprint@ == key@.fingerprint,
                forall|k: int| 0 <= k < i ==> all[k] != fingerprint@,
            decreases self.keys@.len() - i,
        {
            assert(all[i as int] == self.keys@[i as int].fingerprint@);
            if self.keys[i].fingerprint.same(&fingerprint) {
                let role = if i < self.admin_count {
                    Role::Admin
                } else {
                    Role::Normal
                };
                proof {
                    let admins = all.take(self.admin_count as int);
                    assert(all.contains(fingerprint@));
                    if i < self.admin_count {
                        assert(admins[i as int] == fingerprint@);
                    } else if admins.contains(fingerprint@) {
                        let k = choose|k: int| 0 <= k < admins.len() && admins[k] == fingerprint@;
                        assert(all[k] == all[i as int]);
                    }
                }
                return Some(Principal { fingerprint, role });
            }
            i = i + 1;
        }
        proof {
            let admins = all.take(self.admin_count as int);
            if admins.contains(fingerprint@) {
                let k = choose|k: int| 0 <= k < admins.len() && admins[k] == fingerprint@;
                assert(all[k] == fingerprint@);
            }
        }
        None
    }

    /// Accepted keys in insertion order.
    pub fn keys(&self) -> (r: &[AuthorizedKey])
        ensures
            source::fingerprints(r@) == self@.keys,
    {
        self.keys.as_slice()
    }

    /// How many accepted keys are administrators.
    pub fn admin_count(&self) -> (r: usize)
        ensures
            r == self@.admin_count,
            self@.well_formed(),
    {
        proof {
            use_type_invariant(self);
            assert(source::fingerprints(self.keys@).len() == self.keys@.len());
        }
        self.admin_count
    }
}

/// A snapshot is loaded exactly when both sources are and name a key between
/// them; an absent source names none.
pub proof fn snapshots_need_a_key(
    host_path: Seq<char>,
    host: Result<Option<Vec<u8>>, Error>,
    allowed_path: Seq<char>,
    allowed: Result<Option<Vec<u8>>, Error>,
)
    ensures
        ({
            let outcome = load_outcome(host_path, host, allowed_path, allowed);
            let admins = loaded(host_path, host);
            let others = loaded(allowed_path, allowed);
            &&& outcome is Ok <==> admins is Ok && others is Ok && (admins->Ok_0.len() > 0
                || others->Ok_0.len() > 0)
            &&& outcome matches Ok(snapshot) ==> snapshot == merged(admins->Ok_0, others->Ok_0)
            &&& admins matches Err(error) ==> outcome == Err::<SnapshotView, ErrorView>(error)
        }),
        loaded(host_path, Ok(None)) == Ok::<Seq<Seq<char>>, ErrorView>(seq![]),
        host is Err ==> loaded(host_path, host) is Err,
        host matches Ok(Some(bytes)) ==> (loaded(host_path, host) is Ok <==> source::source_outcome(
            bytes@,
            true,
        ) is Ok),
{
    if loaded(host_path, host) is Ok && loaded(allowed_path, allowed) is Ok {
        let a = loaded(host_path, host)->Ok_0;
        let b = loaded(allowed_path, allowed)->Ok_0;
        let admins = joined(seq![], a);
        let keys = joined(admins, b);
        lemma_joined(seq![], a);
        lemma_joined(admins, b);
        if a.len() > 0 {
            assert(a.contains(a[0]));
            assert(keys.contains(a[0]));
        }
        if b.len() > 0 {
            assert(b.contains(b[0]));
            assert(keys.contains(b[0]));
        }
        if keys.len() > 0 {
            assert(keys.contains(keys[0]));
            assert(admins.contains(keys[0]) || b.contains(keys[0]));
        }
    }
}

/// The administrators of a snapshot are as many as the host's distinct keys, and
/// come first.
pub proof fn administrators_come_first(host: Seq<Seq<char>>, allowed: Seq<Seq<char>>)
    ensures
        forall|fingerprint: Seq<char>| #[trigger]
            merged(host, allowed).keys.take(merged(host, allowed).admin_count as int).contains(
                fingerprint,
            ) <==> host.contains(fingerprint),
        host.no_duplicates() ==> merged(host, allowed).admin_count == host.len(),
{
    let admins = joined(seq![], host);
    lemma_joined(seq![], host);
    lemma_joined(admins, allowed);
    let keys = merged(host, allowed).keys;
    assert(keys.take(admins.len() as int) =~= admins) by {
        assert(keys.subrange(0, admins.len() as int) == admins);
    }
    if host.no_duplicates() {
        lemma_distinct_joined(host);
    }
}

proof fn lemma_distinct_joined(host: Seq<Seq<char>>)
    requires
        host.no_duplicates(),
    ensures
        joined(seq![], host) == host,
    decreases host.len(),
{
    if host.len() > 0 {
        let short = host.drop_last();
        assert forall|i: int, j: int| 0 <= i < short.len() && 0 <= j < short.len() && i
            != j implies short[i] != short[j] by {
            assert(host[i] != host[j]);
        }
        lemma_distinct_joined(short);
        if short.contains(host.last()) {
            let k = choose|k: int| 0 <= k < short.len() && short[k] == host.last();
            assert(host[k] == host[host.len() - 1]);
        }
        assert(short.push(host.last()) =~= host);
    } else {
        assert(joined(seq![], host) =~= host);
    }
}

/// A key authenticates exactly when it is Ed25519 and one of the sources that
/// the snapshot was loaded from names it; it is an administrator's exactly when
/// the host's source does.
pub proof fn authentication_follows_the_sources(
    host_path: &str,
    host: Result<Option<Vec<u8>>, Error>,
    allowed_path: &str,
    allowed: Result<Option<Vec<u8>>, Error>,
    snapshot: AuthSnapshot,
    key: PublicKey,
    r: Option<Principal>,
    admins: Seq<Seq<char>>,
    others: Seq<Seq<char>>,
)
    requires
        call_ensures(AuthSnapshot::load, (host_path, host, allowed_path, allowed), Ok(snapshot)),
        call_ensures(AuthSnapshot::authenticate, (&snapshot, &key), r),
        loaded(host_path@, host) == Ok::<Seq<Seq<char>>, ErrorView>(admins),
        loaded(allowed_path@, allowed) == Ok::<Seq<Seq<char>>, ErrorView>(others),
    ensures
        r is Some <==> key@.ed25519 && (admins.contains(key@.fingerprint) || others.contains(
            key@.fingerprint,
        )),
        r matches Some(principal) ==> principal.fingerprint@ == key@.fingerprint && (principal.role
            == Role::Admin <==> admins.contains(key@.fingerprint)),
{
    let f = key@.fingerprint;
    if admins.contains(f) {
        host_keys_are_administrators(admins, others, f);
    } else if others.contains(f) {
        allowed_only_keys_are_normal(admins, others, f);
    } else {
        unlisted_keys_are_refused(admins, others, f);
    }
}

} // verus!
