//! The privileged side of the broker protocol.

use crate::broker::error::BrokerError;
use crate::broker::protocol::{self, BrokerRequest, BrokerResponse};
use crate::paths;
use crate::sandbox::storage;
use crate::text;
use vstd::prelude::*;

verus! {

// ---------------------------------------------------------------------------
// Activation

/// The roots that sources have to lie in.
#[derive(Debug)]
pub struct BrokerRoots {
    pub data: String,
    pub runtime: String,
}

/// What the service manager and the system handed to the broker.
#[derive(Debug)]
pub struct Activation {
    pub listen_fds: String,
    pub listen_pid: String,
    pub pid: u32,
    /// Whether the listening descriptor is open.
    pub listener: Result<(), String>,
    pub euid: u32,
    pub data_root: Option<String>,
    pub runtime_root: Option<String>,
}

/// Why an activation is refused, if it is.
pub open spec fn activation_error(a: Activation) -> Option<BrokerError> {
    if a.listen_fds@ != "1"@ || a.listen_pid@ != text::decimal(a.pid as nat) {
        Some(BrokerError::Activation)
    } else if let Err(source) = a.listener {
        Some(BrokerError::Io(source))
    } else if a.euid != 0 {
        Some(BrokerError::NotRoot)
    } else if a.data_root is None {
        Some(BrokerError::NoDataRoot)
    } else if a.runtime_root is None {
        Some(BrokerError::NoRuntimeRoot)
    } else {
        None
    }
}

/// Accept a socket activation: exactly one listener, meant for this process,
/// handed to the initial root, with both roots configured.
pub fn check_activation(a: Activation) -> (r: Result<BrokerRoots, BrokerError>)
    ensures
        match activation_error(a) {
            Some(expected) => r matches Err(error) && error == expected,
            None => r matches Ok(roots) && Some(roots.data) == a.data_root && Some(roots.runtime)
                == a.runtime_root,
        },
{
    if !text::same_text(a.listen_fds.as_str(), "1") || !text::same_text(
        a.listen_pid.as_str(),
        text::decimal_text(a.pid as u64).as_str(),
    ) {
        return Err(BrokerError::Activation);
    }
    match a.listener {
        Err(source) => {
            return Err(BrokerError::Io(source));
        },
        Ok(_) => {},
    }
    if a.euid != 0 {
        return Err(BrokerError::NotRoot);
    }
    match (a.data_root, a.runtime_root) {
        (None, _) => Err(BrokerError::NoDataRoot),
        (Some(_), None) => Err(BrokerError::NoRuntimeRoot),
        (Some(data), Some(runtime)) => Ok(BrokerRoots { data, runtime }),
    }
}

// ---------------------------------------------------------------------------
// Sources

/// What the system reports about a source descriptor.
#[derive(Debug)]
pub struct SourceFacts {
    /// Mode, owner, and group.
    pub stat: Result<(u32, u32, u32), String>,
    /// Where the descriptor points to.
    pub link: Result<String, String>,
    /// The canonical form of that path.
    pub canonical: Result<String, String>,
}

/// The mark of a deleted directory.
pub open spec fn is_deleted(link: Seq<char>) -> bool {
    " (deleted)"@.is_suffix_of(link)
}

/// Why a source descriptor is refused, if it is.
pub open spec fn source_error(
    facts: SourceFacts,
    uid: u32,
    gid: u32,
    allowed_root: Seq<char>,
) -> Option<BrokerError> {
    match facts.stat {
        Err(source) => Some(BrokerError::Io(source)),
        Ok((mode, owner, group)) => if !storage::directory_mode(mode) || owner != uid || group != gid
            || mode & 0o022 != 0 {
            Some(BrokerError::SourceNotPrivate)
        } else {
            match facts.link {
                Err(source) => Some(BrokerError::Io(source)),
                Ok(link) => if is_deleted(link@) {
                    Some(BrokerError::SourceDeleted)
                } else {
                    match facts.canonical {
                        Err(source) => Some(BrokerError::Io(source)),
                        Ok(canonical) => if !paths::starts_with_of(canonical@, allowed_root) {
                            Some(BrokerError::SourceOutside)
                        } else {
                            None
                        },
                    }
                },
            }
        },
    }
}

/// Validate a source descriptor: a private directory of the daemon, still
/// there, inside its configured root.
pub fn validate_source_fd(facts: SourceFacts, uid: u32, gid: u32, allowed_root: &str) -> (r: Result<
    (),
    BrokerError,
>)
    ensures
        match source_error(facts, uid, gid, allowed_root@) {
            None => r is Ok,
            Some(expected) => r matches Err(error) && error == expected,
        },
{
    match facts.stat {
        Err(source) => {
            return Err(BrokerError::Io(source));
        },
        Ok((mode, owner, group)) => {
            if !storage::is_directory(mode) || owner != uid || group != gid || mode & 0o022 != 0 {
                return Err(BrokerError::SourceNotPrivate);
            }
        },
    }
    let link = match facts.link {
        Err(source) => {
            return Err(BrokerError::Io(source));
        },
        Ok(link) => link,
    };
    let chars = text::chars_of(link.as_str());
    let mark = text::chars_of(" (deleted)");
    if text::has_suffix(chars.as_slice(), mark.as_slice()) {
        return Err(BrokerError::SourceDeleted);
    }
    match facts.canonical {
        Err(source) => Err(BrokerError::Io(source)),
        Ok(canonical) => {
            if !paths::starts_with(canonical.as_str(), allowed_root) {
                Err(BrokerError::SourceOutside)
            } else {
                Ok(())
            }
        },
    }
}

/// The link text of a user namespace descriptor.
pub open spec fn is_user_namespace(link: Seq<char>) -> bool {
    "user:["@.is_prefix_of(link) && "]"@.is_suffix_of(link)
}

/// Whether a descriptor is a user namespace, from where it points to.
pub fn is_user_namespace_fd(link: &Option<String>) -> (r: bool)
    ensures
        r == (text::optional(*link) matches Some(link) && is_user_namespace(link)),
{
    match link {
        None => false,
        Some(link) => {
            let chars = text::chars_of(link.as_str());
            let lead = text::chars_of("user:[");
            let tail = text::chars_of("]");
            text::has_prefix(chars.as_slice(), lead.as_slice()) && text::has_suffix(
                chars.as_slice(),
                tail.as_slice(),
            )
        },
    }
}

// ---------------------------------------------------------------------------
// Mounts

/// A directory to mount.
#[derive(Debug, Clone, Copy, PartialEq, Eq, Structural)]
pub enum MountSource {
    Workspace,
    Runtime,
}

/// A piece of the work on one mount, in order.
#[derive(Debug, Clone, Copy, PartialEq, Eq, Structural)]
pub enum MountWork {
    /// Clone the directory as a detached mount.
    Detach,
    /// Map its ids through the user namespace.
    MapIds,
    /// Check that its root belongs to the leased ids.
    CheckRoot,
}

/// Why a piece of work failed: the system's error number, if it has one.
#[derive(Debug)]
pub struct MountFailure {
    pub errno: Option<u32>,
    pub message: String,
}

/// The work on both mounts, in order.
pub open spec fn mount_plan() -> Seq<(MountSource, MountWork)> {
    seq![
        (MountSource::Workspace, MountWork::Detach),
        (MountSource::Workspace, MountWork::MapIds),
        (MountSource::Workspace, MountWork::CheckRoot),
        (MountSource::Runtime, MountWork::Detach),
        (MountSource::Runtime, MountWork::MapIds),
        (MountSource::Runtime, MountWork::CheckRoot),
    ]
}

/// A piece of the work was performed, with this outcome.
pub open spec fn worked<F: Fn(MountSource, MountWork) -> Result<(), MountFailure>>(
    perform: F,
    item: (MountSource, MountWork),
    outcome: Result<(), MountFailure>,
) -> bool {
    perform.ensures((item.0, item.1), outcome)
}

/// A piece of the work was performed and done.
pub open spec fn work_done<F: Fn(MountSource, MountWork) -> Result<(), MountFailure>>(
    perform: F,
    item: (MountSource, MountWork),
) -> bool {
    exists|outcome: Result<(), MountFailure>|
        outcome is Ok && #[trigger] worked(perform, item, outcome)
}

/// A piece of the work is due: everything before it was done.
pub open spec fn work_due<F: Fn(MountSource, MountWork) -> Result<(), MountFailure>>(
    perform: F,
    i: int,
) -> bool {
    0 <= i < mount_plan().len() && forall|k: int|
        0 <= k < i ==> work_done(perform, #[trigger] mount_plan()[k])
}

/// The outcome of the whole work: everything was done in order, or the first
/// failure decides.
pub open spec fn mounted<F: Fn(MountSource, MountWork) -> Result<(), MountFailure>>(
    r: Result<(), MountFailure>,
    perform: F,
) -> bool {
    match r {
        Ok(_) => forall|i: int|
            0 <= i < mount_plan().len() ==> work_done(perform, #[trigger] mount_plan()[i]),
        Err(_) => exists|i: int|
            0 <= i < mount_plan().len() && worked(perform, #[trigger] mount_plan()[i], r)
                && forall|k: int|
                0 <= k < i ==> work_done(perform, #[trigger] mount_plan()[k]),
    }
}

/// Create both detached mounts: the first failure stops the work, and nothing
/// is asked for before what comes ahead of it was done.
pub fn create_mounts<F: Fn(MountSource, MountWork) -> Result<(), MountFailure>>(perform: &F) -> (r:
    Result<(), MountFailure>)
    requires
        forall|i: int| #[trigger]
            work_due(*perform, i) ==> perform.requires((mount_plan()[i].0, mount_plan()[i].1)),
    ensures
        mounted(r, *perform),
{
    let plan: Vec<(MountSource, MountWork)> = vec![
        (MountSource::Workspace, MountWork::Detach),
        (MountSource::Workspace, MountWork::MapIds),
        (MountSource::Workspace, MountWork::CheckRoot),
        (MountSource::Runtime, MountWork::Detach),
        (MountSource::Runtime, MountWork::MapIds),
        (MountSource::Runtime, MountWork::CheckRoot),
    ];
    assert(plan@ =~= mount_plan());
    let mut i: usize = 0;
    while i < plan.len()
        invariant
            i <= plan@.len(),
            plan@ == mount_plan(),
            forall|i: int| #[trigger]
                work_due(*perform, i) ==> perform.requires((mount_plan()[i].0, mount_plan()[i].1)),
            forall|k: int| 0 <= k < i ==> work_done(*perform, #[trigger] mount_plan()[k]),
        decreases plan@.len() - i,
    {
        let (source, work) = plan[i];
        assert(work_due(*perform, i as int));
        let outcome = perform(source, work);
        assert(worked(*perform, mount_plan()[i as int], outcome));
        if outcome.is_err() {
            return outcome;
        }
        assert(work_done(*perform, mount_plan()[i as int]));
        i = i + 1;
    }
    Ok(())
}

/// Check that a mapped mount's root belongs to the leased ids.
pub fn validate_mapped_root(
    root: Result<(u32, u32), String>,
    expected_uid: u32,
    expected_gid: u32,
) -> (r: Result<(), BrokerError>)
    ensures
        match root {
            Err(source) => r == Err::<(), BrokerError>(BrokerError::Io(source)),
            Ok((uid, gid)) => if uid != expected_uid || gid != expected_gid {
                r == Err::<(), BrokerError>(BrokerError::RootNotMapped)
            } else {
                r is Ok
            },
        },
{
    match root {
        Err(source) => Err(BrokerError::Io(source)),
        Ok((uid, gid)) => {
            if uid != expected_uid || gid != expected_gid {
                Err(BrokerError::RootNotMapped)
            } else {
                Ok(())
            }
        },
    }
}

// ---------------------------------------------------------------------------
// Requests

/// The error number of an unspecific failure.
pub const EIO: u32 = 5;

/// Why a request is refused before its sources are looked at, if it is: the
/// status and the code.
pub open spec fn refusal(peer_uid: u32, peer_gid: u32, request: BrokerRequest, fd_count: nat) -> Option<
    (u32, u32),
> {
    if peer_uid == 0 || request.daemon_uid != peer_uid || request.daemon_gid != peer_gid
        || request.source_count != 2 || fd_count != protocol::SOURCE_FD_COUNT {
        Some((protocol::STATUS_UNAUTHORIZED, 2u32))
    } else if request.leased_uid == 0 || request.leased_gid == 0 || request.leased_uid
        == request.daemon_uid || request.leased_gid == request.daemon_gid {
        Some((protocol::STATUS_INVALID_REQUEST, 3u32))
    } else {
        None
    }
}

/// A response that carries no mounts.
pub open spec fn refused(status: u32, request_id: u64, code: u32) -> BrokerResponse {
    BrokerResponse { status, request_id, mount_count: 0, error_code: code }
}

/// The response that carries both mounts.
pub open spec fn granted(request_id: u64) -> BrokerResponse {
    BrokerResponse {
        status: protocol::STATUS_OK,
        request_id,
        mount_count: 2,
        error_code: 0,
    }
}

/// The code of a failed mount.
pub open spec fn failure_code(failure: MountFailure) -> u32 {
    match failure.errno {
        Some(errno) => errno,
        None => EIO,
    }
}

/// What a client is answered, and what the broker itself reports.
#[derive(Debug)]
pub struct Reply {
    pub response: BrokerResponse,
    /// Whether both mounts go with the response.
    pub with_mounts: bool,
    /// What goes wrong on the broker's side.
    pub failure: Option<BrokerError>,
}

/// The reply to a request, given what the sources and the mounts turned out to
/// be.
pub open spec fn reply_of(
    peer_uid: u32,
    peer_gid: u32,
    bytes: Seq<u8>,
    fd_count: nat,
    sources_accepted: bool,
    mounts: Result<(), MountFailure>,
) -> Reply {
    match protocol::request_outcome(bytes) {
        Err(error) => Reply {
            response: refused(protocol::STATUS_INVALID_REQUEST, 0, 1),
            with_mounts: false,
            failure: Some(error),
        },
        Ok(request) => match refusal(peer_uid, peer_gid, request, fd_count) {
            Some((status, code)) => Reply {
                response: refused(status, request.request_id, code),
                with_mounts: false,
                failure: None,
            },
            None => if !sources_accepted {
                Reply {
                    response: refused(protocol::STATUS_SOURCE_REJECTED, request.request_id, 4),
                    with_mounts: false,
                    failure: None,
                }
            } else {
                match mounts {
                    Err(failure) => Reply {
                        response: refused(
                            protocol::STATUS_MOUNT_UNSUPPORTED,
                            request.request_id,
                            failure_code(failure),
                        ),
                        with_mounts: false,
                        failure: None,
                    },
                    Ok(_) => Reply {
                        response: granted(request.request_id),
                        with_mounts: true,
                        failure: None,
                    },
                }
            },
        },
    }
}

/// Whether the sources of a request are looked at.
pub open spec fn inspects(peer_uid: u32, peer_gid: u32, bytes: Seq<u8>, fd_count: nat) -> bool {
    protocol::request_outcome(bytes) matches Ok(request) && refusal(
        peer_uid,
        peer_gid,
        request,
        fd_count,
    ) is None
}

/// Whether this is the request of a client whose sources are looked at.
pub open spec fn asked_for(
    peer_uid: u32,
    peer_gid: u32,
    bytes: Seq<u8>,
    fd_count: nat,
    request: BrokerRequest,
) -> bool {
    inspects(peer_uid, peer_gid, bytes, fd_count) && request == protocol::request_outcome(
        bytes,
    )->Ok_0
}

fn refuse(status: u32, request_id: u64, code: u32) -> (r: Reply)
    ensures
        r == (Reply {
            response: refused(status, request_id, code),
            with_mounts: false,
            failure: None,
        }),
{
    Reply {
        response: BrokerResponse { status, request_id, mount_count: 0, error_code: code },
        with_mounts: false,
        failure: None,
    }
}

/// Handle one client. The sources are looked at only for a request whose peer
/// and identities are in order, and nothing is mounted before the sources are
/// accepted.
pub fn handle_client<
    S: FnOnce(BrokerRequest) -> bool,
    M: FnOnce(BrokerRequest) -> Result<(), MountFailure>,
>(
    peer_uid: u32,
    peer_gid: u32,
    bytes: &[u8],
    fd_count: usize,
    accept_sources: S,
    mount: M,
) -> (r: Reply)
    requires
        forall|request: BrokerRequest|
            asked_for(peer_uid, peer_gid, bytes@, fd_count as nat, request)
                ==> #[trigger] accept_sources.requires((request,)),
        forall|request: BrokerRequest|
            asked_for(peer_uid, peer_gid, bytes@, fd_count as nat, request)
                && accept_sources.ensures((request,), true) ==> #[trigger] mount.requires(
                (request,),
            ),
    ensures
        !inspects(peer_uid, peer_gid, bytes@, fd_count as nat) ==> forall|
            accepted: bool,
            mounts: Result<(), MountFailure>,
        |
            r == #[trigger] reply_of(
                peer_uid,
                peer_gid,
                bytes@,
                fd_count as nat,
                accepted,
                mounts,
            ),
        inspects(peer_uid, peer_gid, bytes@, fd_count as nat) ==> exists|
            accepted: bool,
            mounts: Result<(), MountFailure>,
        |
            ({
                let request = protocol::request_outcome(bytes@)->Ok_0;
                &&& accept_sources.ensures((request,), accepted)
                &&& accepted ==> mount.ensures((request,), mounts)
                &&& r == #[trigger] reply_of(
                    peer_uid,
                    peer_gid,
                    bytes@,
                    fd_count as nat,
                    accepted,
                    mounts,
                )
            }),
{
    let request = match protocol::decode_request(bytes) {
        Err(error) => {
            return Reply {
                response: BrokerResponse {
                    status: protocol::STATUS_INVALID_REQUEST,
                    request_id: 0,
                    mount_count: 0,
                    error_code: 1,
                },
                with_mounts: false,
                failure: Some(error),
            };
        },
        Ok(request) => request,
    };
    if peer_uid == 0 || request.daemon_uid != peer_uid || request.daemon_gid != peer_gid
        || request.source_count != 2 || fd_count != protocol::SOURCE_FD_COUNT {
        return refuse(protocol::STATUS_UNAUTHORIZED, request.request_id, 2);
    }
    if request.leased_uid == 0 || request.leased_gid == 0 || request.leased_uid
        == request.daemon_uid || request.leased_gid == request.daemon_gid {
        return refuse(protocol::STATUS_INVALID_REQUEST, request.request_id, 3);
    }
    let accepted = accept_sources(request);
    assert(accept_sources.ensures((request,), accepted));
    if !accepted {
        let reply = refuse(protocol::STATUS_SOURCE_REJECTED, request.request_id, 4);
        assert(reply == reply_of(peer_uid, peer_gid, bytes@, fd_count as nat, accepted, Ok(())));
        return reply;
    }
    let mounts = mount(request);
    assert(mount.ensures((request,), mounts));
    let ghost outcome = mounts;
    let reply = match mounts {
        Err(failure) => {
            let code: u32 = match failure.errno {
                Some(errno) => errno,
                None => EIO,
            };
            refuse(protocol::STATUS_MOUNT_UNSUPPORTED, request.request_id, code)
        },
        Ok(_) => Reply {
            response: BrokerResponse {
                status: protocol::STATUS_OK,
                request_id: request.request_id,
                mount_count: 2,
                error_code: 0,
            },
            with_mounts: true,
            failure: None,
        },
    };
    assert(reply == reply_of(peer_uid, peer_gid, bytes@, fd_count as nat, accepted, outcome));
    reply
}

/// Both sources and the namespace have to be in order.
pub fn accept_sources(
    request: BrokerRequest,
    namespace: &Option<String>,
    workspace: SourceFacts,
    runtime: SourceFacts,
    roots: &BrokerRoots,
) -> (r: bool)
    ensures
        r == ((text::optional(*namespace) matches Some(link) && is_user_namespace(link))
            && source_error(workspace, request.daemon_uid, request.daemon_gid, roots.data@) is None
            && source_error(
            runtime,
            request.daemon_uid,
            request.daemon_gid,
            roots.runtime@,
        ) is None),
{
    is_user_namespace_fd(namespace) && validate_source_fd(
        workspace,
        request.daemon_uid,
        request.daemon_gid,
        roots.data.as_str(),
    ).is_ok() && validate_source_fd(
        runtime,
        request.daemon_uid,
        request.daemon_gid,
        roots.runtime.as_str(),
    ).is_ok()
}

/// Mounts are granted only to a non-root peer that asks in its own name, for
/// leased ids that are neither root's nor its own, with accepted sources.
pub proof fn grants_are_authorized(
    peer_uid: u32,
    peer_gid: u32,
    bytes: Seq<u8>,
    fd_count: nat,
    sources_accepted: bool,
    mounts: Result<(), MountFailure>,
)
    requires
        reply_of(peer_uid, peer_gid, bytes, fd_count, sources_accepted, mounts).with_mounts,
    ensures
        sources_accepted,
        mounts is Ok,
        protocol::request_outcome(bytes) matches Ok(request) && peer_uid != 0 && request.daemon_uid
            == peer_uid && request.daemon_gid == peer_gid && request.leased_uid != 0
            && request.leased_gid != 0 && request.leased_uid != peer_uid && request.leased_gid
            != peer_gid,
{
}

/// Every reply carries mounts exactly when it reports success, and answers to
/// the request's own identifier.
pub proof fn replies_are_consistent(
    peer_uid: u32,
    peer_gid: u32,
    bytes: Seq<u8>,
    fd_count: nat,
    sources_accepted: bool,
    mounts: Result<(), MountFailure>,
)
    ensures
        ({
            let reply = reply_of(peer_uid, peer_gid, bytes, fd_count, sources_accepted, mounts);
            &&& reply.with_mounts <==> reply.response.status == protocol::STATUS_OK
            &&& reply.with_mounts <==> reply.response.mount_count == protocol::MOUNT_FD_COUNT
            &&& !reply.with_mounts ==> reply.response.mount_count == 0
            &&& protocol::request_outcome(bytes) matches Ok(request) ==> reply.response.request_id
                == request.request_id
        }),
{
}

/// The service starts exactly as root, with the one listener that was passed to
/// this process, and with both roots.
pub proof fn the_service_needs_its_activation(a: Activation)
    ensures
        activation_error(a) is None <==> {
            &&& a.listen_fds@ == "1"@
            &&& a.listen_pid@ == text::decimal(a.pid as nat)
            &&& a.listener is Ok
            &&& a.euid == 0
            &&& a.data_root is Some
            &&& a.runtime_root is Some
        },
{
}

/// A source is accepted exactly when it is a directory of the caller that nobody
/// else can write, still exists, and lies below the allowed root.
pub proof fn accepted_sources_are_private_directories(
    facts: SourceFacts,
    uid: u32,
    gid: u32,
    allowed_root: Seq<char>,
)
    ensures
        source_error(facts, uid, gid, allowed_root) is None <==> {
            &&& facts.stat matches Ok((mode, owner, group)) && storage::directory_mode(mode)
                && owner == uid && group == gid && mode & 0o022 == 0
            &&& facts.link matches Ok(link) && !" (deleted)"@.is_suffix_of(link@)
            &&& facts.canonical matches Ok(path) && paths::starts_with_of(path@, allowed_root)
        },
{
}

/// A namespace link is `user:[...]`.
pub proof fn namespaces_are_named_by_their_link(inner: Seq<char>, link: Seq<char>)
    ensures
        is_user_namespace("user:["@ + inner + "]"@),
        is_user_namespace(link) ==> link.len() >= 6 && link.last() == ']',
{
    let whole = "user:["@ + inner + "]"@;
    reveal_strlit("user:[");
    reveal_strlit("]");
    assert(whole.subrange(0, 6) =~= "user:["@);
    assert(whole.subrange(whole.len() - 1, whole.len() as int) =~= "]"@);
    if is_user_namespace(link) {
        assert(link.subrange(link.len() - 1, link.len() as int)[0] == ']');
    }
}

/// A request is served exactly for an unprivileged peer that speaks for itself,
/// with two sources and the namespace, for leased ids that are neither root's
/// nor its own; anything else is refused by what is wrong with it.
pub proof fn requests_are_served_for_their_peer(
    peer_uid: u32,
    peer_gid: u32,
    request: BrokerRequest,
    fd_count: nat,
)
    ensures
        ({
            let authorized = {
                &&& peer_uid != 0
                &&& request.daemon_uid == peer_uid
                &&& request.daemon_gid == peer_gid
                &&& request.source_count == 2
                &&& fd_count == 3
            };
            let leased = {
                &&& request.leased_uid != 0
                &&& request.leased_gid != 0
                &&& request.leased_uid != request.daemon_uid
                &&& request.leased_gid != request.daemon_gid
            };
            let answer = refusal(peer_uid, peer_gid, request, fd_count);
            &&& answer is None <==> authorized && leased
            &&& !authorized ==> answer == Some((2u32, 2u32))
            &&& authorized && !leased ==> answer == Some((1u32, 3u32))
        }),
{
}

/// The answer to a request says what became of it: unreadable, refused, sources
/// rejected, mounts failed with their own error, or granted with both mounts.
pub proof fn replies_say_what_happened(
    peer_uid: u32,
    peer_gid: u32,
    bytes: Seq<u8>,
    fd_count: nat,
    sources_accepted: bool,
    mounts: Result<(), MountFailure>,
)
    ensures
        ({
            let reply = reply_of(peer_uid, peer_gid, bytes, fd_count, sources_accepted, mounts);
            let response = reply.response;
            match protocol::request_outcome(bytes) {
                Err(error) => reply.failure == Some(error) && response.status == 1
                    && response.error_code == 1 && response.request_id == 0 && !reply.with_mounts,
                Ok(request) => {
                    &&& reply.failure is None
                    &&& response.request_id == request.request_id
                    &&& match refusal(peer_uid, peer_gid, request, fd_count) {
                        Some((status, code)) => response.status == status && response.error_code
                            == code && !reply.with_mounts,
                        None => if !sources_accepted {
                            response.status == 3 && response.error_code == 4 && !reply.with_mounts
                        } else {
                            match mounts {
                                Err(failure) => response.status == 4 && !reply.with_mounts && (
                                failure.errno matches Some(errno) ==> response.error_code == errno)
                                    && (failure.errno is None ==> response.error_code == 5),
                                Ok(_) => response.status == 0 && response.error_code == 0
                                    && response.mount_count == 2 && reply.with_mounts,
                            }
                        },
                    }
                },
            }
        }),
{
}

/// The mounts are made one source after the other, each detached before its ids
/// are mapped and checked last.
pub proof fn mounts_are_mapped_and_checked(source: MountSource, i: int)
    requires
        0 <= i < mount_plan().len(),
    ensures
        mount_plan().len() == 6,
        mount_plan()[i].0 == MountSource::Workspace <==> i < 3,
        mount_plan()[i].1 == MountWork::Detach <==> i % 3 == 0,
        mount_plan()[i].1 == MountWork::MapIds <==> i % 3 == 1,
        mount_plan()[i].1 == MountWork::CheckRoot <==> i % 3 == 2,
{
}

/// A mapped root is accepted exactly when it belongs to the leased ids.
pub proof fn mapped_roots_belong_to_the_lease(
    root: Result<(u32, u32), String>,
    uid: u32,
    gid: u32,
    r: Result<(), BrokerError>,
)
    requires
        call_ensures(validate_mapped_root, (root, uid, gid), r),
    ensures
        r is Ok <==> (root matches Ok(owner) && owner.0 == uid && owner.1 == gid),
{
}

/// Sources are accepted exactly when they come with a user namespace, and the
/// workspace lies in the data root and the runtime in the runtime root, both the
/// daemon's own.
pub proof fn sources_lie_in_their_roots(
    request: BrokerRequest,
    namespace: Option<String>,
    workspace: SourceFacts,
    runtime: SourceFacts,
    roots: BrokerRoots,
    r: bool,
)
    requires
        call_ensures(accept_sources, (request, &namespace, workspace, runtime, &roots), r),
    ensures
        r <==> {
            &&& namespace matches Some(link) && is_user_namespace(link@)
            &&& source_error(workspace, request.daemon_uid, request.daemon_gid, roots.data@) is None
            &&& source_error(
                runtime,
                request.daemon_uid,
                request.daemon_gid,
                roots.runtime@,
            ) is None
        },
{
}

/// The service takes its roots from its activation.
pub proof fn roots_come_from_the_activation(a: Activation, r: Result<BrokerRoots, BrokerError>)
    requires
        call_ensures(check_activation, (a,), r),
    ensures
        r is Ok <==> activation_error(a) is None,
        r matches Ok(roots) ==> a.data_root == Some(roots.data) && a.runtime_root == Some(
            roots.runtime,
        ),
{
}

/// A refused activation names what was wrong with it: the listener, its failure,
/// the user, or the root that is missing.
pub proof fn refusals_name_what_is_missing(a: Activation, r: Result<BrokerRoots, BrokerError>)
    requires
        call_ensures(check_activation, (a,), r),
    ensures
        match r {
            Ok(_) => true,
            Err(BrokerError::Activation) => !(a.listen_fds@ == "1"@ && a.listen_pid@
                == text::decimal(a.pid as nat)),
            Err(BrokerError::Io(source)) => a.listener == Err::<(), String>(source),
            Err(BrokerError::NotRoot) => a.euid != 0,
            Err(BrokerError::NoDataRoot) => a.data_root is None,
            Err(BrokerError::NoRuntimeRoot) => a.data_root is Some && a.runtime_root is None,
            Err(_) => false,
        },
        a.listen_fds@ != "1"@ ==> r == Err::<BrokerRoots, BrokerError>(BrokerError::Activation),
        a.euid != 0 ==> !(r matches Err(BrokerError::NoDataRoot) || r matches Err(
            BrokerError::NoRuntimeRoot,
        )),
{
}

} // verus!
