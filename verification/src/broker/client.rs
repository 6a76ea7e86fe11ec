//! The daemon's side of the broker protocol.

use crate::broker::error::BrokerError;
use crate::broker::protocol;
use crate::platform::engine::IsolatedIdentity;
use crate::platform::error::{self, LaunchError, LaunchErrorView};
use crate::text;
use vstd::prelude::*;

verus! {

/// The bytes of a socket path field.
pub const SOCKET_PATH_LEN: usize = 108;

/// The path field of a socket address: the path, and zero bytes to the end.
pub open spec fn path_field(path: Seq<u8>) -> Seq<u8> {
    Seq::new(SOCKET_PATH_LEN as nat, |i: int| if i < path.len() { path[i] } else { 0u8 })
}

/// The address of a socket path: its path field, and the length of the address
/// with the family and one closing zero byte.
pub fn unix_address(path: &[u8]) -> (r: Result<(Vec<u8>, u32), BrokerError>)
    ensures
        if path@.len() == 0 || path@.len() >= SOCKET_PATH_LEN {
            r == Err::<(Vec<u8>, u32), BrokerError>(BrokerError::SocketPath)
        } else {
            r matches Ok(address) && address.0@ == path_field(path@) && address.1 == path@.len() + 3
        },
{
    if path.len() == 0 || path.len() >= SOCKET_PATH_LEN {
        return Err(BrokerError::SocketPath);
    }
    let mut field: Vec<u8> = Vec::new();
    let mut i: usize = 0;
    while i < SOCKET_PATH_LEN
        invariant
            i <= SOCKET_PATH_LEN,
            field@ == path_field(path@).take(i as int),
        decreases SOCKET_PATH_LEN - i,
    {
        let byte: u8 = if i < path.len() {
            path[i]
        } else {
            0
        };
        assert(path_field(path@).take(i + 1) =~= path_field(path@).take(i as int).push(byte));
        field.push(byte);
        i = i + 1;
    }
    assert(path_field(path@).take(SOCKET_PATH_LEN as int) =~= path_field(path@));
    Ok((field, path.len() as u32 + 3))
}

/// Why a broker's answer is refused, if it is.
pub open spec fn answer_outcome(request_id: u64, bytes: Seq<u8>, fd_count: nat) -> Result<
    (),
    LaunchErrorView,
> {
    match protocol::response_outcome(bytes) {
        Err(error) => Err(error),
        Ok(response) => if response.request_id != request_id {
            Err(error::plain("ID-map broker returned a mismatched request identifier"@))
        } else if response.status != protocol::STATUS_OK {
            Err(
                error::plain(
                    "ID-map broker rejected the mount request (status "@ + text::decimal(
                        response.status as nat,
                    ) + ", code "@ + text::decimal(response.error_code as nat) + ")"@,
                ),
            )
        } else if response.mount_count != protocol::MOUNT_FD_COUNT || fd_count
            != protocol::MOUNT_FD_COUNT {
            Err(
                error::plain(
                    "ID-map broker returned an invalid detached-mount descriptor count"@,
                ),
            )
        } else {
            Ok(())
        },
    }
}

/// Check the broker's answer to a request.
pub fn check_answer(request_id: u64, bytes: &[u8], fd_count: usize) -> (r: Result<(), LaunchError>)
    ensures
        match answer_outcome(request_id, bytes@, fd_count as nat) {
            Ok(_) => r is Ok,
            Err(expected) => r matches Err(error) && error@ == expected,
        },
{
    let response = match protocol::decode_response(bytes) {
        Ok(response) => response,
        Err(error) => {
            return Err(error);
        },
    };
    if response.request_id != request_id {
        return Err(
            LaunchError::new("ID-map broker returned a mismatched request identifier"),
        );
    }
    if response.status != protocol::STATUS_OK {
        let message = text::cat5(
            "ID-map broker rejected the mount request (status ",
            text::decimal_text(response.status as u64).as_str(),
            ", code ",
            text::decimal_text(response.error_code as u64).as_str(),
            ")",
        );
        return Err(LaunchError::new(message.as_str()));
    }
    if response.mount_count as usize != protocol::MOUNT_FD_COUNT || fd_count
        != protocol::MOUNT_FD_COUNT {
        return Err(
            LaunchError::new("ID-map broker returned an invalid detached-mount descriptor count"),
        );
    }
    Ok(())
}

/// Where an exchange with the broker failed.
#[derive(Debug)]
pub enum ExchangeFailure {
    Connect { source: String },
    Send { source: String },
    Receive { source: String },
}

/// The error of a failed exchange.
pub open spec fn exchange_error(failure: ExchangeFailure) -> LaunchErrorView {
    match failure {
        ExchangeFailure::Connect { source } => error::caused(
            "isolated sandbox ID-map mount broker is unavailable"@,
            source@,
        ),
        ExchangeFailure::Send { source } => error::caused("ID-map broker request failed"@, source@),
        ExchangeFailure::Receive { source } => error::caused(
            "ID-map broker response failed"@,
            source@,
        ),
    }
}

/// The detached mounts of an answer, in stable order.
#[derive(Debug, Clone, Copy, PartialEq, Eq, Structural)]
pub struct BrokerMounts {
    pub workspace: i32,
    pub runtime: i32,
}

/// The outcome of an exchange that answered with these bytes and descriptors.
pub open spec fn mounts_outcome(request_id: u64, bytes: Seq<u8>, fds: Seq<i32>) -> Result<
    BrokerMounts,
    LaunchErrorView,
> {
    match answer_outcome(request_id, bytes, fds.len()) {
        Err(error) => Err(error),
        Ok(_) => Ok(BrokerMounts { workspace: fds[0], runtime: fds[1] }),
    }
}

/// Ask the broker for two detached mapped mounts. `exchange` connects, sends
/// the request with the three source descriptors, and receives the answer with
/// its descriptors.
pub fn create_idmapped_mounts<F: FnOnce(Vec<u8>) -> Result<(Vec<u8>, Vec<i32>), ExchangeFailure>>(
    request_id: u64,
    identity: IsolatedIdentity,
    euid: u32,
    egid: u32,
    exchange: F,
) -> (r: Result<BrokerMounts, LaunchError>)
    requires
        forall|request: Vec<u8>|
            request@ == protocol::request_bytes(
                protocol::request_of(request_id, identity, euid, egid),
            ) ==> #[trigger] exchange.requires((request,)),
    ensures
        exists|request: Vec<u8>, answer: Result<(Vec<u8>, Vec<i32>), ExchangeFailure>|
            #[trigger] exchange.ensures((request,), answer) && request@ == protocol::request_bytes(
                protocol::request_of(request_id, identity, euid, egid),
            ) && (match answer {
                Err(failure) => r matches Err(error) && error@ == exchange_error(failure),
                Ok(message) => match mounts_outcome(request_id, message.0@, message.1@) {
                    Ok(expected) => r == Ok::<BrokerMounts, LaunchError>(expected),
                    Err(expected) => r matches Err(error) && error@ == expected,
                },
            }),
{
    let request = protocol::encode_request(request_id, identity, euid, egid);
    let ghost sent = request;
    let answer = exchange(request);
    assert(exchange.ensures((sent,), answer));
    match answer {
        Err(failure) => Err(
            match failure {
                ExchangeFailure::Connect { source } => LaunchError::with_source(
                    "isolated sandbox ID-map mount broker is unavailable",
                    source,
                ),
                ExchangeFailure::Send { source } => LaunchError::with_source(
                    "ID-map broker request failed",
                    source,
                ),
                ExchangeFailure::Receive { source } => LaunchError::with_source(
                    "ID-map broker response failed",
                    source,
                ),
            },
        ),
        Ok(message) => {
            let (bytes, fds) = message;
            match check_answer(request_id, bytes.as_slice(), fds.len()) {
                Err(error) => Err(error),
                Ok(_) => Ok(BrokerMounts { workspace: fds[0], runtime: fds[1] }),
            }
        },
    }
}

/// Mounts are taken only from an answer to this very request that reports
/// success and carries exactly two descriptors.
pub proof fn accepted_answers_match_their_request(request_id: u64, bytes: Seq<u8>, fd_count: nat)
    requires
        answer_outcome(request_id, bytes, fd_count) is Ok,
    ensures
        fd_count == protocol::MOUNT_FD_COUNT,
        protocol::response_outcome(bytes) matches Ok(response) && response.request_id == request_id
            && response.status == protocol::STATUS_OK && response.mount_count
            == protocol::MOUNT_FD_COUNT,
{
}

/// An answer is accepted exactly when it is a response to this request, granted,
/// with the two mounts it announces; they are the workspace's and the runtime's,
/// in that order.
pub proof fn accepted_answers_carry_two_mounts(request_id: u64, bytes: Seq<u8>, fds: Seq<i32>)
    ensures
        answer_outcome(request_id, bytes, fds.len()) is Ok <==> {
            &&& protocol::response_outcome(bytes) matches Ok(response) && response.request_id
                == request_id && response.status == 0 && response.mount_count == 2
            &&& fds.len() == 2
        },
        mounts_outcome(request_id, bytes, fds) is Ok <==> answer_outcome(
            request_id,
            bytes,
            fds.len(),
        ) is Ok,
        mounts_outcome(request_id, bytes, fds) matches Ok(mounts) ==> mounts.workspace == fds[0]
            && mounts.runtime == fds[1],
{
}

/// A socket path stands at the start of its field, and zeros fill the rest.
pub proof fn socket_paths_are_zero_padded(path: Seq<u8>)
    requires
        path.len() < 108,
    ensures
        path_field(path).len() == 108,
        path_field(path).take(path.len() as int) == path,
        forall|i: int| path.len() <= i < 108 ==> #[trigger] path_field(path)[i] == 0,
{
    assert(path_field(path).take(path.len() as int) =~= path);
}

/// A socket path is used exactly when it is not empty and leaves room for its
/// terminating zero; its address covers the path, the family and that zero.
pub proof fn socket_paths_fit_their_field(
    path: &[u8],
    r: Result<(Vec<u8>, u32), BrokerError>,
)
    requires
        call_ensures(unix_address, (path,), r),
    ensures
        r is Ok <==> 0 < path@.len() < 108,
        r matches Ok(address) ==> {
            &&& address.0@.len() == 108
            &&& address.0@.take(path@.len() as int) == path@
            &&& address.0@[path@.len() as int] == 0
            &&& address.1 == path@.len() + 3
        },
{
    if 0 < path@.len() < 108 {
        socket_paths_are_zero_padded(path@);
    }
}

} // verus!
