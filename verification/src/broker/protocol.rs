//! The fixed-size wire protocol.

use crate::broker::error::BrokerError;
use crate::broker::words;
use crate::platform::engine::IsolatedIdentity;
use crate::platform::error::{self, LaunchError, LaunchErrorView};
use vstd::prelude::*;

verus! {

/// Where the broker listens.
pub fn default_socket_path() -> (r: &'static str)
    ensures
        r@ == "/run/shbox-idmap-broker.sock"@,
{
    "/run/shbox-idmap-broker.sock"
}

pub const PROTOCOL_VERSION: u32 = 1;

pub const OP_CREATE_IDMAPPED_MOUNTS: u32 = 1;

pub const REQUEST_LEN: usize = 40;

pub const RESPONSE_LEN: usize = 32;

/// A user namespace, a workspace, and a runtime directory.
pub const SOURCE_FD_COUNT: usize = 3;

/// A workspace mount and a runtime mount.
pub const MOUNT_FD_COUNT: usize = 2;

pub const STATUS_OK: u32 = 0;

pub const STATUS_INVALID_REQUEST: u32 = 1;

pub const STATUS_UNAUTHORIZED: u32 = 2;

pub const STATUS_SOURCE_REJECTED: u32 = 3;

pub const STATUS_MOUNT_UNSUPPORTED: u32 = 4;

/// A request: who asks, and for which leased identity.
#[derive(Debug, Clone, Copy, PartialEq, Eq, Structural)]
pub struct BrokerRequest {
    pub request_id: u64,
    pub daemon_uid: u32,
    pub daemon_gid: u32,
    pub leased_uid: u32,
    pub leased_gid: u32,
    pub source_count: u32,
}

/// A response.
#[derive(Debug, Clone, Copy, PartialEq, Eq, Structural)]
pub struct BrokerResponse {
    pub status: u32,
    pub request_id: u64,
    pub mount_count: u32,
    pub error_code: u32,
}

/// The bytes of a request: version, operation, id, daemon, lease, sources, and
/// four reserved zero bytes.
pub open spec fn request_bytes(request: BrokerRequest) -> Seq<u8> {
    words::bytes_of(PROTOCOL_VERSION as nat, 4) + words::bytes_of(
        OP_CREATE_IDMAPPED_MOUNTS as nat,
        4,
    ) + words::bytes_of(request.request_id as nat, 8) + words::bytes_of(
        request.daemon_uid as nat,
        4,
    ) + words::bytes_of(request.daemon_gid as nat, 4) + words::bytes_of(
        request.leased_uid as nat,
        4,
    ) + words::bytes_of(request.leased_gid as nat, 4) + words::bytes_of(
        request.source_count as nat,
        4,
    ) + words::bytes_of(0, 4)
}

/// The bytes of a response: version, status, id, mounts, error code, and eight
/// reserved zero bytes.
pub open spec fn response_bytes(response: BrokerResponse) -> Seq<u8> {
    words::bytes_of(PROTOCOL_VERSION as nat, 4) + words::bytes_of(response.status as nat, 4)
        + words::bytes_of(response.request_id as nat, 8) + words::bytes_of(
        response.mount_count as nat,
        4,
    ) + words::bytes_of(response.error_code as nat, 4) + words::bytes_of(0, 8)
}

/// The request of a leased identity.
pub open spec fn request_of(
    request_id: u64,
    identity: IsolatedIdentity,
    euid: u32,
    egid: u32,
) -> BrokerRequest {
    BrokerRequest {
        request_id,
        daemon_uid: euid,
        daemon_gid: egid,
        leased_uid: identity.host_uid,
        leased_gid: identity.host_gid,
        source_count: 2,
    }
}

/// Write the request of a leased identity, in the name of the daemon's own
/// effective ids.
pub fn encode_request(request_id: u64, identity: IsolatedIdentity, euid: u32, egid: u32) -> (r: Vec<
    u8,
>)
    ensures
        r@ == request_bytes(request_of(request_id, identity, euid, egid)),
        r@.len() == REQUEST_LEN,
{
    let mut out: Vec<u8> = Vec::new();
    words::put_u32(&mut out, PROTOCOL_VERSION);
    words::put_u32(&mut out, OP_CREATE_IDMAPPED_MOUNTS);
    words::put_u64(&mut out, request_id);
    words::put_u32(&mut out, euid);
    words::put_u32(&mut out, egid);
    words::put_u32(&mut out, identity.host_uid);
    words::put_u32(&mut out, identity.host_gid);
    words::put_u32(&mut out, 2);
    words::put_u32(&mut out, 0);
    proof {
        let request = request_of(request_id, identity, euid, egid);
        lemma_request_bytes(request);
        assert(out@ =~= request_bytes(request)) by {
            assert(Seq::<u8>::empty() + words::bytes_of(PROTOCOL_VERSION as nat, 4)
                =~= words::bytes_of(PROTOCOL_VERSION as nat, 4));
        }
    }
    out
}

/// Write a response.
pub fn encode_response(response: BrokerResponse) -> (r: Vec<u8>)
    ensures
        r@ == response_bytes(response),
        r@.len() == RESPONSE_LEN,
{
    let mut out: Vec<u8> = Vec::new();
    words::put_u32(&mut out, PROTOCOL_VERSION);
    words::put_u32(&mut out, response.status);
    words::put_u64(&mut out, response.request_id);
    words::put_u32(&mut out, response.mount_count);
    words::put_u32(&mut out, response.error_code);
    words::put_u64(&mut out, 0);
    proof {
        lemma_response_bytes(response);
        assert(out@ =~= response_bytes(response)) by {
            assert(Seq::<u8>::empty() + words::bytes_of(PROTOCOL_VERSION as nat, 4)
                =~= words::bytes_of(PROTOCOL_VERSION as nat, 4));
        }
    }
    out
}

/// What a request's bytes hold.
pub open spec fn request_outcome(bytes: Seq<u8>) -> Result<BrokerRequest, BrokerError> {
    if bytes.len() != REQUEST_LEN {
        Err(BrokerError::RequestSize)
    } else if words::u32_at(bytes, 0) != PROTOCOL_VERSION || words::u32_at(bytes, 4)
        != OP_CREATE_IDMAPPED_MOUNTS {
        Err(BrokerError::RequestOperation)
    } else if !words::zero_from(bytes, 36) {
        Err(BrokerError::RequestReserved)
    } else {
        Ok(
            BrokerRequest {
                request_id: words::u64_at(bytes, 8),
                daemon_uid: words::u32_at(bytes, 16),
                daemon_gid: words::u32_at(bytes, 20),
                leased_uid: words::u32_at(bytes, 24),
                leased_gid: words::u32_at(bytes, 28),
                source_count: words::u32_at(bytes, 32),
            },
        )
    }
}

/// Read a request.
pub fn decode_request(bytes: &[u8]) -> (r: Result<BrokerRequest, BrokerError>)
    ensures
        r == request_outcome(bytes@),
{
    if bytes.len() != REQUEST_LEN {
        return Err(BrokerError::RequestSize);
    }
    if words::get_u32(bytes, 0) != PROTOCOL_VERSION || words::get_u32(bytes, 4)
        != OP_CREATE_IDMAPPED_MOUNTS {
        return Err(BrokerError::RequestOperation);
    }
    if !words::is_zero_from(bytes, 36) {
        return Err(BrokerError::RequestReserved);
    }
    Ok(
        BrokerRequest {
            request_id: words::get_u64(bytes, 8),
            daemon_uid: words::get_u32(bytes, 16),
            daemon_gid: words::get_u32(bytes, 20),
            leased_uid: words::get_u32(bytes, 24),
            leased_gid: words::get_u32(bytes, 28),
            source_count: words::get_u32(bytes, 32),
        },
    )
}

/// What a response's bytes hold.
pub open spec fn response_outcome(bytes: Seq<u8>) -> Result<BrokerResponse, LaunchErrorView> {
    if bytes.len() != RESPONSE_LEN || words::u32_at(bytes, 0) != PROTOCOL_VERSION {
        Err(error::plain("ID-map broker returned an invalid protocol response"@))
    } else if !words::zero_from(bytes, 24) {
        Err(error::plain("ID-map broker returned non-zero reserved bytes"@))
    } else {
        Ok(
            BrokerResponse {
                status: words::u32_at(bytes, 4),
                request_id: words::u64_at(bytes, 8),
                mount_count: words::u32_at(bytes, 16),
                error_code: words::u32_at(bytes, 20),
            },
        )
    }
}

/// Read a response.
pub fn decode_response(bytes: &[u8]) -> (r: Result<BrokerResponse, LaunchError>)
    ensures
        match response_outcome(bytes@) {
            Ok(expected) => r == Ok::<BrokerResponse, LaunchError>(expected),
            Err(expected) => r matches Err(error) && error@ == expected,
        },
{
    if bytes.len() != RESPONSE_LEN || words::get_u32(bytes, 0) != PROTOCOL_VERSION {
        return Err(LaunchError::new("ID-map broker returned an invalid protocol response"));
    }
    if !words::is_zero_from(bytes, 24) {
        return Err(LaunchError::new("ID-map broker returned non-zero reserved bytes"));
    }
    Ok(
        BrokerResponse {
            status: words::get_u32(bytes, 4),
            request_id: words::get_u64(bytes, 8),
            mount_count: words::get_u32(bytes, 16),
            error_code: words::get_u32(bytes, 20),
        },
    )
}

proof fn lemma_word_at(bytes: Seq<u8>, offset: int, value: u32)
    requires
        0 <= offset,
        offset + 4 <= bytes.len(),
        bytes.subrange(offset, offset + 4) == words::bytes_of(value as nat, 4),
    ensures
        words::u32_at(bytes, offset) == value,
{
    words::lemma_bounds();
    words::lemma_value_of_bytes(value as nat, 4);
}

proof fn lemma_long_at(bytes: Seq<u8>, offset: int, value: u64)
    requires
        0 <= offset,
        offset + 8 <= bytes.len(),
        bytes.subrange(offset, offset + 8) == words::bytes_of(value as nat, 8),
    ensures
        words::u64_at(bytes, offset) == value,
{
    words::lemma_bounds();
    words::lemma_value_of_bytes(value as nat, 8);
}

proof fn lemma_zero_bytes(n: nat)
    ensures
        words::bytes_of(0, n).len() == n,
        forall|i: int| 0 <= i < n ==> words::bytes_of(0, n)[i] == 0,
    decreases n,
{
    if n > 0 {
        lemma_zero_bytes((n - 1) as nat);
    }
}

proof fn lemma_request_bytes(request: BrokerRequest)
    ensures
        ({
            let b = request_bytes(request);
            &&& b.len() == REQUEST_LEN
            &&& b.subrange(0, 4) == words::bytes_of(PROTOCOL_VERSION as nat, 4)
            &&& b.subrange(4, 8) == words::bytes_of(OP_CREATE_IDMAPPED_MOUNTS as nat, 4)
            &&& b.subrange(8, 16) == words::bytes_of(request.request_id as nat, 8)
            &&& b.subrange(16, 20) == words::bytes_of(request.daemon_uid as nat, 4)
            &&& b.subrange(20, 24) == words::bytes_of(request.daemon_gid as nat, 4)
            &&& b.subrange(24, 28) == words::bytes_of(request.leased_uid as nat, 4)
            &&& b.subrange(28, 32) == words::bytes_of(request.leased_gid as nat, 4)
            &&& b.subrange(32, 36) == words::bytes_of(request.source_count as nat, 4)
            &&& b.subrange(36, 40) == words::bytes_of(0, 4)
        }),
{
    words::lemma_words(PROTOCOL_VERSION as nat, 4);
    words::lemma_words(OP_CREATE_IDMAPPED_MOUNTS as nat, 4);
    words::lemma_words(request.request_id as nat, 8);
    words::lemma_words(request.daemon_uid as nat, 4);
    words::lemma_words(request.daemon_gid as nat, 4);
    words::lemma_words(request.leased_uid as nat, 4);
    words::lemma_words(request.leased_gid as nat, 4);
    words::lemma_words(request.source_count as nat, 4);
    words::lemma_words(0, 4);
    let b = request_bytes(request);
    assert(b.subrange(0, 4) =~= words::bytes_of(PROTOCOL_VERSION as nat, 4));
    assert(b.subrange(4, 8) =~= words::bytes_of(OP_CREATE_IDMAPPED_MOUNTS as nat, 4));
    assert(b.subrange(8, 16) =~= words::bytes_of(request.request_id as nat, 8));
    assert(b.subrange(16, 20) =~= words::bytes_of(request.daemon_uid as nat, 4));
    assert(b.subrange(20, 24) =~= words::bytes_of(request.daemon_gid as nat, 4));
    assert(b.subrange(24, 28) =~= words::bytes_of(request.leased_uid as nat, 4));
    assert(b.subrange(28, 32) =~= words::bytes_of(request.leased_gid as nat, 4));
    assert(b.subrange(32, 36) =~= words::bytes_of(request.source_count as nat, 4));
    assert(b.subrange(36, 40) =~= words::bytes_of(0, 4));
}

proof fn lemma_response_bytes(response: BrokerResponse)
    ensures
        ({
            let b = response_bytes(response);
            &&& b.len() == RESPONSE_LEN
            &&& b.subrange(0, 4) == words::bytes_of(PROTOCOL_VERSION as nat, 4)
            &&& b.subrange(4, 8) == words::bytes_of(response.status as nat, 4)
            &&& b.subrange(8, 16) == words::bytes_of(response.request_id as nat, 8)
            &&& b.subrange(16, 20) == words::bytes_of(response.mount_count as nat, 4)
            &&& b.subrange(20, 24) == words::bytes_of(response.error_code as nat, 4)
            &&& b.subrange(24, 32) == words::bytes_of(0, 8)
        }),
{
    words::lemma_words(PROTOCOL_VERSION as nat, 4);
    words::lemma_words(response.status as nat, 4);
    words::lemma_words(response.request_id as nat, 8);
    words::lemma_words(response.mount_count as nat, 4);
    words::lemma_words(response.error_code as nat, 4);
    words::lemma_words(0, 8);
    let b = response_bytes(response);
    assert(b.subrange(0, 4) =~= words::bytes_of(PROTOCOL_VERSION as nat, 4));
    assert(b.subrange(4, 8) =~= words::bytes_of(response.status as nat, 4));
    assert(b.subrange(8, 16) =~= words::bytes_of(response.request_id as nat, 8));
    assert(b.subrange(16, 20) =~= words::bytes_of(response.mount_count as nat, 4));
    assert(b.subrange(20, 24) =~= words::bytes_of(response.error_code as nat, 4));
    assert(b.subrange(24, 32) =~= words::bytes_of(0, 8));
}

/// A written request reads back as it was.
pub proof fn requests_round_trip(request: BrokerRequest)
    ensures
        request_outcome(request_bytes(request)) == Ok::<BrokerRequest, BrokerError>(request),
{
    let b = request_bytes(request);
    lemma_request_bytes(request);
    lemma_zero_bytes(4);
    lemma_word_at(b, 0, PROTOCOL_VERSION);
    lemma_word_at(b, 4, OP_CREATE_IDMAPPED_MOUNTS);
    lemma_long_at(b, 8, request.request_id);
    lemma_word_at(b, 16, request.daemon_uid);
    lemma_word_at(b, 20, request.daemon_gid);
    lemma_word_at(b, 24, request.leased_uid);
    lemma_word_at(b, 28, request.leased_gid);
    lemma_word_at(b, 32, request.source_count);
    assert forall|i: int| 36 <= i < b.len() implies b[i] == 0 by {
        assert(b[i] == b.subrange(36, 40)[i - 36]);
    }
}

/// A written response reads back as it was.
pub proof fn responses_round_trip(response: BrokerResponse)
    ensures
        response_outcome(response_bytes(response)) == Ok::<BrokerResponse, LaunchErrorView>(
            response,
        ),
{
    let b = response_bytes(response);
    lemma_response_bytes(response);
    lemma_zero_bytes(8);
    lemma_word_at(b, 0, PROTOCOL_VERSION);
    lemma_word_at(b, 4, response.status);
    lemma_long_at(b, 8, response.request_id);
    lemma_word_at(b, 16, response.mount_count);
    lemma_word_at(b, 20, response.error_code);
    assert forall|i: int| 24 <= i < b.len() implies b[i] == 0 by {
        assert(b[i] == b.subrange(24, 32)[i - 24]);
    }
}

proof fn lemma_read_word(bytes: Seq<u8>, offset: int)
    requires
        0 <= offset,
        offset + 4 <= bytes.len(),
    ensures
        bytes.subrange(offset, offset + 4) == words::bytes_of(
            words::u32_at(bytes, offset) as nat,
            4,
        ),
{
    words::lemma_bounds();
    words::lemma_bytes_of_value(bytes.subrange(offset, offset + 4));
}

proof fn lemma_read_long(bytes: Seq<u8>, offset: int)
    requires
        0 <= offset,
        offset + 8 <= bytes.len(),
    ensures
        bytes.subrange(offset, offset + 8) == words::bytes_of(
            words::u64_at(bytes, offset) as nat,
            8,
        ),
{
    words::lemma_bounds();
    words::lemma_bytes_of_value(bytes.subrange(offset, offset + 8));
}

/// Accepted bytes are the bytes of the request they were read as: no two
/// messages are the same request.
pub proof fn accepted_requests_are_canonical(bytes: Seq<u8>)
    ensures
        request_outcome(bytes) matches Ok(request) ==> bytes == request_bytes(request),
{
    if let Ok(request) = request_outcome(bytes) {
        let b = request_bytes(request);
        lemma_request_bytes(request);
        lemma_read_word(bytes, 0);
        lemma_read_word(bytes, 4);
        lemma_read_long(bytes, 8);
        lemma_read_word(bytes, 16);
        lemma_read_word(bytes, 20);
        lemma_read_word(bytes, 24);
        lemma_read_word(bytes, 28);
        lemma_read_word(bytes, 32);
        lemma_zero_bytes(4);
        assert(bytes.subrange(36, 40) =~= words::bytes_of(0, 4));
        assert forall|i: int| 0 <= i < 40 implies bytes[i] == b[i] by {
            let start: int = if i < 4 {
                0
            } else if i < 8 {
                4
            } else if i < 16 {
                8
            } else if i < 20 {
                16
            } else if i < 24 {
                20
            } else if i < 28 {
                24
            } else if i < 32 {
                28
            } else if i < 36 {
                32
            } else {
                36
            };
            let end: int = if i < 4 {
                4
            } else if i < 8 {
                8
            } else if i < 16 {
                16
            } else if i < 20 {
                20
            } else if i < 24 {
                24
            } else if i < 28 {
                28
            } else if i < 32 {
                32
            } else if i < 36 {
                36
            } else {
                40
            };
            assert(bytes.subrange(start, end) == b.subrange(start, end));
            assert(bytes[i] == bytes.subrange(start, end)[i - start]);
            assert(b[i] == b.subrange(start, end)[i - start]);
        }
        assert(bytes =~= b);
    }
}

/// A request asks for two mounts, under the caller's own ids, for the ids that
/// its identity has on the host.
pub proof fn requests_name_both_identities(
    request_id: u64,
    identity: IsolatedIdentity,
    euid: u32,
    egid: u32,
)
    ensures
        ({
            let request = request_of(request_id, identity, euid, egid);
            &&& request.request_id == request_id
            &&& request.daemon_uid == euid
            &&& request.daemon_gid == egid
            &&& request.leased_uid == identity.host_uid
            &&& request.leased_gid == identity.host_gid
            &&& request.source_count == 2
        }),
        request_bytes(request_of(request_id, identity, euid, egid)).len() == 40,
{
    lemma_request_bytes(request_of(request_id, identity, euid, egid));
}

/// A message of another length, version, or operation, or with anything in its
/// reserved bytes, is refused.
pub proof fn messages_are_checked_whole(bytes: Seq<u8>)
    ensures
        request_outcome(bytes) is Ok <==> {
            &&& bytes.len() == 40
            &&& words::u32_at(bytes, 0) == 1
            &&& words::u32_at(bytes, 4) == 1
            &&& words::zero_from(bytes, 36)
        },
        response_outcome(bytes) is Ok <==> {
            &&& bytes.len() == 32
            &&& words::u32_at(bytes, 0) == 1
            &&& words::zero_from(bytes, 24)
        },
{
}

} // verus!
