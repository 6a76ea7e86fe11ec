use shbox::broker::client::{self, check_answer, create_idmapped_mounts, ExchangeFailure};
use shbox::broker::control::{read_control, receive_message, sent_message, write_control};
use shbox::broker::error::BrokerError;
use shbox::broker::protocol::{
    decode_request, decode_response, default_socket_path, encode_request, encode_response,
    BrokerRequest, BrokerResponse, PROTOCOL_VERSION, REQUEST_LEN, RESPONSE_LEN,
    STATUS_INVALID_REQUEST, STATUS_MOUNT_UNSUPPORTED, STATUS_OK, STATUS_SOURCE_REJECTED,
    STATUS_UNAUTHORIZED,
};
use shbox::broker::service::{
    accept_sources, check_activation, create_mounts, handle_client, is_user_namespace_fd,
    validate_mapped_root, validate_source_fd, Activation, BrokerRoots, MountFailure, MountSource,
    MountWork, SourceFacts,
};
use shbox::platform::engine::IsolatedIdentity;

const DAEMON_UID: u32 = 990;
const DAEMON_GID: u32 = 991;

fn identity() -> IsolatedIdentity {
    IsolatedIdentity {
        runtime_uid: 1000,
        runtime_gid: 1000,
        host_uid: 165536,
        host_gid: 165537,
    }
}

#[test]
fn request_is_fixed_size_and_round_trips() {
    let request = encode_request(42, identity(), DAEMON_UID, DAEMON_GID);
    let decoded = decode_request(&request).expect("request");
    assert_eq!(request.len(), REQUEST_LEN);
    assert_eq!(decoded.request_id, 42);
    assert_eq!(decoded.daemon_uid, DAEMON_UID);
    assert_eq!(decoded.daemon_gid, DAEMON_GID);
    assert_eq!(decoded.leased_uid, 165536);
    assert_eq!(decoded.leased_gid, 165537);
    assert_eq!(decoded.source_count, 2);
    // The layout itself: little-endian words at fixed offsets.
    assert_eq!(&request[0..4], &PROTOCOL_VERSION.to_le_bytes());
    assert_eq!(&request[8..16], &42u64.to_le_bytes());
    assert_eq!(&request[24..28], &165536u32.to_le_bytes());
    assert_eq!(&request[36..40], &[0, 0, 0, 0]);
}

#[test]
fn response_rejects_reserved_bytes() {
    let mut response = [0_u8; RESPONSE_LEN];
    response[0..4].copy_from_slice(&PROTOCOL_VERSION.to_le_bytes());
    assert!(decode_response(&response).is_ok());
    response[24] = 1;
    assert!(decode_response(&response).is_err());
}

#[test]
fn malformed_requests_are_told_apart() {
    let request = encode_request(7, identity(), DAEMON_UID, DAEMON_GID);
    assert!(matches!(decode_request(&request[..39]), Err(BrokerError::RequestSize)));
    let mut wrong = request.clone();
    wrong[0] = 2;
    assert!(matches!(decode_request(&wrong), Err(BrokerError::RequestOperation)));
    let mut wrong = request.clone();
    wrong[4] = 9;
    assert!(matches!(decode_request(&wrong), Err(BrokerError::RequestOperation)));
    let mut wrong = request.clone();
    wrong[39] = 1;
    let error = decode_request(&wrong).expect_err("reserved");
    assert!(matches!(error, BrokerError::RequestReserved));
    assert_eq!(error.message(), "ID-map broker request has non-zero reserved bytes");
}

#[test]
fn responses_round_trip() {
    let response = BrokerResponse {
        status: STATUS_MOUNT_UNSUPPORTED,
        request_id: u64::MAX,
        mount_count: 0,
        error_code: 95,
    };
    let bytes = encode_response(response);
    assert_eq!(bytes.len(), RESPONSE_LEN);
    assert_eq!(decode_response(&bytes).expect("response"), response);
    assert_eq!(
        decode_response(&bytes[..31]).expect_err("short").message(),
        "ID-map broker returned an invalid protocol response"
    );
}

#[test]
fn descriptor_messages_round_trip_without_pathnames() {
    let payload = vec![7_u8, 8, 9];
    let control = write_control(&vec![5]);
    assert_eq!(control.len(), 24);
    let (received, fds) = receive_message(payload.clone(), false, &control).expect("receive");
    assert_eq!(received, payload);
    assert_eq!(fds, vec![5]);
    let control = write_control(&vec![3, 4, 5]);
    assert_eq!(control.len(), 32);
    assert_eq!(read_control(&control).expect("three"), vec![3, 4, 5]);
    assert!(matches!(
        receive_message(payload, true, &control),
        Err(BrokerError::Truncated)
    ));
    assert!(sent_message(40, 40).is_ok());
    assert!(matches!(sent_message(39, 40), Err(BrokerError::ShortMessage)));
}

#[test]
fn malformed_control_messages_are_told_apart() {
    assert_eq!(read_control(&[]).expect("nothing"), Vec::<i32>::new());
    assert_eq!(read_control(&[0u8; 15]).expect("no header"), Vec::<i32>::new());
    // A stated length below a header.
    assert!(matches!(read_control(&[0u8; 16]), Err(BrokerError::ControlLength)));
    // A stated length past the buffer.
    let mut control = write_control(&vec![5]);
    control[0] = 200;
    assert!(matches!(read_control(&control), Err(BrokerError::ControlLength)));
    // A payload that is no whole number of descriptors.
    let mut control = write_control(&vec![5]);
    control[0] = 18;
    assert!(matches!(read_control(&control), Err(BrokerError::DescriptorAlignment)));
    // A negative descriptor.
    let mut control = write_control(&vec![5]);
    control[19] = 0xff;
    assert!(matches!(read_control(&control), Err(BrokerError::NegativeDescriptor)));
    // Another kind of message carries no descriptors, and one behind it is read.
    let mut control = write_control(&vec![5]);
    control[12] = 2;
    control.extend_from_slice(&write_control(&vec![6, 7]));
    assert_eq!(read_control(&control).expect("second message"), vec![6, 7]);
}

#[test]
fn socket_addresses_hold_the_path_and_one_closing_byte() {
    let path = default_socket_path();
    assert_eq!(path, "/run/shbox-idmap-broker.sock");
    let (field, length) = client::unix_address(path.as_bytes()).expect("address");
    assert_eq!(field.len(), 108);
    assert_eq!(&field[..path.len()], path.as_bytes());
    assert!(field[path.len()..].iter().all(|byte| *byte == 0));
    assert_eq!(length as usize, 2 + path.len() + 1);
    assert!(client::unix_address(&[b'a'; 107]).is_ok());
    assert!(matches!(client::unix_address(&[b'a'; 108]), Err(BrokerError::SocketPath)));
    assert!(matches!(client::unix_address(&[]), Err(BrokerError::SocketPath)));
}

fn granted(request_id: u64) -> Vec<u8> {
    encode_response(BrokerResponse {
        status: STATUS_OK,
        request_id,
        mount_count: 2,
        error_code: 0,
    })
}

#[test]
fn answers_have_to_match_their_request() {
    assert!(check_answer(9, &granted(9), 2).is_ok());
    assert_eq!(
        check_answer(8, &granted(9), 2).expect_err("id").message(),
        "ID-map broker returned a mismatched request identifier"
    );
    assert_eq!(
        check_answer(9, &granted(9), 1).expect_err("count").message(),
        "ID-map broker returned an invalid detached-mount descriptor count"
    );
    let refused = encode_response(BrokerResponse {
        status: STATUS_SOURCE_REJECTED,
        request_id: 9,
        mount_count: 0,
        error_code: 4,
    });
    assert_eq!(
        check_answer(9, &refused, 0).expect_err("refused").message(),
        "ID-map broker rejected the mount request (status 3, code 4)"
    );
}

#[test]
fn mounts_come_from_one_exchange() {
    let expected = encode_request(3, identity(), DAEMON_UID, DAEMON_GID);
    let mounts = create_idmapped_mounts(3, identity(), DAEMON_UID, DAEMON_GID, |request| {
        assert_eq!(request, expected);
        Ok((granted(3), vec![11, 12]))
    })
    .expect("mounts");
    assert_eq!((mounts.workspace, mounts.runtime), (11, 12));
    let failures: [(ExchangeFailure, &str); 3] = [
        (
            ExchangeFailure::Connect { source: "refused".to_string() },
            "isolated sandbox ID-map mount broker is unavailable",
        ),
        (
            ExchangeFailure::Send { source: "refused".to_string() },
            "ID-map broker request failed",
        ),
        (
            ExchangeFailure::Receive { source: "refused".to_string() },
            "ID-map broker response failed",
        ),
    ];
    for (failure, message) in failures {
        let error = create_idmapped_mounts(3, identity(), DAEMON_UID, DAEMON_GID, |_| Err(failure))
            .expect_err("failed exchange");
        assert_eq!(error.message(), message);
        assert_eq!(error.source().as_deref(), Some("refused"));
    }
}

fn activation() -> Activation {
    Activation {
        listen_fds: "1".to_string(),
        listen_pid: "4711".to_string(),
        pid: 4711,
        listener: Ok(()),
        euid: 0,
        data_root: Some("/data".to_string()),
        runtime_root: Some("/run/shbox".to_string()),
    }
}

#[test]
fn activation_requires_one_listener_root_and_both_roots() {
    let roots = check_activation(activation()).expect("activated");
    assert_eq!((roots.data.as_str(), roots.runtime.as_str()), ("/data", "/run/shbox"));
    let refused = check_activation(Activation { listen_fds: "2".to_string(), ..activation() });
    assert!(matches!(refused, Err(BrokerError::Activation)));
    let refused = check_activation(Activation { listen_pid: "1".to_string(), ..activation() });
    assert!(matches!(refused, Err(BrokerError::Activation)));
    let refused = check_activation(Activation { listener: Err("EBADF".to_string()), ..activation() });
    assert!(matches!(refused, Err(BrokerError::Io(source)) if source == "EBADF"));
    let refused = check_activation(Activation { euid: 1000, ..activation() });
    assert!(matches!(refused, Err(BrokerError::NotRoot)));
    let refused = check_activation(Activation { data_root: None, ..activation() });
    assert!(matches!(refused, Err(BrokerError::NoDataRoot)));
    let refused = check_activation(Activation { runtime_root: None, ..activation() });
    assert!(matches!(refused, Err(BrokerError::NoRuntimeRoot)));
}

fn source(path: &str) -> SourceFacts {
    SourceFacts {
        stat: Ok((0o040700, DAEMON_UID, DAEMON_GID)),
        link: Ok(path.to_string()),
        canonical: Ok(path.to_string()),
    }
}

fn check(facts: SourceFacts, root: &str) -> Result<(), BrokerError> {
    validate_source_fd(facts, DAEMON_UID, DAEMON_GID, root)
}

#[test]
fn sources_are_private_directories_inside_their_root() {
    assert!(check(source("/data/box"), "/data").is_ok());
    assert!(check(source("/data"), "/data/").is_ok());
    assert!(check(source("/data/box"), "//data/.").is_ok());
    assert!(matches!(check(source("/database"), "/data"), Err(BrokerError::SourceOutside)));
    for stat in [
        (0o100700, DAEMON_UID, DAEMON_GID),
        (0o040700, 1, DAEMON_GID),
        (0o040700, DAEMON_UID, 1),
        (0o040770, DAEMON_UID, DAEMON_GID),
        (0o040702, DAEMON_UID, DAEMON_GID),
    ] {
        let facts = SourceFacts { stat: Ok(stat), ..source("/data/box") };
        assert!(matches!(check(facts, "/data"), Err(BrokerError::SourceNotPrivate)));
    }
    let deleted = SourceFacts { link: Ok("/data/box (deleted)".to_string()), ..source("/data/box") };
    assert!(matches!(check(deleted, "/data"), Err(BrokerError::SourceDeleted)));
    let unread = SourceFacts { canonical: Err("ENOENT".to_string()), ..source("/data/box") };
    assert!(matches!(check(unread, "/data"), Err(BrokerError::Io(_))));
}

#[test]
fn user_namespaces_are_recognized_by_their_link() {
    assert!(is_user_namespace_fd(&Some("user:[4026531837]".to_string())));
    assert!(!is_user_namespace_fd(&Some("mnt:[4026531837]".to_string())));
    assert!(!is_user_namespace_fd(&Some("user:[4026531837".to_string())));
    assert!(!is_user_namespace_fd(&None));
    let roots = BrokerRoots { data: "/data".to_string(), runtime: "/run/shbox".to_string() };
    let request = decode_request(&encode_request(1, identity(), DAEMON_UID, DAEMON_GID)).expect("ok");
    let namespace = Some("user:[1]".to_string());
    let runtime = || source("/run/shbox/launch");
    assert!(accept_sources(request, &namespace, source("/data/a"), runtime(), &roots));
    assert!(!accept_sources(request, &namespace, source("/else"), runtime(), &roots));
    assert!(!accept_sources(request, &namespace, source("/data/a"), source("/tmp"), &roots));
    assert!(!accept_sources(request, &None, source("/data/a"), runtime(), &roots));
}

#[test]
fn mapped_roots_belong_to_the_leased_ids() {
    assert!(validate_mapped_root(Ok((165536, 165537)), 165536, 165537).is_ok());
    assert!(matches!(
        validate_mapped_root(Ok((165536, 0)), 165536, 165537),
        Err(BrokerError::RootNotMapped)
    ));
    assert!(matches!(
        validate_mapped_root(Err("EBADF".to_string()), 1, 1),
        Err(BrokerError::Io(_))
    ));
}

#[test]
fn mounting_stops_at_the_first_failure() {
    let seen = std::cell::RefCell::new(Vec::new());
    let all = create_mounts(&|source: MountSource, work: MountWork| -> Result<(), MountFailure> {
        seen.borrow_mut().push((source, work));
        Ok(())
    });
    assert!(all.is_ok());
    assert_eq!(
        *seen.borrow(),
        vec![
            (MountSource::Workspace, MountWork::Detach),
            (MountSource::Workspace, MountWork::MapIds),
            (MountSource::Workspace, MountWork::CheckRoot),
            (MountSource::Runtime, MountWork::Detach),
            (MountSource::Runtime, MountWork::MapIds),
            (MountSource::Runtime, MountWork::CheckRoot),
        ]
    );
    seen.borrow_mut().clear();
    let failed = create_mounts(&|source: MountSource, work: MountWork| -> Result<(), MountFailure> {
        seen.borrow_mut().push((source, work));
        if work == MountWork::MapIds {
            Err(MountFailure { errno: Some(95), message: "unsupported".to_string() })
        } else {
            Ok(())
        }
    });
    assert_eq!(failed.expect_err("second step").errno, Some(95));
    assert_eq!(seen.borrow().len(), 2);
}

fn never_mount(_: BrokerRequest) -> Result<(), MountFailure> {
    panic!("nothing may be mounted")
}

#[test]
fn requests_are_authorized_before_anything_is_mounted() {
    let bytes = encode_request(5, identity(), DAEMON_UID, DAEMON_GID);
    let reply = handle_client(DAEMON_UID, DAEMON_GID, &bytes, 3, |_| true, |_| Ok(()));
    assert!(reply.with_mounts && reply.failure.is_none());
    assert_eq!(
        reply.response,
        BrokerResponse { status: STATUS_OK, request_id: 5, mount_count: 2, error_code: 0 }
    );

    let refused = |status: u32, code: u32| BrokerResponse {
        status,
        request_id: 5,
        mount_count: 0,
        error_code: code,
    };
    for (uid, gid, fds) in [(0, DAEMON_GID, 3), (1, DAEMON_GID, 3), (DAEMON_UID, 1, 3), (DAEMON_UID, DAEMON_GID, 2)] {
        let reply = handle_client(uid, gid, &bytes, fds, |_| true, never_mount);
        assert_eq!(reply.response, refused(STATUS_UNAUTHORIZED, 2));
    }
    for (host_uid, host_gid) in [(0, 165537), (165536, 0), (DAEMON_UID, 165537), (165536, DAEMON_GID)] {
        let leased = IsolatedIdentity { host_uid, host_gid, ..identity() };
        let bytes = encode_request(5, leased, DAEMON_UID, DAEMON_GID);
        let reply = handle_client(DAEMON_UID, DAEMON_GID, &bytes, 3, |_| true, never_mount);
        assert_eq!(reply.response, refused(STATUS_INVALID_REQUEST, 3));
    }
    let reply = handle_client(DAEMON_UID, DAEMON_GID, &bytes, 3, |_| false, never_mount);
    assert_eq!(reply.response, refused(STATUS_SOURCE_REJECTED, 4));
    for (errno, code) in [(Some(38), 38), (None, 5)] {
        let reply = handle_client(DAEMON_UID, DAEMON_GID, &bytes, 3, |_| true, |_| {
            Err(MountFailure { errno, message: String::new() })
        });
        assert_eq!(reply.response, refused(STATUS_MOUNT_UNSUPPORTED, code));
        assert!(!reply.with_mounts);
    }
    let reply = handle_client(DAEMON_UID, DAEMON_GID, &bytes[..8], 3, |_| true, never_mount);
    assert_eq!(
        reply.response,
        BrokerResponse {
            status: STATUS_INVALID_REQUEST,
            request_id: 0,
            mount_count: 0,
            error_code: 1
        }
    );
    assert!(matches!(reply.failure, Some(BrokerError::RequestSize)));
}
