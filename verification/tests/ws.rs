use bytes::Bytes;
use shbox::ws::{
    outbound_chunk, subprotocol, validate_upgrade, Inbound, InboundQueue, ReadStep, UpgradeRefusal,
    MAX_OUTBOUND_CHUNK, REFUSED_STATUS,
};

#[test]
fn upgrade_selects_the_ssh_subprotocol() {
    assert_eq!(validate_upgrade("/ssh", Some("ssh"), "/ssh"), Ok(()));
    assert_eq!(subprotocol(), "ssh");
}

#[test]
fn upgrade_accepts_ssh_among_other_tokens_case_insensitively() {
    for offered in ["ssh", "SSH, binary", "other, ssh"] {
        assert!(validate_upgrade("/ssh", Some(offered), "/ssh").is_ok(), "{offered}");
    }
}

#[test]
fn upgrade_rejects_wrong_path_or_missing_subprotocol() {
    // Wrong path, with the right subprotocol.
    assert_eq!(
        validate_upgrade("/other", Some("ssh"), "/ssh"),
        Err(UpgradeRefusal::Path)
    );
    // Right path, no subprotocol offered.
    assert_eq!(
        validate_upgrade("/ssh", None, "/ssh"),
        Err(UpgradeRefusal::Subprotocol)
    );
    // Right path, unrelated subprotocols only.
    assert_eq!(
        validate_upgrade("/ssh", Some("chatv2, binary"), "/ssh"),
        Err(UpgradeRefusal::Subprotocol)
    );
    assert_eq!(REFUSED_STATUS, 400);
    assert_eq!(
        UpgradeRefusal::Path.message(),
        "websocket path does not match the configured listener"
    );
    assert_eq!(
        UpgradeRefusal::Subprotocol.message(),
        "websocket upgrade requires the \"ssh\" subprotocol"
    );
    for offered in ["", "sshd", "ss h", "ssh2, xssh"] {
        assert!(validate_upgrade("/ssh", Some(offered), "/ssh").is_err(), "{offered}");
    }
}

#[test]
fn inbound_bytes_come_out_in_order() {
    let mut queue = InboundQueue::new();
    assert!(!queue.has_bytes());
    assert!(queue.read(8).is_empty());
    assert!(matches!(queue.deliver(Inbound::Binary(Bytes::from(vec![1, 2, 3]))), ReadStep::Again));
    // Empty payloads are skipped: a read of nothing would look like the end.
    assert!(matches!(queue.deliver(Inbound::Binary(Bytes::new())), ReadStep::Again));
    assert!(matches!(queue.deliver(Inbound::Control), ReadStep::Again));
    assert!(matches!(queue.deliver(Inbound::Binary(Bytes::from(vec![4, 5]))), ReadStep::Again));
    assert_eq!(queue.read(2), vec![1, 2]);
    assert_eq!(queue.read(8), vec![3]);
    assert_eq!(queue.read(0), Vec::<u8>::new());
    assert_eq!(queue.read(2), vec![4, 5]);
    assert!(!queue.has_bytes());
}

#[test]
fn frames_other_than_binary_end_or_fail_the_stream() {
    let mut queue = InboundQueue::new();
    assert!(matches!(queue.deliver(Inbound::Pending), ReadStep::Wait));
    assert!(matches!(queue.deliver(Inbound::Gone), ReadStep::EndOfStream));
    assert!(matches!(queue.deliver(Inbound::Close), ReadStep::EndOfStream));
    let ReadStep::Fail { message } = queue.deliver(Inbound::Text) else {
        panic!("text frames are refused");
    };
    assert_eq!(message, "websocket text frames are not part of the SSH transport");
    let failed = Inbound::Failed { source: "reset".to_string() };
    let ReadStep::Fail { message } = queue.deliver(failed) else {
        panic!("failures are reported");
    };
    assert_eq!(message, "reset");
}

#[test]
fn outbound_messages_are_bounded() {
    assert_eq!(MAX_OUTBOUND_CHUNK, 256 * 1024);
    assert_eq!(outbound_chunk(0), 0);
    assert_eq!(outbound_chunk(1), 1);
    assert_eq!(outbound_chunk(MAX_OUTBOUND_CHUNK), MAX_OUTBOUND_CHUNK);
    assert_eq!(outbound_chunk(MAX_OUTBOUND_CHUNK + 1), MAX_OUTBOUND_CHUNK);
}
