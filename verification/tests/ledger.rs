use shbox::auth::KeyFingerprint;
use shbox::sandbox::storage::Stat;
use shbox::sandbox::subid::ledger::{
    classify_name, lease_id_of, new_lease_id, validate_lease_id, Error, LeaseStore, NameClass,
    RecordFact, LEASE_ID_HEX, MAX_RECORD_BYTES,
};
use shbox::sandbox::subid::{LeaseRecord, LeaseState};
use shbox::sandbox::SandboxId;

const EUID: u32 = 990;
const ROOT: &str = "/state/leases";

fn owner() -> KeyFingerprint {
    KeyFingerprint::parse(&format!("SHA256:{}", "A".repeat(43))).expect("owner")
}

fn record(state: LeaseState) -> LeaseRecord {
    LeaseRecord {
        lease_id: "a".repeat(LEASE_ID_HEX),
        sandbox_id: SandboxId::parse("dev").expect("id"),
        owner: owner(),
        uid: 100_000,
        gid: 200_000,
        state,
        quarantine_reason: None,
    }
}

fn directory(mode: u32) -> Stat {
    Stat { mode: 0o040000 | mode, uid: EUID }
}

fn regular() -> Stat {
    Stat { mode: 0o100600, uid: EUID }
}

fn store() -> LeaseStore {
    LeaseStore::open(ROOT, directory(0o700), regular(), EUID).expect("open")
}

fn fact(name: &str, bytes: &[u8]) -> RecordFact {
    RecordFact {
        name: name.to_string(),
        stat: Ok(regular()),
        bytes: Ok(bytes.to_vec()),
    }
}

fn written(record: &LeaseRecord) -> RecordFact {
    fact(&record.file_name(), record.encode().as_bytes())
}

#[test]
fn round_trips_in_deterministic_field_order() {
    let record = record(LeaseState::Reserved);
    let encoded = record.encode();
    assert_eq!(
        encoded,
        "version = 1\nlease_id = \"aaaaaaaaaaaaaaaaaaaaaaaaaaaaaaaa\"\nsandbox_id = \"dev\"\nowner = \"SHA256:AAAAAAAAAAAAAAAAAAAAAAAAAAAAAAAAAAAAAAAAAAA\"\nuid = 100000\ngid = 200000\nstate = \"reserved\"\n"
    );
    assert_eq!(
        LeaseRecord::decode(encoded.as_bytes(), &record.lease_id).expect("decode"),
        record
    );
}

#[test]
fn rejects_unknown_fields_bad_values_and_mismatched_ids() {
    let record = record(LeaseState::Active);
    let base = record.encode();
    for invalid in [
        format!("{base}extra = true\n"),
        base.replace("version = 1", "version = 2"),
        base.replace("state = \"active\"", "state = \"free\""),
        base.replace("uid = 100000", "uid = 0"),
        base.replace("gid = 200000", "gid = 0"),
        base.replace("sandbox_id = \"dev\"", "sandbox_id = \"../dev\""),
        format!("{base}uid = 100001\n"),
    ] {
        assert!(
            LeaseRecord::decode(invalid.as_bytes(), &record.lease_id).is_err(),
            "{invalid}"
        );
    }
    assert!(matches!(
        LeaseRecord::decode(base.as_bytes(), &"b".repeat(LEASE_ID_HEX)),
        Err(Error::MismatchedLeaseId { .. })
    ));
    assert!(matches!(
        LeaseRecord::decode(base.as_bytes(), &"g".repeat(LEASE_ID_HEX)),
        Err(Error::InvalidLeaseId(_))
    ));
}

#[test]
fn each_rejection_has_its_error() {
    let record = record(LeaseState::Active);
    let base = record.encode();
    let decode = |text: &str| {
        LeaseRecord::decode(text.as_bytes(), &"a".repeat(LEASE_ID_HEX)).expect_err("rejected")
    };
    assert!(matches!(
        decode(&base.replace("version = 1", "version = 2")),
        Error::UnsupportedVersion(2)
    ));
    assert!(matches!(
        decode(&base.replace("\"active\"", "\"free\"")),
        Error::InvalidState(state) if state == "free"
    ));
    assert!(matches!(decode(&base.replace("uid = 100000", "uid = 0")), Error::ZeroId));
    assert!(matches!(
        decode(&base.replace("\"dev\"", "\"../dev\"")),
        Error::InvalidSandboxId { .. }
    ));
    assert!(matches!(
        decode(&base.replace("SHA256:A", "SHA256:")),
        Error::InvalidOwner { .. }
    ));
    assert!(matches!(decode("version = "), Error::Toml(_)));
    assert!(matches!(decode(&base.replace("gid = 200000\n", "")), Error::Toml(_)));
    assert!(matches!(decode(&base.replace("gid = 200000", "gid = -1")), Error::Toml(_)));
    assert!(matches!(
        decode(&base.replace("gid = 200000", "gid = 4294967296")),
        Error::Toml(_)
    ));
    assert!(matches!(
        decode(&format!("{base}quarantine_reason = \"held\"\n")),
        Error::InvalidQuarantineReason
    ));
    let long = format!("{base}# {}\n", "x".repeat(MAX_RECORD_BYTES));
    assert!(matches!(decode(&long), Error::TooLarge(_)));
    assert!(matches!(
        LeaseRecord::decode(&[0xff], &"a".repeat(LEASE_ID_HEX)),
        Err(Error::NotUtf8)
    ));
}

#[test]
fn lease_ids_are_32_lowercase_hex_characters() {
    let id = new_lease_id();
    assert_eq!(id.len(), LEASE_ID_HEX);
    assert!(validate_lease_id(&id).is_ok());
    // 128 random bits: collisions are not a concern, distinct draws are.
    assert_ne!(new_lease_id(), new_lease_id());
    assert_eq!(lease_id_of(0xdead_beef), "000000000000000000000000deadbeef");
    for bad in [
        String::new(),
        "A".repeat(LEASE_ID_HEX), // uppercase
        "g".repeat(LEASE_ID_HEX), // outside hex
        "a".repeat(LEASE_ID_HEX - 1),
        "a".repeat(LEASE_ID_HEX + 1),
        format!("{}.toml", "a".repeat(LEASE_ID_HEX)),
    ] {
        assert!(validate_lease_id(&bad).is_err(), "{bad}");
    }
}

#[test]
fn store_write_load_and_remove_round_trip() {
    let store = store();
    let record = record(LeaseState::Active);
    assert_eq!(
        store.load(vec![written(&record)]).expect("load"),
        vec![record.with_state(LeaseState::Active)]
    );
    assert_eq!(store.read_named(written(&record)).expect("read"), record);
    store.unlinked(&record.lease_id, false, None).expect("remove");
    assert!(store.load(Vec::new()).expect("load").is_empty());
}

#[test]
fn quarantine_reason_round_trips() {
    let record = record(LeaseState::Active).with_quarantine_reason("owner mismatch during startup");
    assert_eq!(record.state, LeaseState::Quarantined);
    let encoded = record.encode();
    assert_eq!(
        LeaseRecord::decode(encoded.as_bytes(), &record.lease_id).expect("decode"),
        record
    );
    let quoted = record.with_quarantine_reason("said \"no\"\\\nand \tleft");
    assert_eq!(
        LeaseRecord::decode(quoted.encode().as_bytes(), &quoted.lease_id).expect("decode"),
        quoted
    );
}

#[test]
fn store_revalidates_directory_mode_on_each_open() {
    let unsafe_mode = LeaseStore::open(ROOT, directory(0o770), regular(), EUID);
    assert!(matches!(
        unsafe_mode,
        Err(Error::UnsafeDirectory(_, reason)) if reason == "group or world writable"
    ));
    assert!(LeaseStore::open(ROOT, Stat { mode: 0o040700, uid: 1 }, regular(), EUID).is_err());
    assert!(LeaseStore::open(ROOT, regular(), regular(), EUID).is_err());
}

#[test]
fn store_rejects_unexpected_files_and_corrupt_records() {
    let store = store();
    let record = record(LeaseState::Active);
    assert!(matches!(
        store.load(vec![written(&record), fact("not-a-lease.toml", b"version = 1\n")]),
        Err(Error::UnknownFileName(name)) if name == "not-a-lease.toml"
    ));
    // A corrupt record body fails closed.
    assert!(matches!(
        store.load(vec![fact(&record.file_name(), b"version = 1\n")]),
        Err(Error::CorruptRecord { .. })
    ));
    let mut link = written(&record);
    link.stat = Ok(Stat { mode: 0o120777, uid: EUID });
    assert!(store.load(vec![link]).is_err());
}

#[test]
fn ledger_lock_excludes_a_second_store_and_is_skipped_by_the_scan() {
    let store = store();
    // The lock file is not a lease record and never trips the scan.
    let lock = ".lease.lock";
    assert!(matches!(classify_name(lock), NameClass::Lock));
    assert!(store.load(vec![fact(lock, b"")]).expect("load").is_empty());
    // Neither does the temp file of a crashed writer.
    let temp = store.temp_name(4711, 3);
    assert!(store.is_stale_temp(&temp));
    assert!(!store.is_stale_temp(lock));
    assert!(store.load(vec![fact(&temp, b"version")]).expect("load").is_empty());
}

#[test]
fn remove_reports_missing_records_instead_of_succeeding() {
    let store = store();
    assert!(matches!(
        store.unlinked(&"c".repeat(LEASE_ID_HEX), true, Some("ENOENT".to_string())),
        Err(Error::MissingRecord(_))
    ));
    assert!(matches!(
        store.unlinked(&"c".repeat(LEASE_ID_HEX), false, Some("EACCES".to_string())),
        Err(Error::Io { source, .. }) if source == "EACCES"
    ));
}

#[test]
fn file_names_read_back() {
    let record = record(LeaseState::Active);
    assert_eq!(record.file_name(), format!("{}.toml", record.lease_id));
    assert!(matches!(
        classify_name(&record.file_name()),
        NameClass::Record { lease_id } if lease_id == record.lease_id
    ));
    assert!(matches!(classify_name("A.toml"), NameClass::Unknown));
}

#[test]
fn records_are_listed_in_order() {
    let store = store();
    let mut facts = Vec::new();
    for id in ["c", "a", "b"] {
        let mut entry = record(LeaseState::Active);
        entry.lease_id = id.repeat(LEASE_ID_HEX);
        facts.push(written(&entry));
    }
    let loaded = store.load(facts).expect("load");
    let first: Vec<char> = loaded
        .iter()
        .map(|entry| entry.lease_id.chars().next().expect("a character"))
        .collect();
    assert_eq!(first, ['a', 'b', 'c']);
}

#[test]
fn any_quarantine_reason_reads_back() {
    let mut everything: String = (0..0x300).filter_map(char::from_u32).collect();
    everything.push_str("\u{feff}\u{200b}\u{2028}\u{e000}\u{10ffff}");
    for reason in [
        everything.as_str(),
        "",
        "\u{0}",
        "say \"no\"\\n",
        "\"\"\"",
        "a = 1\nb = 2\r\n",
        "\u{1b}[0m\u{7f}\u{8}\u{c}",
    ] {
        let record = record(LeaseState::Active).with_quarantine_reason(reason);
        let encoded = record.encode();
        assert!(encoded.len() <= MAX_RECORD_BYTES);
        assert_eq!(
            LeaseRecord::decode(encoded.as_bytes(), &record.lease_id).expect("decode"),
            record,
            "{reason:?}"
        );
        assert!(matches!(
            LeaseRecord::decode(encoded.as_bytes(), &"b".repeat(LEASE_ID_HEX)),
            Err(Error::MismatchedLeaseId { expected, found })
                if expected == "b".repeat(LEASE_ID_HEX) && found == record.lease_id
        ));
    }
    let escaped = record(LeaseState::Active).with_quarantine_reason("\u{1}\t\u{7f}\u{e9}").encode();
    assert!(escaped.ends_with("quarantine_reason = \"\\u0001\\t\\u007f\u{e9}\"\n"), "{escaped}");
}

#[test]
fn single_records_are_read_by_their_id() {
    let record = record(LeaseState::Active);
    let found = Some((Ok(regular()), Ok(record.encode().into_bytes())));
    assert_eq!(store().read(&record.lease_id, found).expect("read"), Some(record));
    assert!(store().read(&"a".repeat(LEASE_ID_HEX), None).expect("absent").is_none());
    assert!(matches!(store().read("../dev", None), Err(Error::InvalidLeaseId(_))));
    let unreadable = Some((Err("EACCES".to_string()), Ok(Vec::new())));
    assert!(matches!(
        store().read(&"a".repeat(LEASE_ID_HEX), unreadable),
        Err(Error::Io { .. })
    ));
    let corrupt = Some((Ok(regular()), Ok(b"state = 1".to_vec())));
    assert!(matches!(
        store().read(&"a".repeat(LEASE_ID_HEX), corrupt),
        Err(Error::CorruptRecord { .. })
    ));
}
