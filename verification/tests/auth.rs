use shbox::auth::fingerprint::{base64_value, decode_sha256_base64};
use shbox::auth::source::{
    accept_key_source, parse_key_source, read_key_source, resolve_authorized_keys_path,
    validate_key_source_file, ParentFacts, ParentLink, ParentTarget, ReadFailure, SourceStat,
    MAX_AUTHORIZED_KEYS_BYTES,
};
use shbox::auth::{
    AuthSnapshot, Error, FileIdentity, FingerprintError, KeyFingerprint, KeyStore, PublicKey,
    RefreshOutcome, Role, SourceIdentities,
};
use std::cell::RefCell;

const EUID: u32 = 990;
const HOST: &str = "/home/shbox/.ssh/authorized_keys";
const ALLOWED: &str = "/home/shbox/config/allowed_keys";
const ALPHABET: &[u8; 64] = b"ABCDEFGHIJKLMNOPQRSTUVWXYZabcdefghijklmnopqrstuvwxyz0123456789+/";

/// A key-source file: content, mode, and the time of its last change.
#[derive(Clone)]
struct File {
    content: Vec<u8>,
    mode: u32,
    changed: i64,
}

/// The two key sources of a daemon, below private directories.
struct Home {
    host: RefCell<Option<File>>,
    allowed: RefCell<Option<File>>,
    parent_mode: RefCell<u32>,
    clock: RefCell<i64>,
}

impl Home {
    fn new() -> Home {
        Home {
            host: RefCell::new(None),
            allowed: RefCell::new(None),
            parent_mode: RefCell::new(0o040700),
            clock: RefCell::new(0),
        }
    }

    fn tick(&self) -> i64 {
        *self.clock.borrow_mut() += 1;
        *self.clock.borrow()
    }

    fn write(&self, slot: &RefCell<Option<File>>, content: &str) {
        let changed = self.tick();
        *slot.borrow_mut() = Some(File {
            content: content.as_bytes().to_vec(),
            mode: 0o100600,
            changed,
        });
    }

    fn chmod(&self, slot: &RefCell<Option<File>>, mode: u32) {
        let changed = self.tick();
        let mut file = slot.borrow().clone().expect("a file");
        file.mode = mode;
        file.changed = changed;
        *slot.borrow_mut() = Some(file);
    }

    fn identity(slot: &RefCell<Option<File>>, ino: u64) -> FileIdentity {
        match &*slot.borrow() {
            None => FileIdentity::Absent,
            Some(file) => FileIdentity::Inode {
                dev: 1,
                ino,
                ctime_ns: file.changed,
                mode: file.mode,
                size: file.content.len() as u64,
            },
        }
    }

    fn identities(&self) -> SourceIdentities {
        SourceIdentities {
            host: Home::identity(&self.host, 10),
            allowed: Home::identity(&self.allowed, 11),
        }
    }

    fn stat(slot: &RefCell<Option<File>>) -> SourceStat {
        match &*slot.borrow() {
            None => SourceStat::Missing,
            Some(file) => SourceStat::Found {
                is_file: true,
                len: file.content.len() as u64,
                uid: EUID,
                mode: file.mode,
            },
        }
    }

    fn parents(&self) -> Vec<ParentFacts> {
        let facts = |path: &str, mode: u32, uid: u32| ParentFacts {
            path: path.to_string(),
            link: ParentLink::Found { is_symlink: false },
            target: ParentTarget::Found { is_dir: true, mode, uid },
        };
        vec![
            facts("/home/shbox", *self.parent_mode.borrow(), EUID),
            facts("/home", 0o040755, 0),
            facts("/", 0o040755, 0),
        ]
    }

    fn read(&self, path: &str, name: &str, slot: &RefCell<Option<File>>) -> Result<Option<Vec<u8>>, Error> {
        read_key_source(path, name, &Home::stat(slot), &self.parents(), EUID, || {
            Ok(slot.borrow().clone().expect("a file").content)
        })
    }

    fn snapshot(&self) -> Result<AuthSnapshot, Error> {
        AuthSnapshot::load(
            HOST,
            self.read(HOST, "authorized_keys", &self.host),
            ALLOWED,
            self.read(ALLOWED, "allowed_keys", &self.allowed),
        )
    }

    fn store(&self) -> Result<KeyStore, Error> {
        KeyStore::load(self.snapshot(), self.identities())
    }

    fn refresh(&self, store: &mut KeyStore) -> Result<RefreshOutcome, Error> {
        store.refresh_if_changed(self.identities(), || self.snapshot())
    }
}

/// Generate a fresh Ed25519 keypair and return the authorized-keys line plus
/// its fingerprint.
fn generated_key() -> (String, String) {
    let key = russh::keys::PrivateKey::random(&mut rand::rng(), russh::keys::Algorithm::Ed25519)
        .expect("generate");
    let line = key.public_key().to_openssh().expect("encode");
    let fingerprint = key
        .public_key()
        .fingerprint(russh::keys::HashAlg::Sha256)
        .to_string();
    (line, fingerprint)
}

fn parsed(line: &str) -> PublicKey {
    PublicKey::from_openssh(line).expect("parse")
}

/// Assert a refresh succeeded with the expected outcome.
fn expect_outcome(result: Result<RefreshOutcome, Error>, expected: RefreshOutcome) {
    assert_eq!(result.expect("refresh must succeed"), expected);
}

#[test]
fn parses_bare_authorized_keys() {
    let (line_a, fp_a) = generated_key();
    let (line_b, fp_b) = generated_key();
    let text = format!("\n# comment\n{line_a}\n\n{line_b} extra comment here\n");
    let parsed = AuthSnapshot::parse_authorized_keys(text.as_bytes()).expect("parse");
    assert_eq!(parsed.len(), 2);
    assert_eq!(parsed[0].fingerprint.as_str(), fp_a);
    assert_eq!(parsed[1].fingerprint.as_str(), fp_b);
}

#[test]
fn rejects_options_certificates_and_other_algorithms() {
    let (line, _) = generated_key();
    let blob = line.split_whitespace().nth(1).unwrap().to_string();
    for bad in [
        format!("restrict {line}"),
        format!("command=\"sh\",pty {line}"),
        format!("ssh-ed25519-cert-v01@openssh.com {blob}"),
        format!("ssh-rsa {blob}"),
        format!("ecdsa-sha2-nistp256 {blob}"),
        "ssh-ed25519 not-base64!!".to_string(),
        "ssh-ed25519".to_string(),
    ] {
        let err = AuthSnapshot::parse_authorized_keys(bad.as_bytes()).expect_err(&bad);
        assert!(!err.message().is_empty());
    }
}

#[test]
fn rejects_duplicates_empty_and_oversized_lines() {
    let (line, _) = generated_key();
    assert!(AuthSnapshot::parse_authorized_keys(b"").is_err());
    let duplicate = format!("{line}\n{line}\n");
    assert!(AuthSnapshot::parse_authorized_keys(duplicate.as_bytes()).is_err());
    let long_line = format!("ssh-ed25519 {} x\n", "A".repeat(9 * 1024));
    assert!(AuthSnapshot::parse_authorized_keys(long_line.as_bytes()).is_err());
}

#[test]
fn key_sources_have_to_be_text() {
    let error = parse_key_source(&[b'#', 0xff, b'\n'], "/keys", true).expect_err("not text");
    assert!(matches!(error, Error::Invalid { path, .. } if path == "/keys"));
    assert!(parse_key_source(b"# only a comment\n", "/keys", true).expect("empty").is_empty());
    assert!(parse_key_source(b"# only a comment\n", "/keys", false).is_err());
}

#[test]
fn snapshot_load_two_sources_roles_and_overlap() {
    let home = Home::new();
    let (line_a, fp_a) = generated_key();
    let (line_b, fp_b) = generated_key();
    let (key_a, key_b) = (parsed(&line_a), parsed(&line_b));
    // host has key_a; allowed has key_b AND key_a (overlap)
    home.write(&home.host, &format!("{line_a}\n"));
    home.write(&home.allowed, &format!("{line_b}\n{line_a}\n"));

    let snapshot = home.snapshot().expect("load");
    assert_eq!(snapshot.keys().len(), 2);
    assert_eq!(snapshot.admin_count(), 1);
    let principal_a = snapshot.authenticate(&key_a).expect("auth key_a");
    assert_eq!(principal_a.fingerprint.as_str(), fp_a);
    assert_eq!(principal_a.role, Role::Admin);
    let principal_b = snapshot.authenticate(&key_b).expect("auth key_b");
    assert_eq!(principal_b.fingerprint.as_str(), fp_b);
    assert_eq!(principal_b.role, Role::Normal);
}

#[test]
fn snapshot_load_rejects_duplicates_within_single_source() {
    let home = Home::new();
    let (line_a, _) = generated_key();
    let (line_b, _) = generated_key();

    // Duplicate in host file
    home.write(&home.host, &format!("{line_a}\n{line_a}\n"));
    home.write(&home.allowed, &format!("{line_b}\n"));
    let message = home.snapshot().expect_err("dup host").message();
    assert!(message.contains(HOST), "{message}");
    assert!(message.contains("duplicates an earlier key"), "{message}");

    // Duplicate in allowed file
    home.write(&home.host, &format!("{line_a}\n"));
    home.write(&home.allowed, &format!("{line_b}\n{line_b}\n"));
    let message = home.snapshot().expect_err("dup allowed").message();
    assert!(message.contains(ALLOWED), "{message}");
    assert!(message.contains("duplicates an earlier key"), "{message}");
}

#[test]
fn snapshot_load_missing_and_empty_sources() {
    let (line_a, fp_a) = generated_key();
    let (line_b, fp_b) = generated_key();
    let (key_a, key_b) = (parsed(&line_a), parsed(&line_b));
    let with = |host: Option<&str>, allowed: Option<&str>| {
        let home = Home::new();
        if let Some(content) = host {
            home.write(&home.host, content);
        }
        if let Some(content) = allowed {
            home.write(&home.allowed, content);
        }
        home.snapshot()
    };
    let host = format!("{line_a}\n");
    let allowed = format!("{line_b}\n");

    // Missing host + valid allowed
    let snapshot = with(None, Some(&allowed)).expect("missing host");
    assert_eq!(snapshot.admin_count(), 0);
    assert_eq!(snapshot.authenticate(&key_b).unwrap().role, Role::Normal);
    assert_eq!(snapshot.keys()[0].fingerprint.as_str(), fp_b);

    // Empty host + valid allowed
    let snapshot = with(Some(""), Some(&allowed)).expect("empty host");
    assert_eq!(snapshot.admin_count(), 0);
    assert_eq!(snapshot.authenticate(&key_b).unwrap().role, Role::Normal);

    // Valid host + missing allowed
    let snapshot = with(Some(&host), None).expect("missing allowed");
    assert_eq!(snapshot.admin_count(), 1);
    assert_eq!(snapshot.authenticate(&key_a).unwrap().role, Role::Admin);
    assert_eq!(snapshot.keys()[0].fingerprint.as_str(), fp_a);

    // Valid host + empty allowed
    let snapshot = with(Some(&host), Some("")).expect("empty allowed");
    assert_eq!(snapshot.admin_count(), 1);
    assert_eq!(snapshot.authenticate(&key_a).unwrap().role, Role::Admin);

    // Both missing, both empty, both comment-only -> empty snapshot error
    for (host, allowed) in [
        (None, None),
        (Some(""), Some("")),
        (Some("# comment only\n\n"), Some("# another comment\n")),
    ] {
        let err = with(host, allowed).expect_err("nothing");
        assert!(matches!(err, Error::EmptyAuthSnapshot { .. }), "{}", err.message());
    }
}

#[test]
fn snapshot_load_fails_on_any_malformed_or_unsafe_source() {
    let home = Home::new();
    let (line_a, _) = generated_key();
    let (line_b, _) = generated_key();

    // Host valid, allowed malformed -> error specifies allowed path
    home.write(&home.host, &format!("{line_a}\n"));
    home.write(&home.allowed, "not-a-valid-key\n");
    let message = home.snapshot().expect_err("malformed allowed").message();
    assert!(message.contains(ALLOWED), "{message}");

    // Host malformed, allowed valid -> error specifies host path
    home.write(&home.host, "not-a-valid-key\n");
    home.write(&home.allowed, &format!("{line_b}\n"));
    let message = home.snapshot().expect_err("malformed host").message();
    assert!(message.contains(HOST), "{message}");
}

#[test]
fn authenticate_rejects_unknown_keys() {
    let home = Home::new();
    let (line_a, fp_a) = generated_key();
    home.write(&home.host, &line_a);
    let snapshot = home.snapshot().expect("load");
    let (foreign_line, _) = generated_key();
    assert!(snapshot.authenticate(&parsed(&foreign_line)).is_none());
    assert_eq!(snapshot.keys()[0].fingerprint.as_str(), fp_a);
}

/// Encode bytes as canonical unpadded standard base64 (test-local, so the
/// parser is checked against an independent implementation).
fn encode_unpadded(bytes: &[u8]) -> String {
    let mut out = String::new();
    for chunk in bytes.chunks(3) {
        let b0 = chunk[0] as u32;
        let b1 = *chunk.get(1).unwrap_or(&0) as u32;
        let b2 = *chunk.get(2).unwrap_or(&0) as u32;
        let n = (b0 << 16) | (b1 << 8) | b2;
        out.push(ALPHABET[(n >> 18) as usize & 63] as char);
        out.push(ALPHABET[(n >> 12) as usize & 63] as char);
        if chunk.len() > 1 {
            out.push(ALPHABET[(n >> 6) as usize & 63] as char);
        }
        if chunk.len() > 2 {
            out.push(ALPHABET[n as usize & 63] as char);
        }
    }
    out
}

/// Digests that cover each bit pattern of a byte.
fn digests() -> Vec<Vec<u8>> {
    let mut all = Vec::new();
    let mut state = 0x9e3779b97f4a7c15u64;
    for _ in 0..64 {
        let mut digest = Vec::new();
        for _ in 0..32 {
            state = state.wrapping_mul(6364136223846793005).wrapping_add(1442695040888963407);
            digest.push((state >> 56) as u8);
        }
        all.push(digest);
    }
    all
}

#[test]
fn accepts_canonical_fingerprints() {
    let digest = [0u8; 32];
    let raw = format!("SHA256:{}", encode_unpadded(&digest));
    let parsed = KeyFingerprint::parse(&raw).expect("parse");
    assert_eq!(parsed.as_str(), raw);
    assert_eq!(raw.len(), 7 + 43);
}

#[test]
fn rejects_common_malformations() {
    let good = format!("SHA256:{}", encode_unpadded(&[7u8; 32]));
    assert_eq!(KeyFingerprint::parse(&good[1..]), Err(FingerprintError::MissingPrefix));
    assert_eq!(KeyFingerprint::parse(""), Err(FingerprintError::MissingPrefix));
    // Wrong body length.
    assert_eq!(
        KeyFingerprint::parse(&format!("SHA256:{}", &good[7..42])),
        Err(FingerprintError::BadLength(35))
    );
    // Padded input is rejected.
    let mut padded = good;
    padded.push('=');
    assert_eq!(KeyFingerprint::parse(&padded), Err(FingerprintError::BadLength(44)));
    // Invalid character.
    assert_eq!(
        KeyFingerprint::parse(&format!("SHA256:{}", "-".repeat(43))),
        Err(FingerprintError::InvalidCharacter(0, b'-'))
    );
}

#[test]
fn rejects_non_zero_trailing_bits() {
    // The canonical encoding of 32 bytes has two zero padding bits in its final
    // character. Take a canonical body, replace the last character with one
    // whose low two bits are non-zero, and the parser must reject it as
    // non-canonical rather than silently reinterpreting the digest.
    let body = encode_unpadded(&[0x0au8; 32]);
    assert_eq!(body.len(), 43);
    let mut chars: Vec<u8> = body.bytes().collect();
    assert_eq!(base64_value(chars[42]).unwrap() & 0b11, 0);
    let replacement = *ALPHABET
        .iter()
        .find(|&&c| base64_value(c).unwrap() & 0b11 != 0)
        .expect("alphabet contains characters with non-zero low bits");
    chars[42] = replacement;
    let mutated = format!("SHA256:{}", String::from_utf8(chars).expect("ascii"));
    assert_eq!(KeyFingerprint::parse(&mutated), Err(FingerprintError::NonCanonical));
}

#[test]
fn round_trips_arbitrary_digests() {
    for digest in digests() {
        let body = encode_unpadded(&digest);
        let raw = format!("SHA256:{body}");
        let parsed = KeyFingerprint::parse(&raw).expect("canonical encoding parses");
        assert_eq!(parsed.as_str(), raw);
        assert_eq!(decode_sha256_base64(&body).expect("canonical").to_vec(), digest);
    }
}

#[test]
fn single_character_mutations_never_change_identity() {
    for (turn, seed) in digests().into_iter().enumerate() {
        let index = turn % 43;
        let raw = format!("SHA256:{}", encode_unpadded(&seed));
        let mut chars: Vec<u8> = raw[7..].bytes().collect();
        let replacement = (0..64u8)
            .map(|i| ALPHABET[i as usize])
            .find(|&c| c != chars[index])
            .expect("alphabet has 64 characters");
        chars[index] = replacement;
        let mutated = format!("SHA256:{}", String::from_utf8(chars).expect("ascii"));
        match KeyFingerprint::parse(&mutated) {
            // Rejected input never becomes a valid fingerprint...
            Err(_) => {}
            // ...and accepted input still identifies the mutated digest, never
            // the original one.
            Ok(parsed) => assert_ne!(parsed.as_str(), raw),
        }
    }
}

#[test]
fn validates_key_source_file_safety() {
    let home = Home::new();
    let validate = || validate_key_source_file(HOST, "test_keys", &Home::stat(&home.host), &home.parents(), EUID);
    // Missing -> returns Ok(false)
    assert!(!validate().unwrap());
    // Valid.
    home.write(&home.host, "ssh-ed25519 AAAA test\n");
    assert!(validate().unwrap());
    // Group writable -> Err(Invalid)
    home.chmod(&home.host, 0o100620);
    assert!(matches!(validate(), Err(Error::Invalid { .. })));
}

#[test]
fn rejects_oversized_key_source_file() {
    let home = Home::new();
    home.write(&home.host, &"ssh-ed25519 AAAA test\n".repeat(48 * 1024));
    assert!(matches!(
        validate_key_source_file(HOST, "test_keys", &Home::stat(&home.host), &home.parents(), EUID),
        Err(Error::Invalid { .. })
    ));
    // A file that grew after it was inspected is refused, too.
    let grown = vec![b'#'; MAX_AUTHORIZED_KEYS_BYTES as usize + 1];
    assert!(matches!(
        accept_key_source(HOST, "test_keys", Ok(grown)),
        Err(Error::Invalid { .. })
    ));
    for failure in [
        ReadFailure::Open { source: "EACCES".to_string() },
        ReadFailure::Read { source: "EACCES".to_string() },
    ] {
        assert!(matches!(
            accept_key_source(HOST, "test_keys", Err(failure)),
            Err(Error::Io { source, .. }) if source == "EACCES"
        ));
    }
}

#[test]
fn resolves_authorized_keys_default_path() {
    let default = resolve_authorized_keys_path(Ok("/home/shbox".to_string())).expect("default");
    assert_eq!(default, "/home/shbox/.ssh/authorized_keys");
    assert!(matches!(
        resolve_authorized_keys_path(Err("HOME is not set".to_string())),
        Err(Error::Home { .. })
    ));
}

#[test]
fn identity_distinguishes_absent_present_and_rewrites() {
    let home = Home::new();
    assert_eq!(home.identities().host, FileIdentity::Absent);
    let (line, _) = generated_key();
    home.write(&home.host, &format!("{line}\n"));
    let mut store = home.store().expect("load");
    let present = home.identities();
    assert!(!store.refresh_due(present));
    // A permission-only change moves ctime but not mtime; the identity must
    // still change so the next request re-runs the safety checks.
    home.chmod(&home.host, 0o100700);
    assert_ne!(home.identities(), present);
    assert!(store.refresh_due(home.identities()));
    expect_outcome(home.refresh(&mut store), RefreshOutcome::Reloaded);
    *home.host.borrow_mut() = None;
    assert_eq!(home.identities().host, FileIdentity::Absent);
    assert!(store.refresh_due(home.identities()));
}

#[test]
fn store_load_is_fail_closed_on_malformed_source() {
    let home = Home::new();
    let (line_a, _) = generated_key();
    // Malformed source.
    home.write(&home.host, &format!("{line_a}\n"));
    home.write(&home.allowed, "garbage\n");
    assert!(home.store().is_err());
    // Unsafe permissions.
    home.write(&home.allowed, &format!("{line_a}\n"));
    home.chmod(&home.allowed, 0o100664);
    assert!(home.store().is_err());
    // Empty union (both sources absent).
    *home.allowed.borrow_mut() = None;
    *home.host.borrow_mut() = None;
    assert!(matches!(home.store(), Err(Error::EmptyAuthSnapshot { .. })));
}

#[test]
fn store_refresh_rejects_and_keeps_previous_snapshot() {
    let home = Home::new();
    let (line_a, fp_a) = generated_key();
    let (line_b, _) = generated_key();
    let (key_a, key_b) = (parsed(&line_a), parsed(&line_b));
    home.write(&home.host, &format!("{line_a}\n"));
    let mut store = home.store().expect("load");
    assert_eq!(
        store.snapshot().authenticate(&key_a).expect("auth a").fingerprint.as_str(),
        fp_a
    );

    // A malformed allowed_keys must not publish anything.
    home.write(&home.allowed, "garbage\n");
    assert!(home.refresh(&mut store).is_err());
    assert!(store.snapshot().authenticate(&key_a).is_some());
    assert!(store.snapshot().authenticate(&key_b).is_none());

    // Fixing the file publishes on the next check.
    home.write(&home.allowed, &format!("{line_b}\n"));
    expect_outcome(home.refresh(&mut store), RefreshOutcome::Reloaded);
    assert!(store.snapshot().authenticate(&key_b).is_some());
}

#[test]
fn store_rejects_empty_union_and_keeps_previous() {
    let home = Home::new();
    let (line_a, _) = generated_key();
    let (line_b, _) = generated_key();
    let key_a = parsed(&line_a);
    home.write(&home.host, &format!("{line_a}\n"));
    home.write(&home.allowed, &format!("{line_b}\n"));
    let mut store = home.store().expect("load");
    // Truncating both sources empties the union; the refresh is rejected and
    // the previous snapshot keeps serving.
    home.write(&home.host, "");
    home.write(&home.allowed, "");
    assert!(matches!(home.refresh(&mut store), Err(Error::EmptyAuthSnapshot { .. })));
    assert!(store.snapshot().authenticate(&key_a).is_some());
}

#[test]
fn store_caches_the_failed_identity_until_the_file_changes() {
    let home = Home::new();
    let (line_a, _) = generated_key();
    let (line_b, _) = generated_key();
    let key_b = parsed(&line_b);
    home.write(&home.host, &format!("{line_a}\n"));
    let mut store = home.store().expect("load");
    // A stable broken file is parsed exactly once, not once per request.
    home.write(&home.allowed, "garbage\n");
    assert!(home.refresh(&mut store).is_err());
    expect_outcome(home.refresh(&mut store), RefreshOutcome::Unchanged);
    assert_eq!(store.load_count(), 2);
    // The next on-disk change retries the parse and applies it.
    home.write(&home.allowed, &format!("{line_b}\n"));
    expect_outcome(home.refresh(&mut store), RefreshOutcome::Reloaded);
    assert!(store.snapshot().authenticate(&key_b).is_some());
    assert_eq!(store.load_count(), 3);
}

#[test]
fn store_caches_identities_for_both_sources_on_failure() {
    let home = Home::new();
    let (line_a, _) = generated_key();
    let (line_b, _) = generated_key();
    let (line_c, _) = generated_key();
    let key_c = parsed(&line_c);
    home.write(&home.host, &format!("{line_a}\n"));
    home.write(&home.allowed, &format!("{line_b}\n"));
    let mut store = home.store().expect("load");
    // A valid host change plus a malformed allowed change rejects whole.
    home.write(&home.host, &format!("{line_c}\n"));
    home.write(&home.allowed, "garbage\n");
    assert!(home.refresh(&mut store).is_err());
    expect_outcome(home.refresh(&mut store), RefreshOutcome::Unchanged);
    // Fixing the malformed source publishes both changes at once.
    home.write(&home.allowed, &format!("{line_b}\n"));
    expect_outcome(home.refresh(&mut store), RefreshOutcome::Reloaded);
    assert!(store.snapshot().authenticate(&key_c).is_some());
}

#[test]
fn store_invalidate_forces_one_revalidation() {
    let home = Home::new();
    let (line_a, _) = generated_key();
    home.write(&home.host, &format!("{line_a}\n"));
    let mut store = home.store().expect("load");
    expect_outcome(home.refresh(&mut store), RefreshOutcome::Unchanged);
    store.invalidate();
    expect_outcome(home.refresh(&mut store), RefreshOutcome::Reloaded);
    expect_outcome(home.refresh(&mut store), RefreshOutcome::Unchanged);
    assert_eq!(store.load_count(), 2);
}

#[test]
fn store_deleted_file_is_a_change_and_may_be_rejected() {
    let home = Home::new();
    let (line_a, _) = generated_key();
    let (line_b, _) = generated_key();
    let (key_a, key_b) = (parsed(&line_a), parsed(&line_b));
    home.write(&home.host, &format!("{line_a}\n"));
    home.write(&home.allowed, &format!("{line_b}\n"));
    let mut store = home.store().expect("load");
    // Deleting the allowed source leaves a valid host-only snapshot.
    *home.allowed.borrow_mut() = None;
    expect_outcome(home.refresh(&mut store), RefreshOutcome::Reloaded);
    assert!(store.snapshot().authenticate(&key_a).is_some());
    assert!(store.snapshot().authenticate(&key_b).is_none());
    // Deleting the last source empties the union and is rejected, so the
    // previous snapshot keeps serving.
    *home.host.borrow_mut() = None;
    assert!(home.refresh(&mut store).is_err());
    assert!(store.snapshot().authenticate(&key_a).is_some());
}

#[test]
fn store_created_host_file_promotes_a_key_to_admin() {
    let home = Home::new();
    let (line_a, _) = generated_key();
    let key_a = parsed(&line_a);
    // Boot with the host source absent: the key starts as Normal.
    home.write(&home.allowed, &format!("{line_a}\n"));
    let mut store = home.store().expect("load");
    assert_eq!(store.snapshot().authenticate(&key_a).expect("auth").role, Role::Normal);
    // The host file appears later; the next check grants Admin.
    home.write(&home.host, &format!("{line_a}\n"));
    expect_outcome(home.refresh(&mut store), RefreshOutcome::Reloaded);
    assert_eq!(store.snapshot().authenticate(&key_a).expect("auth").role, Role::Admin);
    assert_eq!(store.admin_count(), 1);
}

#[test]
fn store_reports_unsafe_ancestor_on_forced_refresh() {
    let home = Home::new();
    let (line_a, _) = generated_key();
    let key_a = parsed(&line_a);
    home.write(&home.host, &format!("{line_a}\n"));
    let mut store = home.store().expect("load");
    // An ancestor mode change is invisible to a file-only stat identity: the
    // ordinary check stays Unchanged, and invalidation is what surfaces it.
    *home.parent_mode.borrow_mut() = 0o040770;
    expect_outcome(home.refresh(&mut store), RefreshOutcome::Unchanged);
    store.invalidate();
    let error = home.refresh(&mut store).expect_err("unsafe ancestor");
    assert!(error.message().contains("parent is group or world writable"));
    assert!(store.snapshot().authenticate(&key_a).is_some());
}

#[test]
fn failed_refreshes_still_authenticate_from_the_last_snapshot() {
    let home = Home::new();
    let (line_a, _) = generated_key();
    let key_a = parsed(&line_a);
    home.write(&home.host, &format!("{line_a}\n"));
    let mut store = home.store().expect("load");
    home.write(&home.host, "garbage\n");
    let (snapshot, outcome) = store.snapshot_for_auth(home.identities(), || home.snapshot());
    assert!(outcome.is_err());
    assert!(snapshot.authenticate(&key_a).is_some());
}

/// Duplicate detection stays order-stable on large key sets.
#[test]
fn parses_large_key_sets_in_file_order() {
    let keys: Vec<(String, String)> = (0..200).map(|_| generated_key()).collect();
    let text = keys
        .iter()
        .map(|(line, _)| line.as_str())
        .collect::<Vec<_>>()
        .join("\n");
    let parsed = AuthSnapshot::parse_authorized_keys(text.as_bytes()).expect("parse");
    assert_eq!(parsed.len(), keys.len());
    for (entry, (_, expected)) in parsed.iter().zip(keys.iter()) {
        assert_eq!(entry.fingerprint.as_str(), expected);
    }
    // A duplicate anywhere still invalidates the whole file.
    let duplicated = format!("{text}\n{}", keys[100].0);
    assert!(AuthSnapshot::parse_authorized_keys(duplicated.as_bytes()).is_err());
}

#[test]
fn only_ed25519_keys_authenticate() {
    let (line, fingerprint) = generated_key();
    let home = Home::new();
    home.write(&home.host, &line);
    let snapshot = home.snapshot().expect("load");
    assert!(parsed(&line).is_ed25519());
    let same_print = KeyFingerprint::parse(&fingerprint).expect("fingerprint");
    assert!(snapshot.authenticate(&PublicKey::new(false, same_print)).is_none());
    assert!(PublicKey::from_openssh("ssh-ed25519 AAAA").is_none());
}
