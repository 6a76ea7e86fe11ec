use shbox::auth::KeyFingerprint;
use shbox::sandbox::durable::{
    advance, create_active_steps, remove_tree_steps, replace_metadata_steps, Action, Command,
    FaultInjector, FaultPoint,
};
use shbox::sandbox::storage::{
    read_names, remove_child, DirectoryFacts, Entry, EntryStat, Error, Metadata, MetadataRead,
    OpenOutcome, Removal, ScanFact, Stat, State, Storage,
};
use shbox::sandbox::SandboxId;

const EUID: u32 = 990;

fn id(name: &str) -> SandboxId {
    SandboxId::parse(name).expect("id")
}

fn owner() -> KeyFingerprint {
    KeyFingerprint::parse(&format!("SHA256:{}", "A".repeat(43))).expect("owner")
}

fn storage() -> Storage {
    Storage::new("/data/sandboxes", Ok(())).expect("storage")
}

fn private_dir() -> Stat {
    Stat { mode: 0o040700, uid: EUID }
}

fn facts(name: &str, state: State) -> DirectoryFacts {
    DirectoryFacts {
        directory: Ok(private_dir()),
        names: Ok(vec![b"metadata.toml".to_vec(), b"workspace".to_vec()]),
        metadata_stat: EntryStat::Found(Stat { mode: 0o100600, uid: EUID }),
        metadata: MetadataRead::Decoded(Metadata::new(id(name), owner(), state)),
        workspace_stat: EntryStat::Found(private_dir()),
    }
}

#[test]
fn sandboxes_are_inspected_before_they_are_trusted() {
    let storage = storage();
    let inspect = |facts: DirectoryFacts| {
        storage.inspect(&id("dev"), OpenOutcome::Opened, facts, EUID).expect("inspected")
    };
    assert!(matches!(
        inspect(facts("dev", State::Active)),
        Entry::Active(metadata) if metadata.id().as_str() == "dev"
    ));
    assert!(matches!(inspect(facts("dev", State::Deleting)), Entry::Deleting(_)));
    let foreign = DirectoryFacts { directory: Ok(Stat { mode: 0o040700, uid: 1 }), ..facts("dev", State::Active) };
    assert!(matches!(inspect(foreign), Entry::Corrupt { .. }));
    let link = DirectoryFacts {
        workspace_stat: EntryStat::Found(Stat { mode: 0o120777, uid: EUID }),
        ..facts("dev", State::Active)
    };
    assert!(matches!(inspect(link), Entry::Corrupt { .. }));
    let undecodable = DirectoryFacts {
        metadata: MetadataRead::Undecodable { reason: "bad owner".to_string() },
        ..facts("dev", State::Active)
    };
    assert!(matches!(inspect(undecodable), Entry::Corrupt { reason } if reason.contains("bad owner")));
    // A deletion that was interrupted stays visible without its workspace.
    let gone = |state: State| DirectoryFacts {
        workspace_stat: EntryStat::Missing,
        ..facts("dev", state)
    };
    assert!(matches!(inspect(gone(State::Deleting)), Entry::Deleting(_)));
    assert!(matches!(
        inspect(gone(State::Active)),
        Entry::Corrupt { reason } if reason == "workspace is missing"
    ));
    let missing = OpenOutcome::Missing { source: "ENOENT".to_string() };
    assert!(matches!(
        storage.inspect(&id("dev"), missing, facts("dev", State::Active), EUID),
        Ok(Entry::Absent)
    ));
    assert!(matches!(
        storage.inspect(&id("dev"), OpenOutcome::Symlink, facts("dev", State::Active), EUID),
        Ok(Entry::Corrupt { .. })
    ));
}

#[test]
fn scans_list_sandboxes_and_count_the_rest() {
    let entry = |name: &str| ScanFact {
        name: name.as_bytes().to_vec(),
        opened: OpenOutcome::Opened,
        facts: facts("dev", State::Active),
    };
    let result = storage().scan(vec![entry("dev"), entry("../etc")], EUID).expect("scan");
    assert_eq!(result.entries.len(), 1);
    assert_eq!(result.entries[0].0.as_str(), "dev");
    assert_eq!(result.unknown_entries, 1);
    assert_eq!(
        read_names(vec![b"..".to_vec(), b"b".to_vec(), b".".to_vec(), b"a".to_vec()]),
        vec![b"b".to_vec(), b"a".to_vec()]
    );
}

#[test]
fn paths_stay_below_the_root() {
    let storage = storage();
    assert_eq!(storage.entry_path(&id("dev")), "/data/sandboxes/dev");
    assert_eq!(storage.workspace_path(&id("dev")), "/data/sandboxes/dev/workspace");
    assert!(Storage::new("/data", Err("world writable".to_string())).is_err());
    for bad in ["", ".", "..", "a/b", "a b", "a\n", "\u{e9}"] {
        assert!(SandboxId::parse(bad).is_err(), "{bad}");
    }
}

#[test]
fn metadata_is_replaced_only_for_its_own_sandbox() {
    let storage = storage();
    let metadata = Metadata::active(id("dev"), owner());
    let current = || Entry::Active(Metadata::active(id("dev"), owner()));
    assert!(storage.write_metadata(current(), &metadata).is_ok());
    assert!(storage.write_metadata(Entry::Absent, &metadata).is_err());
    // The owner never changes, and a deletion never turns back.
    let stranger = KeyFingerprint::parse(&format!("SHA256:{}A", "B".repeat(42))).expect("owner");
    let foreign = Metadata::active(id("dev"), stranger);
    let error = storage.write_metadata(current(), &foreign).expect_err("foreign owner");
    assert!(error.message().contains("owner cannot be changed"));
    let deleting = Metadata::new(id("dev"), owner(), State::Deleting);
    assert!(storage.write_metadata(current(), &deleting).is_ok());
    let error = storage
        .write_metadata(Entry::Deleting(deleting), &metadata)
        .expect_err("back to active");
    assert!(error.message().contains("cannot return to Active"));
    let corrupt = Entry::Corrupt { reason: "metadata.toml is missing".to_string() };
    assert!(matches!(
        storage.write_metadata(corrupt, &metadata),
        Err(Error::Corrupt { reason, .. }) if reason == "metadata.toml is missing"
    ));
    assert!(!metadata.is_deleting());
    assert!(Metadata::new(id("dev"), owner(), State::Deleting).is_deleting());
}

#[test]
fn deletion_markers_go_last() {
    assert!(matches!(
        remove_child(b"metadata.toml", EntryStat::Found(Stat { mode: 0o100600, uid: EUID })),
        Ok(Removal::Keep)
    ));
    assert!(matches!(
        remove_child(b"link", EntryStat::Found(Stat { mode: 0o120777, uid: EUID })),
        Ok(Removal::Unlink)
    ));
    assert!(matches!(
        remove_child(b"dir", EntryStat::Found(private_dir())),
        Ok(Removal::Descend)
    ));
    assert!(matches!(remove_child(b"gone", EntryStat::Missing), Ok(Removal::Gone)));
    let failed = EntryStat::Failed { source: "EIO".to_string() };
    assert_eq!(remove_child(b"bad", failed).err().as_deref(), Some("EIO"));

    let mut faults = FaultInjector::default();
    let steps = remove_tree_steps();
    let mut order = Vec::new();
    while let Command::Perform(action) = advance(&steps, order.len(), &mut faults) {
        order.push(action);
    }
    let at = |action: Action| order.iter().position(|step| *step == action).expect("a step");
    assert!(at(Action::RemoveContents) < at(Action::RemoveMetadata));
    assert!(at(Action::RemoveMetadata) < at(Action::RemoveSandboxDirectory));
}

#[test]
fn creation_publishes_the_metadata_after_the_workspace() {
    let mut faults = FaultInjector::default();
    faults.fail_once(FaultPoint::MetadataRename);
    let steps = create_active_steps();
    let mut order = Vec::new();
    let aborted = loop {
        match advance(&steps, order.len(), &mut faults) {
            Command::Perform(action) => order.push(action),
            Command::Abort { reason, .. } => break reason,
            Command::Finished => panic!("the fault must stop the creation"),
        }
    };
    assert!(aborted.contains(FaultPoint::MetadataRename.as_str()), "{aborted}");
    assert!(order.contains(&Action::MakeWorkspace));
    assert!(!order.contains(&Action::RenameTemp));
    assert!(!replace_metadata_steps().is_empty());
    let failed = storage().step_failed(&id("dev"), &steps[0], true, "EEXIST".to_string());
    assert!(matches!(failed, Error::AlreadyExists { path } if path == "/data/sandboxes/dev"));
}

#[test]
fn written_metadata_is_what_the_next_inspection_reports() {
    let storage = storage();
    let current = storage
        .inspect(&id("dev"), OpenOutcome::Opened, facts("dev", State::Active), EUID)
        .expect("inspected");
    let next = Metadata::new(id("dev"), owner(), State::Deleting);
    storage.write_metadata(current, &next).expect("written");
    let reported = storage
        .inspect(&id("dev"), OpenOutcome::Opened, facts("dev", State::Deleting), EUID)
        .expect("inspected again");
    assert!(matches!(
        reported,
        Entry::Deleting(metadata)
            if metadata.id().as_str() == "dev" && metadata.owner().same(&owner())
    ));
}
