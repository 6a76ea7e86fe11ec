use shbox::lockfile::{Error, Failure, LockAttempt, LockFile, LockOpen, LockRole, LockStat, Locks};
use std::cell::RefCell;
use std::rc::Rc;

const EUID: u32 = 990;

/// A lock table that hands out each path once until it is dropped.
#[derive(Debug, Clone, Default)]
struct Table {
    held: Rc<RefCell<Vec<String>>>,
}

#[derive(Debug)]
struct Held {
    table: Table,
    path: String,
    locked: RefCell<bool>,
}

impl Drop for Held {
    fn drop(&mut self) {
        if *self.locked.borrow() {
            self.table.held.borrow_mut().retain(|path| path != &self.path);
        }
    }
}

fn stat() -> LockStat {
    LockStat { is_file: true, uid: EUID, mode: 0o100600 }
}

fn open(table: &Table, path: &str, stat: LockStat) -> LockOpen<Held> {
    LockOpen::Opened {
        file: Held {
            table: table.clone(),
            path: path.to_string(),
            locked: RefCell::new(false),
        },
        stat: Ok(stat),
    }
}

fn lock(file: &Held) -> LockAttempt {
    let mut held = file.table.held.borrow_mut();
    if held.contains(&file.path) {
        return LockAttempt::WouldBlock;
    }
    held.push(file.path.clone());
    *file.locked.borrow_mut() = true;
    LockAttempt::Held
}

fn acquire(table: &Table, path: &str) -> Result<LockFile<Held>, Error> {
    LockFile::acquire(path, open(table, path, stat()), EUID, lock)
}

fn acquire_both(table: &Table, data: &str, state: &str) -> Result<Locks<Held>, Error> {
    Locks::acquire(|| acquire(table, data), || acquire(table, state))
}

#[test]
fn acquires_both_locks_and_creates_mode_0600_files() {
    let table = Table::default();
    {
        let locks = acquire_both(&table, "/a/data/registry.lock", "/a/state/lock").expect("acquire");
        assert_eq!(locks.registry.path, "/a/data/registry.lock");
        assert_eq!(locks.state.path, "/a/state/lock");
        assert_eq!(table.held.borrow().len(), 2);
        drop(locks);
    }
    // Released locks can be acquired again.
    acquire_both(&table, "/a/data/registry.lock", "/a/state/lock").expect("reacquire after release");
}

#[test]
fn second_daemon_on_same_roots_is_rejected() {
    let table = Table::default();
    let _locks = acquire_both(&table, "/a/data", "/a/state").expect("first acquire");
    let err = acquire_both(&table, "/a/data", "/a/state").expect_err("second daemon, same roots");
    assert_eq!(err.failure(), Failure::HeldByOtherDaemon);
}

#[test]
fn shared_data_root_is_rejected_even_with_distinct_state_root() {
    let table = Table::default();
    let _locks = acquire_both(&table, "/a/data", "/a/state").expect("first acquire");
    let err = acquire_both(&table, "/a/data", "/b/state").expect_err("shared data root");
    assert_eq!(err.failure(), Failure::HeldByOtherDaemon);
    assert_eq!(err.role(), Some(LockRole::Registry));
    assert_eq!(
        err.message(),
        "registry lock (sandbox data root): another daemon already holds this lock: /a/data"
    );
}

#[test]
fn shared_state_root_is_rejected_and_registry_lock_is_released() {
    let table = Table::default();
    let _locks = acquire_both(&table, "/a/data", "/a/state").expect("first acquire");
    let err = acquire_both(&table, "/b/data", "/a/state").expect_err("shared state root");
    assert_eq!(err.failure(), Failure::HeldByOtherDaemon);
    assert_eq!(err.role(), Some(LockRole::State));
    // The registry lock of the failed attempt was released.
    let _recovered = acquire_both(&table, "/b/data", "/c/state").expect("acquire after rollback");
}

#[test]
fn symlinked_lock_file_is_rejected() {
    let refused = |not_found: bool, is_symlink: bool| {
        let open: LockOpen<Held> = LockOpen::Failed {
            not_found,
            is_symlink,
            source: "os error".to_string(),
        };
        LockFile::acquire("/a/data/registry.lock", open, EUID, lock).expect_err("refused")
    };
    assert_eq!(refused(false, true).failure(), Failure::Symlink);
    assert_eq!(refused(true, false).failure(), Failure::MissingParentDirectory);
    let error = refused(false, false);
    assert_eq!(error.failure(), Failure::Io);
    assert_eq!(error.role(), None);
    assert_eq!(
        error.message(),
        "cannot open or lock lock file: /a/data/registry.lock: os error"
    );
}

#[test]
fn unsafe_lock_files_are_never_locked() {
    let table = Table::default();
    let never = |_: &Held| -> LockAttempt { panic!("an unsafe file must not be locked") };
    for (stat, failure) in [
        (LockStat { is_file: false, ..stat() }, Failure::Symlink),
        (LockStat { uid: 0, ..stat() }, Failure::Io),
        (LockStat { mode: 0o100620, ..stat() }, Failure::Io),
    ] {
        let err = LockFile::acquire("/a", open(&table, "/a", stat), EUID, never).expect_err("unsafe");
        assert_eq!(err.failure(), failure);
    }
    let failed = LockFile::acquire("/a", open(&table, "/a", stat()), EUID, |_| {
        LockAttempt::Failed { source: "EINTR".to_string() }
    });
    assert_eq!(failed.expect_err("lock").message(), "cannot open or lock lock file: /a: EINTR");
}
