use shbox::account::{
    current_account, validate_executable, Account, Error, PasswdLookup, ShellFacts,
};
use shbox::config::validate::{build, defaults, Resolution};
use shbox::config::{RawConfig, RawSandbox};
use shbox::endpoint::SocketAddress;

fn found() -> PasswdLookup {
    PasswdLookup::Found {
        name: "shbox".to_string(),
        home: "/home/shbox".to_string(),
        shell: "/bin/zsh".to_string(),
    }
}

#[test]
fn resolves_current_account() {
    let account = current_account(990, found()).expect("passwd entry");
    assert!(!account.name.is_empty());
    assert!(!account.home.is_empty());
    let missing = current_account(990, PasswdLookup::Missing).expect_err("no entry");
    assert_eq!(
        missing.message(),
        "cannot resolve daemon account (uid 990): no passwd entry for the daemon uid"
    );
    let failed = PasswdLookup::Failed { message: "ERANGE".to_string() };
    assert_eq!(
        current_account(0, failed).expect_err("failed").message(),
        "cannot resolve daemon account (uid 0): ERANGE"
    );
    for (name, home) in [("", "/home"), ("shbox", "")] {
        let lookup = PasswdLookup::Found {
            name: name.to_string(),
            home: home.to_string(),
            shell: String::new(),
        };
        assert!(matches!(
            current_account(7, lookup),
            Err(Error::Passwd { uid: 7, message })
                if message == "passwd entry has no name or home directory"
        ));
    }
}

#[test]
fn resolves_sandbox_shell_from_config_or_passwd() {
    let account = current_account(990, found()).expect("passwd entry");
    let resolved = account.sandbox_shell(&defaults()).expect("default shell");
    assert_eq!(resolved, account.shell);

    let raw = RawConfig {
        listen: Some(vec!["tcp://127.0.0.1:2222".to_string()]),
        sandbox: Some(RawSandbox {
            shell: Some("/bin/sh".to_string()),
            ..RawSandbox::default()
        }),
        ..RawConfig::default()
    };
    let resolution = Resolution {
        addresses: vec![Some(SocketAddress::new("127.0.0.1:2222"))],
        read_paths: Vec::new(),
        data_root: None,
        state_root: None,
        config_root: None,
    };
    let config = build(raw, &resolution).expect("config");
    assert_eq!(
        account.sandbox_shell(&config).expect("configured shell"),
        "/bin/sh"
    );
}

#[test]
fn rejects_non_executable_shell() {
    let directory = ShellFacts::Found { is_file: false, executable: true };
    assert!(matches!(
        validate_executable("/directory", directory),
        Err(Error::Shell { .. })
    ));
    let missing = ShellFacts::Failed { source: "not found".to_string() };
    let error = validate_executable("/missing", missing).expect_err("missing");
    assert_eq!(error.message(), "invalid shell /missing: cannot stat shell: not found");
    let plain = ShellFacts::Found { is_file: true, executable: false };
    assert_eq!(
        validate_executable("/bin/data", plain).expect_err("not executable").message(),
        "invalid shell /bin/data: shell is not executable by the daemon user"
    );
    let nul = ShellFacts::Found { is_file: true, executable: true };
    assert!(validate_executable("/bin/\0sh", nul).is_err());
    let shell = ShellFacts::Found { is_file: true, executable: true };
    assert!(validate_executable("/bin/sh", shell).is_ok());
}

#[test]
fn login_shell_falls_back_only_for_empty_entry() {
    for (entry, expected) in [("", "/bin/sh"), ("/bin/zsh", "/bin/zsh")] {
        let account = Account {
            name: "shbox".to_string(),
            home: "/home/shbox".to_string(),
            shell: entry.to_string(),
        };
        assert_eq!(account.host_shell(), expected);
    }
}
