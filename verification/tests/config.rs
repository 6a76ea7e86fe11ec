use shbox::config::validate::{
    accept_document, check_file, ConfigStat, MAX_CONFIG_BYTES, MAX_ENV_VALUE_BYTES,
};
use shbox::config::{
    build, default_listen, is_valid_env_name, Caps, Config, Error, LogLevel, NetworkMode,
    RawConfig, RawSandbox, Resolution,
};
use shbox::endpoint::{EndpointParts, ListenEndpoint, SocketAddress};
use shbox::env::EnvMap;
use toml::{Table, Value};

const LOG_WORDS: [&str; 5] = ["error", "warn", "info", "debug", "trace"];
const NETWORK_WORDS: [&str; 2] = ["disabled", "outbound"];

fn text(value: &Value) -> String {
    value.as_str().expect("a string").to_string()
}

fn texts(value: &Value) -> Vec<String> {
    value.as_array().expect("an array").iter().map(text).collect()
}

fn number(value: &Value) -> u64 {
    value.as_integer().expect("an integer") as u64
}

/// The document's tables, field by field.
fn raw_toml(document: &str) -> RawConfig {
    let table = document.parse::<Table>().expect("toml");
    let mut raw = RawConfig::default();
    raw.listen = table.get("listen").map(texts);
    raw.log_level = table.get("log_level").map(text);
    if let Some(sandbox) = table.get("sandbox") {
        let sandbox = sandbox.as_table().expect("a table");
        let mut fields = RawSandbox::default();
        fields.shell = sandbox.get("shell").map(text);
        fields.network = sandbox.get("network").map(text);
        fields.read_paths = sandbox.get("read_paths").map(texts);
        fields.memory_max = sandbox.get("memory_max").map(number);
        fields.swap_max = sandbox.get("swap_max").map(number);
        fields.pids_max = sandbox.get("pids_max").map(|value| number(value) as u32);
        fields.cpu_quota_micros = sandbox.get("cpu_quota_micros").map(number);
        fields.cpu_period_micros = sandbox.get("cpu_period_micros").map(number);
        fields.cgroup_parent = sandbox.get("cgroup_parent").map(text);
        if let Some(env) = sandbox.get("env") {
            let mut map = EnvMap::new();
            for (name, value) in env.as_table().expect("a table") {
                map.set(name, &text(value));
            }
            fields.env = Some(map);
        }
        raw.sandbox = Some(fields);
    }
    raw
}

fn address(value: &str) -> Option<SocketAddress> {
    let parts = EndpointParts::split(value).ok()?;
    let (host, port) = parts.authority.rsplit_once(':')?;
    port.parse::<u16>().ok()?;
    if host == "127.0.0.1" || host == "[::1]" {
        Some(SocketAddress::new(&parts.authority))
    } else {
        None
    }
}

/// Facts about a host on which each path exists, except below `/definitely`.
fn resolve(raw: &RawConfig) -> Resolution {
    let mut addresses = Vec::new();
    for value in raw.listen.iter().flatten() {
        addresses.push(address(value));
    }
    let mut read_paths = Vec::new();
    if let Some(sandbox) = &raw.sandbox {
        for path in sandbox.read_paths.iter().flatten() {
            read_paths.push(if path.starts_with("/definitely") {
                Err("No such file or directory (os error 2)".to_string())
            } else {
                Ok(path.clone())
            });
        }
    }
    Resolution {
        addresses,
        read_paths,
        data_root: Some("/home/shbox/data".to_string()),
        state_root: Some("/home/shbox/state".to_string()),
        config_root: Some("/home/shbox/config".to_string()),
    }
}

fn build_toml(document: &str) -> Result<Config, Error> {
    let raw = raw_toml(document);
    let resolution = resolve(&raw);
    build(raw, &resolution)
}

fn build_ok(document: &str) -> Config {
    build_toml(document).expect("valid config")
}

fn build_err(document: &str) -> String {
    build_toml(document).expect_err("invalid config").message()
}

fn endpoints(listen: &[ListenEndpoint]) -> Vec<String> {
    listen.iter().map(|endpoint| endpoint.text()).collect()
}

fn nothing() -> Resolution {
    resolve(&RawConfig::default())
}

#[test]
fn missing_file_uses_builtin_defaults() {
    let absent = check_file(ConfigStat::Missing, 990);
    assert!(matches!(absent, Ok(false)));
    let config = Config::load_snapshot(Ok(None), None, &nothing()).expect("defaults");
    assert_eq!(
        endpoints(config.listen()),
        endpoints(&default_listen().expect("default listen"))
    );
    assert_eq!(config.log_level(), LogLevel::Info);
    assert_eq!(config.network(), NetworkMode::Disabled);
    assert!(config.read_paths().is_empty());
    assert!(config.sandbox_env().entries().is_empty());
}

#[test]
fn present_empty_file_uses_builtin_policy() {
    let present = check_file(
        ConfigStat::Found { is_file: true, uid: 990, mode: 0o100644 },
        990,
    );
    assert!(matches!(present, Ok(true)));
    let document = accept_document(Ok(Vec::new())).expect("empty document");
    let config = Config::load_snapshot(Ok(Some(raw_toml(&document))), None, &nothing())
        .expect("empty config");
    assert!(config.read_paths().is_empty());
    assert!(config.sandbox_env().entries().is_empty());
}

#[test]
fn defaults_match_documented_values() {
    let caps = Caps::default();
    assert_eq!(caps.max_unauthenticated_connections, 32);
    assert_eq!(caps.max_connections, 128);
    assert_eq!(caps.max_channels_per_connection, 16);
    assert_eq!(caps.max_concurrent_launches_per_sandbox, 128);
    assert_eq!(caps.max_host_processes, 16);
    assert_eq!(caps.max_auth_attempts, 6);
    assert_eq!(caps.max_sandboxes, 1024);
    assert_eq!(caps.max_sandboxes_per_owner, 128);
    assert_eq!(caps.handshake_timeout_secs, 30);
}

#[test]
fn full_document_parses() {
    let config = build_ok(
        r#"
        listen = ["tcp://127.0.0.1:2222", "tcp://[::1]:2222"]
        log_level = "debug"

        [sandbox]
        shell = "/bin/bash"
        network = "outbound"
        read_paths = ["/usr/share/terminfo"]

        [sandbox.env]
        LANG = "C.UTF-8"
        EDITOR_DEFAULT = "vi"
        "#,
    );
    assert_eq!(
        endpoints(config.listen()),
        ["tcp://127.0.0.1:2222", "tcp://[::1]:2222"]
    );
    assert_eq!(config.log_level(), LogLevel::Debug);
    assert_eq!(config.network(), NetworkMode::Outbound);
    assert_eq!(config.sandbox_shell(), Some("/bin/bash"));
    assert_eq!(config.read_paths().len(), 1);
    assert_eq!(config.sandbox_env().get("LANG"), Some("C.UTF-8"));
}

#[test]
fn operational_fields_live_in_their_new_homes() {
    for document in [
        r#"listen = ["tcp://127.0.0.1:2222"]"#,
        r#"log_level = "debug""#,
        "[sandbox]\nnetwork = \"outbound\"",
    ] {
        assert!(build_toml(document).is_ok(), "{document}");
    }
}

#[test]
fn cpu_period_requires_cpu_quota() {
    let message = build_err("[sandbox]\ncpu_period_micros = 50000");
    assert!(message.contains("sandbox.cpu_period_micros"), "{message}");
    assert!(message.contains("cpu_quota_micros"), "{message}");
}

#[test]
fn resource_limits_are_checked() {
    let config = build_ok(
        "[sandbox]\nmemory_max = 1073741824\nswap_max = 4096\npids_max = 64\ncpu_quota_micros = 50000\n\
         cgroup_parent = \"/sys/fs/cgroup/shbox\"\n",
    );
    assert_eq!(config.resources().memory_bytes, Some(1 << 30));
    assert_eq!(config.resources().swap_bytes, Some(4096));
    assert_eq!(config.resources().pids, Some(64));
    assert_eq!(config.resources().cpu_quota_micros, Some(50_000));
    assert_eq!(config.resources().cpu_period_micros, None);
    assert_eq!(config.cgroup_parent(), Some("/sys/fs/cgroup/shbox"));
    for (document, field) in [
        ("memory_max = 0", "sandbox.memory_max"),
        ("swap_max = 0", "sandbox.swap_max"),
        ("pids_max = 0", "sandbox.pids_max"),
        ("cpu_quota_micros = 0", "sandbox.cpu_quota_micros"),
        (
            "cpu_quota_micros = 1\ncpu_period_micros = 999",
            "sandbox.cpu_period_micros",
        ),
    ] {
        let message = build_err(&format!("[sandbox]\n{document}"));
        assert!(message.contains(field), "{document}: {message}");
    }
    assert!(build_err("[sandbox]\ncgroup_parent = \"shbox\"").contains("sandbox.cgroup_parent"));
}

#[test]
fn listen_rejects_empty_malformed_and_duplicate_entries() {
    let message = build_err("listen = []");
    assert!(message.contains("must not be empty"), "{message}");
    let message = build_err(r#"listen = ["127.0.0.1"]"#);
    assert!(message.contains("must be a transport URI"), "{message}");
    let message = build_err(r#"listen = ["tcp://127.0.0.1"]"#);
    assert!(message.contains("not a valid host:port"), "{message}");
    let message = build_err(r#"listen = ["unix:///tmp/s"]"#);
    assert!(message.contains("unknown transport scheme"), "{message}");
    let message = build_err(r#"listen = ["tcp://127.0.0.1:2222", "tcp://127.0.0.1:2222"]"#);
    assert!(message.contains("duplicate listen endpoint"), "{message}");
}

#[test]
fn ws_listen_entries_parse_when_the_transport_is_compiled_in() {
    let config = build_ok(r#"listen = ["ws://127.0.0.1:8080/ssh"]"#);
    assert_eq!(endpoints(config.listen()), ["ws://127.0.0.1:8080/ssh"]);
}

#[test]
fn log_level_and_network_accept_only_the_documented_words() {
    for word in LOG_WORDS {
        let config = build_ok(&format!(r#"log_level = "{word}""#));
        assert_eq!(config.log_level(), LogLevel::from_word(word).expect("word"));
    }
    assert_eq!(build_ok("").log_level(), LogLevel::Info);
    assert!(build_err(r#"log_level = "verbose""#).contains("log_level must be one of"));

    for word in NETWORK_WORDS {
        let config = build_ok(&format!("[sandbox]\nnetwork = \"{word}\""));
        assert_eq!(config.network(), NetworkMode::from_word(word).expect("word"));
    }
    assert_eq!(build_ok("").network(), NetworkMode::Disabled);
    assert!(build_err("[sandbox]\nnetwork = \"proxy\"").contains("sandbox.network must be one of"));
}

#[test]
fn rejects_relative_paths() {
    assert!(build_err("[sandbox]\nshell = \"bin/bash\"").contains("absolute path"));
    assert!(build_err("[sandbox]\nread_paths = [\"relative/path\"]").contains("absolute"));
    assert!(build_err("[sandbox]\nread_paths = [\"\"]").contains("absolute"));
}

#[test]
fn enum_words_match_the_schema_and_cli_contract() {
    for word in LOG_WORDS {
        assert_eq!(LogLevel::from_word(word).expect("word").word(), word);
    }
    assert!(LogLevel::from_word("verbose").is_none());
    for word in NETWORK_WORDS {
        assert_eq!(NetworkMode::from_word(word).expect("word").word(), word);
    }
    assert!(NetworkMode::from_word("proxy").is_none());
}

#[test]
fn read_paths_must_exist_and_stay_out_of_shbox_roots() {
    let message = build_err("[sandbox]\nread_paths = [\"/definitely/not/here\"]");
    assert!(message.contains("does not exist"), "{message}");
    let message = build_err("[sandbox]\nread_paths = [\"/home/shbox/data/exposed\"]");
    assert!(message.contains("sandbox data root"), "{message}");
    let message = build_err("[sandbox]\nread_paths = [\"/home/shbox/state/exposed\"]");
    assert!(message.contains("state root"), "{message}");
    // Duplicates are detected on canonical form for paths that are otherwise
    // acceptable.
    let message =
        build_err("[sandbox]\nread_paths = [\"/home/shbox/extra\", \"/home/shbox/extra\"]");
    assert!(message.contains("duplicate read path"), "{message}");
}

#[test]
fn sandbox_env_rejects_reserved_names_and_prefixes() {
    for name in [
        "HOME",
        "PWD",
        "SHELL",
        "TMPDIR",
        "TERM",
        "SHBOX_LEVEL",
        "LD_PRELOAD",
        "DYLD_INSERT_LIBRARIES",
        "NODE_OPTIONS",
        "BASH_ENV",
        "IFS",
        "http_proxy",
        "HTTPS_PROXY",
        "CURL_CA_BUNDLE",
        "GIT_CONFIG_GLOBAL",
        "CARGO_HOME",
        "_JAVA_OPTIONS",
        "__COMPAT_LAYER",
    ] {
        let message = build_err(&format!("[sandbox.env]\n{name} = \"x\""));
        assert!(
            message.contains("managed by shbox") || message.contains("reserved prefix"),
            "{name}: {message}"
        );
    }
}

#[test]
fn sandbox_env_allows_path_and_lang_overrides() {
    let config = build_ok("[sandbox.env]\nPATH = \"/opt/bin\"\nLANG = \"ja_JP.UTF-8\"\n");
    assert_eq!(config.sandbox_env().get("PATH"), Some("/opt/bin"));
    assert_eq!(config.sandbox_env().get("LANG"), Some("ja_JP.UTF-8"));
}

#[test]
fn sandbox_env_rejects_invalid_names_and_values() {
    assert!(build_err("[sandbox.env]\n\"1BAD\" = \"x\"").contains("POSIX identifier"));
    assert!(build_err("[sandbox.env]\n\"A B\" = \"x\"").contains("POSIX identifier"));
    assert!(build_err("[sandbox.env]\n\"WITH-NUL\" = \"a\\u0000b\"").contains("NUL"));
    let big = "x".repeat(MAX_ENV_VALUE_BYTES + 1);
    assert!(build_err(&format!("[sandbox.env]\nBIG = \"{big}\"")).contains("limit"));
    let ok = "x".repeat(MAX_ENV_VALUE_BYTES);
    assert!(build_ok(&format!("[sandbox.env]\nBIG = \"{ok}\""))
        .sandbox_env()
        .get("BIG")
        .is_some());
}

#[test]
fn unsafe_config_permissions_are_rejected() {
    let found = |is_file: bool, uid: u32, mode: u32| ConfigStat::Found { is_file, uid, mode };
    let unsafe_mode = check_file(found(true, 990, 0o100664), 990).expect_err("group writable");
    let message = match Config::load_snapshot(Err(unsafe_mode), None, &nothing()) {
        Err(err) => err.message(),
        Ok(_) => panic!("group writable config must be rejected"),
    };
    assert!(message.contains("group or world writable"), "{message}");
    assert!(check_file(found(false, 990, 0o100600), 990).is_err());
    assert!(check_file(found(true, 1, 0o100600), 990).is_err());
    let failed = ConfigStat::Failed { source: "EACCES".to_string() };
    assert!(matches!(check_file(failed, 990), Err(Error::Io { .. })));
    // A missing config is still fine when nothing unsafe exists.
    Config::load_snapshot(Ok(None), None, &nothing()).expect("missing config");
}

#[test]
fn oversize_config_is_rejected_without_truncation() {
    // A document just over the limit, out of harmless comment lines.
    let line = "# ".repeat(511) + "\n";
    let mut body = String::new();
    while (body.len() as u64) <= MAX_CONFIG_BYTES {
        body.push_str(&line);
    }
    let document = accept_document(Ok(body.into_bytes()));
    assert!(matches!(document, Err(Error::TooLarge { .. })));
    let fits = "#".repeat(MAX_CONFIG_BYTES as usize);
    assert_eq!(accept_document(Ok(fits.clone().into_bytes())).expect("fits"), fits);
}

#[test]
fn unreadable_documents_are_refused() {
    assert!(matches!(
        accept_document(Err("EIO".to_string())),
        Err(Error::Io { source, .. }) if source == "EIO"
    ));
    assert!(accept_document(Ok(vec![b'#', 0xff])).is_err());
    assert_eq!(accept_document(Ok("# \u{fc}\n".as_bytes().to_vec())).expect("text"), "# \u{fc}\n");
    let parse = Error::Parse("expected newline".to_string());
    assert!(Config::load_snapshot(Err(parse), None, &nothing())
        .expect_err("parse")
        .message()
        .contains("expected newline"));
}

#[test]
fn the_file_wins_over_the_command_line() {
    let cli = vec![ListenEndpoint::Tcp { address: SocketAddress::new("[::1]:2200") }];
    let named = raw_toml(r#"listen = ["tcp://127.0.0.1:2222"]"#);
    let resolution = resolve(&named);
    let config = Config::load_snapshot(Ok(Some(named)), Some(&cli), &resolution).expect("file");
    assert_eq!(endpoints(config.listen()), ["tcp://127.0.0.1:2222"]);
    let mut resolution = nothing();
    resolution.addresses = vec![Some(SocketAddress::new("[::1]:2200"))];
    let config = Config::load_snapshot(Ok(None), Some(&cli), &resolution).expect("command line");
    assert_eq!(endpoints(config.listen()), ["tcp://[::1]:2200"]);
}

#[test]
fn env_name_validation_matches_posix_rule() {
    for name in ["A", "_", "a1_B", "LONG_NAME_2"] {
        assert!(is_valid_env_name(name), "{name}");
    }
    for name in ["", "1", "A-B", "A B", "a=", "\u{e9}"] {
        assert!(!is_valid_env_name(name), "{name}");
    }
    for first in b' '..=b'~' {
        for second in b' '..=b'~' {
            let name = String::from_utf8(vec![first, second]).expect("printable");
            let expected = (first.is_ascii_alphabetic() || first == b'_')
                && (second.is_ascii_alphanumeric() || second == b'_');
            assert_eq!(is_valid_env_name(&name), expected, "{name}");
        }
    }
}

#[test]
fn command_line_listeners_come_back_as_themselves() {
    let list: Vec<ListenEndpoint> = ["tcp://127.0.0.1:2022", "ws://127.0.0.1:8080/ssh"]
        .iter()
        .map(|value| ListenEndpoint::from_text(value, address(value)).expect("endpoint"))
        .collect();
    let resolution = Resolution {
        addresses: list.iter().map(|endpoint| Some(endpoint.address())).collect(),
        ..nothing()
    };
    let document = "log_level = \"debug\"\n";
    let layered = Config::load_snapshot(Ok(Some(raw_toml(document))), Some(&list), &resolution)
        .expect("layered");
    let plain = Config::load_snapshot(Ok(Some(raw_toml(document))), None, &resolution)
        .expect("plain");
    assert_eq!(endpoints(layered.listen()), endpoints(&list));
    assert_eq!(endpoints(plain.listen()), endpoints(&default_listen().expect("default")));
    assert_eq!(layered.log_level(), plain.log_level());
    assert_eq!(layered.network(), plain.network());
}
