//! Validation of a configuration document into an immutable snapshot.

use crate::config::raw::{self, RawConfig, RawConfigView, RawSandbox, RawSandboxView};
use crate::config::reserved;
use crate::config::settings::{self, LogLevel, NetworkMode, SandboxResources};
use crate::endpoint::{self, EndpointView, ListenEndpoint, SocketAddress};
use crate::env::{self, EnvMap};
use crate::paths;
use crate::quote;
use crate::text;
use vstd::prelude::*;

verus! {

/// Maximum config file size.
pub const MAX_CONFIG_BYTES: u64 = 1048576;

/// Maximum size of a single sandbox environment variable value.
pub const MAX_ENV_VALUE_BYTES: usize = 4096;

// ---------------------------------------------------------------------------
// Errors

/// Configuration errors.
#[derive(Debug)]
pub enum Error {
    Parse(String),
    Invalid { field: &'static str, message: String },
    TooLarge { size: u64, limit: u64 },
    Io { field: &'static str, message: String, source: String },
}

/// The contents of an [`Error`].
pub enum ErrorView {
    Parse(Seq<char>),
    Invalid { field: Seq<char>, message: Seq<char> },
    TooLarge { size: u64, limit: u64 },
    Io { field: Seq<char>, message: Seq<char>, source: Seq<char> },
}

impl View for Error {
    type V = ErrorView;

    open spec fn view(&self) -> ErrorView {
        match self {
            Error::Parse(message) => ErrorView::Parse(message@),
            Error::Invalid { field, message } => ErrorView::Invalid {
                field: field@,
                message: message@,
            },
            Error::TooLarge { size, limit } => ErrorView::TooLarge { size: *size, limit: *limit },
            Error::Io { field, message, source } => ErrorView::Io {
                field: field@,
                message: message@,
                source: source@,
            },
        }
    }
}

/// The text of an error.
pub open spec fn error_text(error: ErrorView) -> Seq<char> {
    match error {
        ErrorView::Parse(message) => "invalid config: "@ + message,
        ErrorView::Invalid { field, message } => "invalid config field "@ + quote::debug_text(
            field,
        ) + ": "@ + message,
        ErrorView::TooLarge { size, limit } => "config file is "@ + text::decimal(size as nat)
            + " bytes, the limit is "@ + text::decimal(limit as nat),
        ErrorView::Io { field, message, source } => "config "@ + field + ": "@ + message + ": "@
            + source,
    }
}

impl Error {
    /// The operator-facing description.
    pub fn message(&self) -> (r: String)
        ensures
            r@ == error_text(self@),
    {
        match self {
            Error::Parse(message) => text::cat2("invalid config: ", message.as_str()),
            Error::Invalid { field, message } => text::cat4(
                "invalid config field ",
                quote::debug_quoted(field).as_str(),
                ": ",
                message.as_str(),
            ),
            Error::TooLarge { size, limit } => text::cat4(
                "config file is ",
                text::decimal_text(*size).as_str(),
                " bytes, the limit is ",
                text::decimal_text(*limit).as_str(),
            ),
            Error::Io { field, message, source } => {
                let mut m = text::cat5("config ", field, ": ", message.as_str(), ": ");
                m.append(source.as_str());
                m
            },
        }
    }
}

pub open spec fn rejected(field: Seq<char>, message: Seq<char>) -> ErrorView {
    ErrorView::Invalid { field, message }
}

fn reject(field: &'static str, message: &str) -> (r: Error)
    ensures
        r@ == rejected(field@, message@),
{
    Error::Invalid { field, message: message.to_owned() }
}

// ---------------------------------------------------------------------------
// The file

/// What a stat of the config file reported, links followed.
#[derive(Debug)]
pub enum ConfigStat {
    Missing,
    Failed { source: String },
    Found { is_file: bool, uid: u32, mode: u32 },
}

/// Whether a config file is present and safe to read.
pub open spec fn file_outcome(stat: ConfigStat, euid: u32) -> Result<bool, ErrorView> {
    match stat {
        ConfigStat::Missing => Ok(false),
        ConfigStat::Failed { source } => Err(
            ErrorView::Io {
                field: "config"@,
                message: "cannot stat config file"@,
                source: source@,
            },
        ),
        ConfigStat::Found { is_file, uid, mode } => if !is_file {
            Err(rejected("config"@, "config path is not a regular file"@))
        } else if uid != euid {
            Err(rejected("config"@, "config file is not owned by the daemon user"@))
        } else if mode & 0o022 != 0 {
            Err(rejected("config"@, "config file is group or world writable"@))
        } else {
            Ok(true)
        },
    }
}

/// Whether a config file is present and safe to read. A missing file selects
/// the built-in defaults; an unsafe one is an error.
pub fn check_file(stat: ConfigStat, euid: u32) -> (r: Result<bool, Error>)
    ensures
        match file_outcome(stat, euid) {
            Ok(present) => r == Ok::<bool, Error>(present),
            Err(expected) => r matches Err(error) && error@ == expected,
        },
{
    match stat {
        ConfigStat::Missing => Ok(false),
        ConfigStat::Failed { source } => Err(
            Error::Io {
                field: "config",
                message: String::from_str("cannot stat config file"),
                source,
            },
        ),
        ConfigStat::Found { is_file, uid, mode } => {
            if !is_file {
                return Err(reject("config", "config path is not a regular file"));
            }
            if uid != euid {
                return Err(reject("config", "config file is not owned by the daemon user"));
            }
            if mode & 0o022 != 0 {
                return Err(reject("config", "config file is group or world writable"));
            }
            Ok(true)
        },
    }
}

/// The document that the bytes of a config file hold.
pub open spec fn document_outcome(read: Result<Vec<u8>, String>) -> Result<Seq<char>, ErrorView> {
    match read {
        Err(source) => Err(
            ErrorView::Io {
                field: "config"@,
                message: "cannot read config file"@,
                source: source@,
            },
        ),
        Ok(bytes) => if bytes@.len() > MAX_CONFIG_BYTES {
            Err(ErrorView::TooLarge { size: bytes@.len() as u64, limit: MAX_CONFIG_BYTES })
        } else if !vstd::utf8::valid_utf8(bytes@) {
            Err(rejected("config"@, "config file is not valid UTF-8"@))
        } else {
            Ok(vstd::utf8::decode_utf8(bytes@))
        },
    }
}

/// The document that the bytes of a config file hold: never truncated, never
/// coerced.
pub fn accept_document(read: Result<Vec<u8>, String>) -> (r: Result<String, Error>)
    ensures
        match document_outcome(read) {
            Ok(expected) => r matches Ok(document) && document@ == expected,
            Err(expected) => r matches Err(error) && error@ == expected,
        },
{
    match read {
        Err(source) => Err(
            Error::Io {
                field: "config",
                message: String::from_str("cannot read config file"),
                source,
            },
        ),
        Ok(bytes) => {
            if bytes.len() as u64 > MAX_CONFIG_BYTES {
                return Err(Error::TooLarge { size: bytes.len() as u64, limit: MAX_CONFIG_BYTES });
            }
            match text::utf8_text(bytes.as_slice()) {
                Some(document) => Ok(document.to_owned()),
                None => Err(reject("config", "config file is not valid UTF-8")),
            }
        },
    }
}

// ---------------------------------------------------------------------------
// What the system says about the configured values

/// What the system reports about configured values: the socket address of
/// each listen entry, the canonical form of each read path, and the canonical
/// form of the daemon's own roots where they exist.
#[derive(Debug)]
pub struct Resolution {
    pub addresses: Vec<Option<SocketAddress>>,
    pub read_paths: Vec<Result<String, String>>,
    pub data_root: Option<String>,
    pub state_root: Option<String>,
    pub config_root: Option<String>,
}

/// The contents of a [`Resolution`].
pub struct ResolutionView {
    pub addresses: Seq<Option<Seq<char>>>,
    pub read_paths: Seq<Result<Seq<char>, Seq<char>>>,
    pub data_root: Option<Seq<char>>,
    pub state_root: Option<Seq<char>>,
    pub config_root: Option<Seq<char>>,
}

/// The contents of a canonicalization.
pub open spec fn canonical_text(outcome: Result<String, String>) -> Result<Seq<char>, Seq<char>> {
    match outcome {
        Ok(path) => Ok(path@),
        Err(source) => Err(source@),
    }
}

impl View for Resolution {
    type V = ResolutionView;

    open spec fn view(&self) -> ResolutionView {
        ResolutionView {
            addresses: self.addresses@.map_values(
                |address: Option<SocketAddress>| endpoint::address_text(address),
            ),
            read_paths: self.read_paths@.map_values(
                |outcome: Result<String, String>| canonical_text(outcome),
            ),
            data_root: text::optional(self.data_root),
            state_root: text::optional(self.state_root),
            config_root: text::optional(self.config_root),
        }
    }
}

/// The system was asked about every configured value.
pub open spec fn covers(resolution: ResolutionView, raw: RawConfigView) -> bool {
    &&& raw.listen matches Some(listen) ==> listen.len() <= resolution.addresses.len()
    &&& raw.sandbox matches Some(sandbox) ==> (sandbox.read_paths matches Some(read_paths)
        ==> read_paths.len() <= resolution.read_paths.len())
}

// ---------------------------------------------------------------------------
// Listen

/// The contents of a list of endpoints.
pub open spec fn endpoints(list: Seq<ListenEndpoint>) -> Seq<EndpointView> {
    list.map_values(|e: ListenEndpoint| e@)
}

/// The listener bound when none is configured: SSH on every address.
pub open spec fn default_endpoints() -> Seq<EndpointView> {
    seq![EndpointView::Tcp { address: "0.0.0.0:22"@ }]
}

/// The first `n` listen entries.
pub open spec fn listen_prefix(
    values: Seq<Seq<char>>,
    addresses: Seq<Option<Seq<char>>>,
    n: int,
) -> Result<Seq<EndpointView>, ErrorView>
    decreases n,
{
    if n <= 0 {
        Ok(seq![])
    } else {
        match listen_prefix(values, addresses, n - 1) {
            Err(error) => Err(error),
            Ok(list) => match endpoint::parsed(values[n - 1], addresses[n - 1]) {
                Err(error) => Err(rejected("listen"@, endpoint::endpoint_error_text(error))),
                Ok(found) => if list.contains(found) {
                    Err(
                        rejected(
                            "listen"@,
                            "duplicate listen endpoint "@ + endpoint::endpoint_text(found),
                        ),
                    )
                } else {
                    Ok(list.push(found))
                },
            },
        }
    }
}

/// The listeners of a configuration.
pub open spec fn listen_outcome(
    raw: Option<Seq<Seq<char>>>,
    addresses: Seq<Option<Seq<char>>>,
) -> Result<Seq<EndpointView>, ErrorView> {
    match raw {
        None => Ok(default_endpoints()),
        Some(values) => if values.len() == 0 {
            Err(
                rejected(
                    "listen"@,
                    "listen must not be empty; omit it to use the default listener"@,
                ),
            )
        } else {
            listen_prefix(values, addresses, values.len() as int)
        },
    }
}

proof fn lemma_listen_stops(
    values: Seq<Seq<char>>,
    addresses: Seq<Option<Seq<char>>>,
    n: int,
    m: int,
)
    requires
        n <= m,
        listen_prefix(values, addresses, n) is Err,
    ensures
        listen_prefix(values, addresses, m) == listen_prefix(values, addresses, n),
    decreases m - n,
{
    if n < m {
        lemma_listen_stops(values, addresses, n, m - 1);
    }
}

/// The listener bound when none is configured.
pub fn default_listen() -> (r: Result<Vec<ListenEndpoint>, Error>)
    ensures
        r matches Ok(list) && endpoints(list@) == default_endpoints(),
{
    let mut list: Vec<ListenEndpoint> = Vec::new();
    list.push(ListenEndpoint::Tcp { address: SocketAddress::new("0.0.0.0:22") });
    assert(endpoints(list@) =~= default_endpoints());
    Ok(list)
}

fn has_endpoint(list: &Vec<ListenEndpoint>, endpoint: &ListenEndpoint) -> (r: bool)
    ensures
        r == endpoints(list@).contains(endpoint@),
{
    let mut i: usize = 0;
    while i < list.len()
        invariant
            i <= list@.len(),
            forall|k: int| 0 <= k < i ==> endpoints(list@)[k] != endpoint@,
        decreases list@.len() - i,
    {
        assert(endpoints(list@)[i as int] == list@[i as int]@);
        if list[i].same(endpoint) {
            return true;
        }
        i = i + 1;
    }
    false
}

/// The listeners of a configuration: the default where none is named, never an
/// empty list, and no endpoint twice.
pub fn validate_listen(raw: &Option<Vec<String>>, addresses: &Vec<Option<SocketAddress>>) -> (r:
    Result<Vec<ListenEndpoint>, Error>)
    requires
        raw matches Some(values) ==> values@.len() <= addresses@.len(),
    ensures
        match listen_outcome(
            raw::optional_texts(*raw),
            addresses@.map_values(|a: Option<SocketAddress>| endpoint::address_text(a)),
        ) {
            Ok(expected) => r matches Ok(list) && endpoints(list@) == expected,
            Err(expected) => r matches Err(error) && error@ == expected,
        },
{
    let values = match raw {
        None => {
            return default_listen();
        },
        Some(values) => values,
    };
    if values.len() == 0 {
        return Err(
            reject("listen", "listen must not be empty; omit it to use the default listener"),
        );
    }
    let ghost list = text::texts(values@);
    let ghost known = addresses@.map_values(
        |a: Option<SocketAddress>| endpoint::address_text(a),
    );
    let mut listen: Vec<ListenEndpoint> = Vec::new();
    let mut i: usize = 0;
    assert(endpoints(listen@) =~= Seq::<EndpointView>::empty());
    while i < values.len()
        invariant
            i <= values@.len(),
            values@.len() <= addresses@.len(),
            list == text::texts(values@),
            known == addresses@.map_values(
                |a: Option<SocketAddress>| endpoint::address_text(a),
            ),
            raw::optional_texts(*raw) == Some(list),
            list.len() > 0,
            listen_prefix(list, known, i as int) == Ok::<Seq<EndpointView>, ErrorView>(
                endpoints(listen@),
            ),
        decreases values@.len() - i,
    {
        let address = match &addresses[i] {
            Some(address) => Some(address.clone()),
            None => None,
        };
        proof {
            assert(list[i as int] == values@[i as int]@);
            assert(known[i as int] == endpoint::address_text(address));
        }
        let found = match ListenEndpoint::from_text(values[i].as_str(), address) {
            Ok(found) => found,
            Err(error) => {
                proof {
                    lemma_listen_stops(list, known, i + 1, list.len() as int);
                }
                return Err(reject("listen", error.message().as_str()));
            },
        };
        if has_endpoint(&listen, &found) {
            proof {
                lemma_listen_stops(list, known, i + 1, list.len() as int);
            }
            let message = text::cat2("duplicate listen endpoint ", found.text().as_str());
            return Err(reject("listen", message.as_str()));
        }
        proof {
            assert(endpoints(listen@.push(found)) =~= endpoints(listen@).push(found@));
        }
        listen.push(found);
        i = i + 1;
    }
    Ok(listen)
}

/// Accepted listeners are never empty and never repeat.
pub proof fn accepted_listeners_are_distinct(
    raw: Option<Seq<Seq<char>>>,
    addresses: Seq<Option<Seq<char>>>,
)
    ensures
        listen_outcome(raw, addresses) matches Ok(list) ==> list.len() > 0 && list.no_duplicates(),
{
    if let Some(values) = raw {
        lemma_listen_distinct(values, addresses, values.len() as int);
    }
}

proof fn lemma_listen_distinct(
    values: Seq<Seq<char>>,
    addresses: Seq<Option<Seq<char>>>,
    n: int,
)
    requires
        n >= 0,
    ensures
        listen_prefix(values, addresses, n) matches Ok(list) ==> list.len() == n
            && list.no_duplicates(),
    decreases n,
{
    if n > 0 {
        lemma_listen_distinct(values, addresses, n - 1);
    }
}

// ---------------------------------------------------------------------------
// Words

pub open spec fn log_level_outcome(raw: Option<Seq<char>>) -> Result<LogLevel, ErrorView> {
    match raw {
        None => Ok(LogLevel::Info),
        Some(word) => match settings::level_of(word) {
            Some(level) => Ok(level),
            None => Err(
                rejected(
                    "log_level"@,
                    "log_level must be one of error, warn, info, debug, trace, got "@
                        + quote::debug_text(word),
                ),
            ),
        },
    }
}

pub fn validate_log_level(raw: &Option<String>) -> (r: Result<LogLevel, Error>)
    ensures
        match log_level_outcome(text::optional(*raw)) {
            Ok(level) => r == Ok::<LogLevel, Error>(level),
            Err(expected) => r matches Err(error) && error@ == expected,
        },
{
    match raw {
        None => Ok(LogLevel::Info),
        Some(word) => match LogLevel::from_word(word.as_str()) {
            Some(level) => Ok(level),
            None => {
                let message = text::cat2(
                    "log_level must be one of error, warn, info, debug, trace, got ",
                    quote::debug_quoted(word.as_str()).as_str(),
                );
                Err(reject("log_level", message.as_str()))
            },
        },
    }
}

pub open spec fn network_outcome(raw: Option<Seq<char>>) -> Result<NetworkMode, ErrorView> {
    match raw {
        None => Ok(NetworkMode::Disabled),
        Some(word) => match settings::network_of(word) {
            Some(mode) => Ok(mode),
            None => Err(
                rejected(
                    "sandbox.network"@,
                    "sandbox.network must be one of disabled, outbound, got "@ + quote::debug_text(
                        word,
                    ),
                ),
            ),
        },
    }
}

pub fn validate_network(raw: &Option<String>) -> (r: Result<NetworkMode, Error>)
    ensures
        match network_outcome(text::optional(*raw)) {
            Ok(mode) => r == Ok::<NetworkMode, Error>(mode),
            Err(expected) => r matches Err(error) && error@ == expected,
        },
{
    match raw {
        None => Ok(NetworkMode::Disabled),
        Some(word) => match NetworkMode::from_word(word.as_str()) {
            Some(mode) => Ok(mode),
            None => {
                let message = text::cat2(
                    "sandbox.network must be one of disabled, outbound, got ",
                    quote::debug_quoted(word.as_str()).as_str(),
                );
                Err(reject("sandbox.network", message.as_str()))
            },
        },
    }
}

// ---------------------------------------------------------------------------
// Paths

pub open spec fn is_absolute(path: Seq<char>) -> bool {
    path.len() > 0 && path[0] == '/'
}

/// A configured path: absent, or absolute and without NUL.
pub open spec fn path_outcome(raw: Option<Seq<char>>, field: Seq<char>) -> Result<
    Option<Seq<char>>,
    ErrorView,
> {
    match raw {
        None => Ok(None),
        Some(value) => if !is_absolute(value) {
            Err(
                rejected(
                    field,
                    field + " must be an absolute path, got "@ + quote::debug_text(value),
                ),
            )
        } else if text::occurs(value, '\0') {
            Err(rejected(field, field + " must not contain NUL"@))
        } else {
            Ok(Some(value))
        },
    }
}

pub fn validate_configured_path(raw: &Option<String>, field: &'static str) -> (r: Result<
    Option<String>,
    Error,
>)
    ensures
        match path_outcome(text::optional(*raw), field@) {
            Ok(expected) => r matches Ok(path) && text::optional(path) == expected,
            Err(expected) => r matches Err(error) && error@ == expected,
        },
{
    let value = match raw {
        None => {
            return Ok(None);
        },
        Some(value) => value,
    };
    let chars = text::chars_of(value.as_str());
    if !(chars.len() > 0 && chars[0] == '/') {
        let message = text::cat3(
            field,
            " must be an absolute path, got ",
            quote::debug_quoted(value.as_str()).as_str(),
        );
        return Err(reject(field, message.as_str()));
    }
    if text::has_char(chars.as_slice(), '\0') {
        let message = text::cat2(field, " must not contain NUL");
        return Err(reject(field, message.as_str()));
    }
    Ok(Some(value.clone()))
}

pub open spec fn cgroup_outcome(raw: Option<Seq<char>>) -> Result<Option<Seq<char>>, ErrorView> {
    match raw {
        None => Ok(None),
        Some(value) => if !is_absolute(value) {
            Err(
                rejected(
                    "sandbox.cgroup_parent"@,
                    "must be an absolute cgroup v2 directory, got "@ + quote::debug_text(value),
                ),
            )
        } else {
            Ok(Some(value))
        },
    }
}

pub fn validate_cgroup_parent(raw: &Option<String>) -> (r: Result<Option<String>, Error>)
    ensures
        match cgroup_outcome(text::optional(*raw)) {
            Ok(expected) => r matches Ok(path) && text::optional(path) == expected,
            Err(expected) => r matches Err(error) && error@ == expected,
        },
{
    let value = match raw {
        None => {
            return Ok(None);
        },
        Some(value) => value,
    };
    let chars = text::chars_of(value.as_str());
    if !(chars.len() > 0 && chars[0] == '/') {
        let message = text::cat2(
            "must be an absolute cgroup v2 directory, got ",
            quote::debug_quoted(value.as_str()).as_str(),
        );
        return Err(reject("sandbox.cgroup_parent", message.as_str()));
    }
    Ok(Some(value.clone()))
}

/// The daemon's own roots, with the role each is reported as.
pub open spec fn exposed_role(resolution: ResolutionView, path: Seq<char>) -> Option<Seq<char>> {
    if resolution.data_root matches Some(root) && paths::contains_of(root, path) {
        Some("sandbox data root"@)
    } else if resolution.state_root matches Some(root) && paths::contains_of(root, path) {
        Some("state root"@)
    } else if resolution.config_root matches Some(root) && paths::contains_of(root, path) {
        Some("config directory"@)
    } else {
        None
    }
}

/// One read path, given the canonical forms already accepted.
pub open spec fn read_path_outcome(
    value: Seq<char>,
    canonical: Result<Seq<char>, Seq<char>>,
    accepted: Seq<Seq<char>>,
    resolution: ResolutionView,
) -> Result<Seq<char>, ErrorView> {
    let field = "sandbox.read_paths"@;
    if !is_absolute(value) {
        Err(rejected(field, "read path must be absolute, got "@ + quote::debug_text(value)))
    } else if text::occurs(value, '\0') {
        Err(rejected(field, "read path must not contain NUL"@))
    } else {
        match canonical {
            Err(source) => Err(
                ErrorView::Io {
                    field,
                    message: "read path "@ + quote::debug_text(value)
                        + " does not exist or is not accessible: "@ + source,
                    source,
                },
            ),
            Ok(path) => match exposed_role(resolution, path) {
                Some(role) => Err(
                    rejected(
                        field,
                        "read path "@ + quote::debug_text(value) + " exposes the shbox "@ + role,
                    ),
                ),
                None => if accepted.contains(path) {
                    Err(rejected(field, "duplicate read path "@ + quote::debug_text(value)))
                } else {
                    Ok(path)
                },
            },
        }
    }
}

/// The first `n` read paths.
pub open spec fn read_paths_prefix(
    values: Seq<Seq<char>>,
    resolution: ResolutionView,
    n: int,
) -> Result<Seq<Seq<char>>, ErrorView>
    decreases n,
{
    if n <= 0 {
        Ok(seq![])
    } else {
        match read_paths_prefix(values, resolution, n - 1) {
            Err(error) => Err(error),
            Ok(accepted) => match read_path_outcome(
                values[n - 1],
                resolution.read_paths[n - 1],
                accepted,
                resolution,
            ) {
                Err(error) => Err(error),
                Ok(path) => Ok(accepted.push(path)),
            },
        }
    }
}

/// The read paths of a configuration, in canonical form.
pub open spec fn read_paths_outcome(
    raw: Option<Seq<Seq<char>>>,
    resolution: ResolutionView,
) -> Result<Seq<Seq<char>>, ErrorView> {
    match raw {
        None => Ok(seq![]),
        Some(values) => read_paths_prefix(values, resolution, values.len() as int),
    }
}

proof fn lemma_read_paths_stop(
    values: Seq<Seq<char>>,
    resolution: ResolutionView,
    n: int,
    m: int,
)
    requires
        n <= m,
        read_paths_prefix(values, resolution, n) is Err,
    ensures
        read_paths_prefix(values, resolution, m) == read_paths_prefix(values, resolution, n),
    decreases m - n,
{
    if n < m {
        lemma_read_paths_stop(values, resolution, n, m - 1);
    }
}

fn inside(root: &Option<String>, path: &str) -> (r: bool)
    ensures
        r == (text::optional(*root) matches Some(root) && paths::contains_of(root, path@)),
{
    match root {
        Some(root) => paths::contains(root.as_str(), path),
        None => false,
    }
}

fn validate_read_path(
    value: &String,
    canonical: &Result<String, String>,
    accepted: &Vec<String>,
    resolution: &Resolution,
) -> (r: Result<String, Error>)
    ensures
        match read_path_outcome(
            value@,
            canonical_text(*canonical),
            text::texts(accepted@),
            resolution@,
        ) {
            Ok(expected) => r matches Ok(path) && path@ == expected,
            Err(expected) => r matches Err(error) && error@ == expected,
        },
{
    let field = "sandbox.read_paths";
    let shown = quote::debug_quoted(value.as_str());
    let chars = text::chars_of(value.as_str());
    if !(chars.len() > 0 && chars[0] == '/') {
        let message = text::cat2("read path must be absolute, got ", shown.as_str());
        return Err(reject(field, message.as_str()));
    }
    if text::has_char(chars.as_slice(), '\0') {
        return Err(reject(field, "read path must not contain NUL"));
    }
    let path = match canonical {
        Err(source) => {
            return Err(
                Error::Io {
                    field,
                    message: text::cat4(
                        "read path ",
                        shown.as_str(),
                        " does not exist or is not accessible: ",
                        source.as_str(),
                    ),
                    source: source.clone(),
                },
            );
        },
        Ok(path) => path,
    };
    let role = if inside(&resolution.data_root, path.as_str()) {
        Some("sandbox data root")
    } else if inside(&resolution.state_root, path.as_str()) {
        Some("state root")
    } else if inside(&resolution.config_root, path.as_str()) {
        Some("config directory")
    } else {
        None
    };
    if let Some(role) = role {
        let message = text::cat4("read path ", shown.as_str(), " exposes the shbox ", role);
        return Err(reject(field, message.as_str()));
    }
    if text::has_text(accepted, path.as_str()) {
        let message = text::cat2("duplicate read path ", shown.as_str());
        return Err(reject(field, message.as_str()));
    }
    Ok(path.clone())
}

/// The read paths of a configuration: absolute, existing, outside the daemon's
/// own roots, and no path twice.
pub fn validate_read_paths(raw: &Option<Vec<String>>, resolution: &Resolution) -> (r: Result<
    Vec<String>,
    Error,
>)
    requires
        raw matches Some(values) ==> values@.len() <= resolution.read_paths@.len(),
    ensures
        match read_paths_outcome(raw::optional_texts(*raw), resolution@) {
            Ok(expected) => r matches Ok(list) && text::texts(list@) == expected,
            Err(expected) => r matches Err(error) && error@ == expected,
        },
{
    let mut accepted: Vec<String> = Vec::new();
    assert(text::texts(accepted@) =~= Seq::<Seq<char>>::empty());
    let values = match raw {
        None => {
            return Ok(accepted);
        },
        Some(values) => values,
    };
    let ghost list = text::texts(values@);
    let mut i: usize = 0;
    while i < values.len()
        invariant
            i <= values@.len(),
            values@.len() <= resolution.read_paths@.len(),
            list == text::texts(values@),
            raw::optional_texts(*raw) == Some(list),
            read_paths_prefix(list, resolution@, i as int) == Ok::<Seq<Seq<char>>, ErrorView>(
                text::texts(accepted@),
            ),
        decreases values@.len() - i,
    {
        proof {
            assert(list[i as int] == values@[i as int]@);
            assert(resolution@.read_paths[i as int] == canonical_text(
                resolution.read_paths@[i as int],
            ));
        }
        match validate_read_path(&values[i], &resolution.read_paths[i], &accepted, resolution) {
            Ok(path) => {
                proof {
                    assert(text::texts(accepted@.push(path)) =~= text::texts(accepted@).push(
                        path@,
                    ));
                }
                accepted.push(path);
            },
            Err(error) => {
                proof {
                    lemma_read_paths_stop(list, resolution@, i + 1, list.len() as int);
                }
                return Err(error);
            },
        }
        i = i + 1;
    }
    Ok(accepted)
}

/// No accepted read path exposes one of the daemon's own roots, and none is
/// listed twice.
pub proof fn accepted_read_paths_stay_outside(
    values: Seq<Seq<char>>,
    resolution: ResolutionView,
    n: int,
)
    requires
        n >= 0,
    ensures
        read_paths_prefix(values, resolution, n) matches Ok(list) ==> list.no_duplicates()
            && forall|i: int|
            0 <= i < list.len() ==> exposed_role(resolution, #[trigger] list[i]) is None,
    decreases n,
{
    if n > 0 {
        accepted_read_paths_stay_outside(values, resolution, n - 1);
    }
}

// ---------------------------------------------------------------------------
// Environment

pub open spec fn is_name_start(c: char) -> bool {
    'a' <= c <= 'z' || 'A' <= c <= 'Z' || c == '_'
}

pub open spec fn is_name_part(c: char) -> bool {
    is_name_start(c) || '0' <= c <= '9'
}

/// POSIX environment name: `[A-Za-z_][A-Za-z0-9_]*`.
pub open spec fn is_env_name(name: Seq<char>) -> bool {
    &&& name.len() > 0
    &&& is_name_start(name[0])
    &&& forall|i: int| 1 <= i < name.len() ==> is_name_part(#[trigger] name[i])
}

/// POSIX environment name: `[A-Za-z_][A-Za-z0-9_]*`.
pub fn is_valid_env_name(name: &str) -> (r: bool)
    ensures
        r == is_env_name(name@),
{
    let chars = text::chars_of(name);
    if chars.len() == 0 {
        return false;
    }
    let first = chars[0];
    if !(('a' <= first && first <= 'z') || ('A' <= first && first <= 'Z') || first == '_') {
        return false;
    }
    let mut i: usize = 1;
    while i < chars.len()
        invariant
            1 <= i <= chars@.len(),
            chars@ == name@,
            forall|k: int| 1 <= k < i ==> is_name_part(#[trigger] name@[k]),
        decreases chars@.len() - i,
    {
        let c = chars[i];
        if !(('a' <= c && c <= 'z') || ('A' <= c && c <= 'Z') || c == '_' || ('0' <= c && c
            <= '9')) {
            assert(!is_name_part(name@[i as int]));
            return false;
        }
        i = i + 1;
    }
    true
}

/// Why an environment name is refused, if it is.
pub open spec fn env_name_problem(name: Seq<char>) -> Option<Seq<char>> {
    let shown = quote::debug_text(name);
    if !is_env_name(name) {
        Some("environment name "@ + shown + " is not a POSIX identifier"@)
    } else if reserved::is_reserved_name(name) {
        Some("environment name "@ + shown + " is managed by shbox and cannot be set"@)
    } else if reserved::has_reserved_prefix(name) {
        Some("environment name "@ + shown + " uses a reserved prefix"@)
    } else {
        None
    }
}

/// Why an environment value is refused, if it is.
pub open spec fn env_value_problem(name: Seq<char>, value: Seq<char>) -> Option<Seq<char>> {
    let shown = quote::debug_text(name);
    if text::occurs(value, '\0') {
        Some("environment value for "@ + shown + " contains NUL"@)
    } else if vstd::utf8::encode_utf8(value).len() > MAX_ENV_VALUE_BYTES {
        Some("environment value for "@ + shown + " exceeds the 4096 byte limit"@)
    } else {
        None
    }
}

/// Why one environment entry is refused, if it is.
pub open spec fn env_problem(name: Seq<char>, value: Seq<char>) -> Option<Seq<char>> {
    match env_name_problem(name) {
        Some(problem) => Some(problem),
        None => env_value_problem(name, value),
    }
}

/// The first refused entry from position `from` on.
pub open spec fn env_problem_from(entries: env::Entries, from: int) -> Option<Seq<char>>
    decreases entries.len() - from,
{
    if from < 0 || from >= entries.len() {
        None
    } else {
        match env_problem(entries[from].0, entries[from].1) {
            Some(problem) => Some(problem),
            None => env_problem_from(entries, from + 1),
        }
    }
}

/// The environment of a configuration.
pub open spec fn env_outcome(raw: Option<env::Entries>) -> Result<env::Entries, ErrorView> {
    match raw {
        None => Ok(env::Entries::empty()),
        Some(entries) => match env_problem_from(entries, 0) {
            Some(problem) => Err(rejected("sandbox.env"@, problem)),
            None => Ok(entries),
        },
    }
}

pub fn validate_env_name(name: &str) -> (r: Result<(), Error>)
    ensures
        match env_name_problem(name@) {
            None => r is Ok,
            Some(problem) => r matches Err(error) && error@ == rejected("sandbox.env"@, problem),
        },
{
    let shown = quote::debug_quoted(name);
    let why = if !is_valid_env_name(name) {
        " is not a POSIX identifier"
    } else if reserved::reserved_name(name) {
        " is managed by shbox and cannot be set"
    } else if reserved::reserved_prefix(name) {
        " uses a reserved prefix"
    } else {
        return Ok(());
    };
    let message = text::cat3("environment name ", shown.as_str(), why);
    Err(reject("sandbox.env", message.as_str()))
}

pub fn validate_env_value(name: &str, value: &str) -> (r: Result<(), Error>)
    ensures
        match env_value_problem(name@, value@) {
            None => r is Ok,
            Some(problem) => r matches Err(error) && error@ == rejected("sandbox.env"@, problem),
        },
{
    let chars = text::chars_of(value);
    let shown = quote::debug_quoted(name);
    let why = if text::has_char(chars.as_slice(), '\0') {
        " contains NUL"
    } else if text::utf8_longer_than(chars.as_slice(), MAX_ENV_VALUE_BYTES) {
        " exceeds the 4096 byte limit"
    } else {
        return Ok(());
    };
    let message = text::cat3("environment value for ", shown.as_str(), why);
    Err(reject("sandbox.env", message.as_str()))
}

/// The environment of a configuration: every name allowed, every value clean.
pub fn validate_sandbox_env(raw: Option<EnvMap>) -> (r: Result<EnvMap, Error>)
    ensures
        match env_outcome(
            match raw {
                Some(map) => Some(map@),
                None => None,
            },
        ) {
            Ok(expected) => r matches Ok(map) && map@ == expected,
            Err(expected) => r matches Err(error) && error@ == expected,
        },
{
    let map = match raw {
        None => {
            return Ok(EnvMap::new());
        },
        Some(map) => map,
    };
    let ghost list = map@;
    let entries = map.entries();
    let mut i: usize = 0;
    while i < entries.len()
        invariant
            i <= entries@.len(),
            list == env::pairs(entries@),
            env_problem_from(list, 0) == env_problem_from(list, i as int),
            (match raw {
                Some(map) => Some(map@),
                None => None,
            }) == Some(list),
        decreases entries@.len() - i,
    {
        proof {
            assert(list[i as int] == (entries@[i as int].0@, entries@[i as int].1@));
        }
        match validate_env_name(entries[i].0.as_str()) {
            Ok(_) => {},
            Err(error) => {
                return Err(error);
            },
        }
        match validate_env_value(entries[i].0.as_str(), entries[i].1.as_str()) {
            Ok(_) => {},
            Err(error) => {
                return Err(error);
            },
        }
        i = i + 1;
    }
    Ok(map)
}

proof fn lemma_env_accepted(entries: env::Entries, from: int, i: int)
    requires
        0 <= from <= i < entries.len(),
        env_problem_from(entries, from) is None,
    ensures
        env_problem(entries[i].0, entries[i].1) is None,
    decreases i - from,
{
    if from < i {
        lemma_env_accepted(entries, from + 1, i);
    }
}

/// No accepted environment sets a name the daemon manages or refuses.
pub proof fn accepted_environments_are_clean(entries: env::Entries, i: int)
    requires
        env_outcome(Some(entries)) is Ok,
        0 <= i < entries.len(),
    ensures
        is_env_name(entries[i].0),
        !reserved::is_reserved_name(entries[i].0),
        !reserved::has_reserved_prefix(entries[i].0),
        !text::occurs(entries[i].1, '\0'),
        vstd::utf8::encode_utf8(entries[i].1).len() <= MAX_ENV_VALUE_BYTES,
{
    lemma_env_accepted(entries, 0, i);
}

/// `PATH` and `LANG` may be overridden.
pub proof fn path_and_lang_may_be_set()
    ensures
        env_name_problem("PATH"@) is None,
        env_name_problem("LANG"@) is None,
{
    reserved::lemma_path_and_lang();
    reveal_strlit("PATH");
    reveal_strlit("LANG");
}

// ---------------------------------------------------------------------------
// Resources

/// The limits that a table asks for.
pub open spec fn limits_of(sandbox: RawSandboxView) -> SandboxResources {
    SandboxResources {
        memory_bytes: sandbox.memory_max,
        swap_bytes: sandbox.swap_max,
        pids: sandbox.pids_max,
        cpu_quota_micros: sandbox.cpu_quota_micros,
        cpu_period_micros: sandbox.cpu_period_micros,
    }
}

/// The limits of a configuration, or the first field that is wrong.
pub open spec fn resources_outcome(sandbox: RawSandboxView) -> Result<SandboxResources, ErrorView> {
    if sandbox.memory_max == Some(0u64) {
        Err(rejected("sandbox.memory_max"@, "must be greater than zero bytes"@))
    } else if sandbox.swap_max == Some(0u64) {
        Err(rejected("sandbox.swap_max"@, "must be greater than zero bytes"@))
    } else if sandbox.pids_max == Some(0u32) {
        Err(rejected("sandbox.pids_max"@, "must be greater than zero"@))
    } else if sandbox.cpu_quota_micros == Some(0u64) {
        Err(rejected("sandbox.cpu_quota_micros"@, "must be greater than zero"@))
    } else if sandbox.cpu_period_micros matches Some(period) && !(1000 <= period <= 1_000_000) {
        Err(rejected("sandbox.cpu_period_micros"@, "must be between 1000 and 1000000"@))
    } else if sandbox.cpu_period_micros is Some && sandbox.cpu_quota_micros is None {
        Err(rejected("sandbox.cpu_period_micros"@, "requires sandbox.cpu_quota_micros"@))
    } else {
        Ok(limits_of(sandbox))
    }
}

fn is_zero(limit: Option<u64>) -> (r: bool)
    ensures
        r == (limit == Some(0u64)),
{
    match limit {
        Some(n) => n == 0,
        None => false,
    }
}

/// The limits of a configuration: no limit is zero, a period lies in the
/// kernel's range, and it comes with a quota.
pub fn validate_resources(sandbox: &RawSandbox) -> (r: Result<SandboxResources, Error>)
    ensures
        match resources_outcome(sandbox@) {
            Ok(expected) => r == Ok::<SandboxResources, Error>(expected),
            Err(expected) => r matches Err(error) && error@ == expected,
        },
{
    if is_zero(sandbox.memory_max) {
        return Err(reject("sandbox.memory_max", "must be greater than zero bytes"));
    }
    if is_zero(sandbox.swap_max) {
        return Err(reject("sandbox.swap_max", "must be greater than zero bytes"));
    }
    if let Some(pids) = sandbox.pids_max {
        if pids == 0 {
            return Err(reject("sandbox.pids_max", "must be greater than zero"));
        }
    }
    if is_zero(sandbox.cpu_quota_micros) {
        return Err(reject("sandbox.cpu_quota_micros", "must be greater than zero"));
    }
    if let Some(period) = sandbox.cpu_period_micros {
        if !(1000 <= period && period <= 1_000_000) {
            return Err(reject("sandbox.cpu_period_micros", "must be between 1000 and 1000000"));
        }
        if sandbox.cpu_quota_micros.is_none() {
            return Err(reject("sandbox.cpu_period_micros", "requires sandbox.cpu_quota_micros"));
        }
    }
    Ok(
        SandboxResources {
            memory_bytes: sandbox.memory_max,
            swap_bytes: sandbox.swap_max,
            pids: sandbox.pids_max,
            cpu_quota_micros: sandbox.cpu_quota_micros,
            cpu_period_micros: sandbox.cpu_period_micros,
        },
    )
}

/// Limits are accepted exactly when they are valid, and then unchanged.
pub proof fn accepted_limits_are_valid(sandbox: RawSandboxView)
    ensures
        resources_outcome(sandbox) is Ok <==> limits_of(sandbox).is_valid(),
        resources_outcome(sandbox) matches Ok(limits) ==> limits == limits_of(sandbox),
{
}

// ---------------------------------------------------------------------------
// The snapshot

/// Immutable, fully validated configuration snapshot.
#[derive(Debug)]
pub struct Config {
    listen: Vec<ListenEndpoint>,
    log_level: LogLevel,
    network: NetworkMode,
    sandbox_shell: Option<String>,
    read_paths: Vec<String>,
    sandbox_env: EnvMap,
    resources: SandboxResources,
    cgroup_parent: Option<String>,
}

/// The contents of a [`Config`].
pub struct ConfigView {
    pub listen: Seq<EndpointView>,
    pub log_level: LogLevel,
    pub network: NetworkMode,
    pub sandbox_shell: Option<Seq<char>>,
    pub read_paths: Seq<Seq<char>>,
    pub sandbox_env: env::Entries,
    pub resources: SandboxResources,
    pub cgroup_parent: Option<Seq<char>>,
}

impl View for Config {
    type V = ConfigView;

    closed spec fn view(&self) -> ConfigView {
        ConfigView {
            listen: endpoints(self.listen@),
            log_level: self.log_level,
            network: self.network,
            sandbox_shell: text::optional(self.sandbox_shell),
            read_paths: text::texts(self.read_paths@),
            sandbox_env: self.sandbox_env@,
            resources: self.resources,
            cgroup_parent: text::optional(self.cgroup_parent),
        }
    }
}

/// The `sandbox` table of a document; an absent one is empty.
pub open spec fn sandbox_of(raw: RawConfigView) -> RawSandboxView {
    match raw.sandbox {
        Some(sandbox) => sandbox,
        None => raw::empty_sandbox(),
    }
}

/// The first value that is wrong, in the order they are validated: listen,
/// log level, network, shell, read paths, environment, limits, cgroup parent.
pub open spec fn config_error(raw: RawConfigView, resolution: ResolutionView) -> Option<ErrorView> {
    let sandbox = sandbox_of(raw);
    if let Err(error) = listen_outcome(raw.listen, resolution.addresses) {
        Some(error)
    } else if let Err(error) = log_level_outcome(raw.log_level) {
        Some(error)
    } else if let Err(error) = network_outcome(sandbox.network) {
        Some(error)
    } else if let Err(error) = path_outcome(sandbox.shell, "sandbox.shell"@) {
        Some(error)
    } else if let Err(error) = read_paths_outcome(sandbox.read_paths, resolution) {
        Some(error)
    } else if let Err(error) = env_outcome(sandbox.env) {
        Some(error)
    } else if let Err(error) = resources_outcome(sandbox) {
        Some(error)
    } else if let Err(error) = cgroup_outcome(sandbox.cgroup_parent) {
        Some(error)
    } else {
        None
    }
}

/// The snapshot of a document in which nothing is wrong.
pub open spec fn config_of(raw: RawConfigView, resolution: ResolutionView) -> ConfigView {
    let sandbox = sandbox_of(raw);
    ConfigView {
        listen: listen_outcome(raw.listen, resolution.addresses)->Ok_0,
        log_level: log_level_outcome(raw.log_level)->Ok_0,
        network: network_outcome(sandbox.network)->Ok_0,
        sandbox_shell: sandbox.shell,
        read_paths: read_paths_outcome(sandbox.read_paths, resolution)->Ok_0,
        sandbox_env: env_outcome(sandbox.env)->Ok_0,
        resources: limits_of(sandbox),
        cgroup_parent: sandbox.cgroup_parent,
    }
}

/// Whether a result is the snapshot of a document.
pub open spec fn is_built(
    r: Result<Config, Error>,
    raw: RawConfigView,
    resolution: ResolutionView,
) -> bool {
    match config_error(raw, resolution) {
        Some(expected) => r matches Err(error) && error@ == expected,
        None => r matches Ok(config) && config@ == config_of(raw, resolution),
    }
}

/// Validate a document completely.
pub fn build(raw: RawConfig, resolution: &Resolution) -> (r: Result<Config, Error>)
    requires
        covers(resolution@, raw@),
    ensures
        is_built(r, raw@, resolution@),
{
    let RawConfig { listen, log_level, sandbox } = raw;
    proof {
        assert(listen matches Some(values) ==> text::texts(values@).len() == values@.len());
        assert(resolution@.addresses.len() == resolution.addresses@.len());
        assert(resolution@.read_paths.len() == resolution.read_paths@.len());
    }
    let listen = match validate_listen(&listen, &resolution.addresses) {
        Ok(listen) => listen,
        Err(error) => {
            return Err(error);
        },
    };
    let log_level = match validate_log_level(&log_level) {
        Ok(level) => level,
        Err(error) => {
            return Err(error);
        },
    };
    let sandbox = match sandbox {
        Some(sandbox) => sandbox,
        None => RawSandbox::default(),
    };
    assert(sandbox@ == sandbox_of(raw@));
    proof {
        assert(sandbox.read_paths matches Some(values) ==> text::texts(values@).len()
            == values@.len());
    }
    let network = match validate_network(&sandbox.network) {
        Ok(mode) => mode,
        Err(error) => {
            return Err(error);
        },
    };
    let sandbox_shell = match validate_configured_path(&sandbox.shell, "sandbox.shell") {
        Ok(path) => path,
        Err(error) => {
            return Err(error);
        },
    };
    let read_paths = match validate_read_paths(&sandbox.read_paths, resolution) {
        Ok(list) => list,
        Err(error) => {
            return Err(error);
        },
    };
    let resources = validate_resources(&sandbox);
    let cgroup_parent = validate_cgroup_parent(&sandbox.cgroup_parent);
    let sandbox_env = match validate_sandbox_env(sandbox.env) {
        Ok(map) => map,
        Err(error) => {
            return Err(error);
        },
    };
    let resources = match resources {
        Ok(limits) => limits,
        Err(error) => {
            return Err(error);
        },
    };
    let cgroup_parent = match cgroup_parent {
        Ok(path) => path,
        Err(error) => {
            return Err(error);
        },
    };
    Ok(
        Config {
            listen,
            log_level,
            network,
            sandbox_shell,
            read_paths,
            sandbox_env,
            resources,
            cgroup_parent,
        },
    )
}

/// The document with the command-line listeners layered in: they stand in for
/// the file value only where the file names none.
pub open spec fn layered_listen(
    raw: RawConfigView,
    cli_listen: Option<Seq<EndpointView>>,
) -> RawConfigView {
    match (raw.listen, cli_listen) {
        (None, Some(list)) => RawConfigView {
            listen: Some(list.map_values(|e: EndpointView| endpoint::endpoint_text(e))),
            ..raw
        },
        _ => raw,
    }
}

/// The contents of optional endpoints.
pub open spec fn optional_endpoints(list: Option<&Vec<ListenEndpoint>>) -> Option<
    Seq<EndpointView>,
> {
    match list {
        Some(list) => Some(endpoints(list@)),
        None => None,
    }
}

/// Layer the command-line listeners over a document.
pub fn layer_listen(raw: RawConfig, cli_listen: Option<&Vec<ListenEndpoint>>) -> (r: RawConfig)
    ensures
        r@ == layered_listen(raw@, optional_endpoints(cli_listen)),
{
    let RawConfig { listen, log_level, sandbox } = raw;
    let listen = match (listen, cli_listen) {
        (None, Some(list)) => {
            let ghost expected = endpoints(list@).map_values(
                |e: EndpointView| endpoint::endpoint_text(e),
            );
            let mut texts: Vec<String> = Vec::new();
            let mut i: usize = 0;
            assert(text::texts(texts@) =~= expected.take(0));
            while i < list.len()
                invariant
                    i <= list@.len(),
                    expected == endpoints(list@).map_values(
                        |e: EndpointView| endpoint::endpoint_text(e),
                    ),
                    text::texts(texts@) == expected.take(i as int),
                decreases list@.len() - i,
            {
                let entry = list[i].text();
                proof {
                    assert(expected[i as int] == entry@);
                    assert(text::texts(texts@.push(entry)) =~= text::texts(texts@).push(entry@));
                    assert(expected.take(i + 1) =~= expected.take(i as int).push(
                        expected[i as int],
                    ));
                }
                texts.push(entry);
                i = i + 1;
            }
            assert(expected.take(expected.len() as int) =~= expected);
            Some(texts)
        },
        (listen, _) => listen,
    };
    RawConfig { listen, log_level, sandbox }
}

impl Config {
    /// Build the snapshot of an optional config file. A missing file selects
    /// the built-in defaults; a present but unusable file is an error, never a
    /// silent fallback. `cli_listen` stands in where the file omits `listen`.
    pub fn load_snapshot(
        file: Result<Option<RawConfig>, Error>,
        cli_listen: Option<&Vec<ListenEndpoint>>,
        resolution: &Resolution,
    ) -> (r: Result<Config, Error>)
        requires
            file matches Ok(Some(raw)) ==> covers(
                resolution@,
                layered_listen(raw@, optional_endpoints(cli_listen)),
            ),
            file matches Ok(None) ==> covers(
                resolution@,
                layered_listen(raw::empty_config(), optional_endpoints(cli_listen)),
            ),
        ensures
            match file {
                Err(expected) => r matches Err(error) && error@ == expected@,
                Ok(Some(raw)) => is_built(
                    r,
                    layered_listen(raw@, optional_endpoints(cli_listen)),
                    resolution@,
                ),
                Ok(None) => is_built(
                    r,
                    layered_listen(raw::empty_config(), optional_endpoints(cli_listen)),
                    resolution@,
                ),
            },
    {
        let raw = match file {
            Err(error) => {
                return Err(error);
            },
            Ok(Some(raw)) => raw,
            Ok(None) => RawConfig::default(),
        };
        build(layer_listen(raw, cli_listen), resolution)
    }

    /// Listener endpoints to bind, with the built-in default applied.
    pub fn listen(&self) -> (r: &[ListenEndpoint])
        ensures
            endpoints(r@) == self@.listen,
    {
        self.listen.as_slice()
    }

    /// Daemon log verbosity for this run.
    pub fn log_level(&self) -> (r: LogLevel)
        ensures
            r == self@.log_level,
    {
        self.log_level
    }

    /// Sandbox network policy for this run.
    pub fn network(&self) -> (r: NetworkMode)
        ensures
            r == self@.network,
    {
        self.network
    }

    /// Configured sandbox shell override.
    pub fn sandbox_shell(&self) -> (r: Option<&str>)
        ensures
            match r {
                Some(path) => self@.sandbox_shell == Some(path@),
                None => self@.sandbox_shell is None,
            },
    {
        match &self.sandbox_shell {
            Some(path) => Some(path.as_str()),
            None => None,
        }
    }

    /// Additional read-only subtrees for sandbox processes.
    pub fn read_paths(&self) -> (r: &Vec<String>)
        ensures
            text::texts(r@) == self@.read_paths,
    {
        &self.read_paths
    }

    /// Extra environment injected into every sandbox process.
    pub fn sandbox_env(&self) -> (r: &EnvMap)
        ensures
            r@ == self@.sandbox_env,
    {
        &self.sandbox_env
    }

    /// Resource limits each durable sandbox applies.
    pub fn resources(&self) -> (r: &SandboxResources)
        ensures
            *r == self@.resources,
    {
        &self.resources
    }

    /// Operator-specified cgroup directory to create sandbox cgroups under.
    pub fn cgroup_parent(&self) -> (r: Option<&str>)
        ensures
            match r {
                Some(path) => self@.cgroup_parent == Some(path@),
                None => self@.cgroup_parent is None,
            },
    {
        match &self.cgroup_parent {
            Some(path) => Some(path.as_str()),
            None => None,
        }
    }
}

/// The built-in defaults.
pub open spec fn default_config() -> ConfigView {
    ConfigView {
        listen: default_endpoints(),
        log_level: LogLevel::Info,
        network: NetworkMode::Disabled,
        sandbox_shell: None,
        read_paths: seq![],
        sandbox_env: env::Entries::empty(),
        resources: limits_of(raw::empty_sandbox()),
        cgroup_parent: None,
    }
}

/// The built-in defaults, as they result from an empty configuration.
pub fn defaults() -> (r: Config)
    ensures
        r@ == default_config(),
{
    let resolution = Resolution {
        addresses: Vec::new(),
        read_paths: Vec::new(),
        data_root: None,
        state_root: None,
        config_root: None,
    };
    proof {
        empty_documents_build_the_defaults(resolution@);
    }
    build(RawConfig::default(), &resolution).unwrap()
}

/// An empty document builds the built-in defaults, whatever the system says.
pub proof fn empty_documents_build_the_defaults(resolution: ResolutionView)
    ensures
        config_error(raw::empty_config(), resolution) is None,
        config_of(raw::empty_config(), resolution) == default_config(),
{
}

/// The texts of endpoints.
pub open spec fn endpoint_texts(list: Seq<EndpointView>) -> Seq<Seq<char>> {
    list.map_values(|e: EndpointView| endpoint::endpoint_text(e))
}

/// Distinct canonical endpoints, and the answers about their own addresses.
pub open spec fn are_own_addresses(
    list: Seq<EndpointView>,
    addresses: Seq<Option<Seq<char>>>,
) -> bool {
    &&& list.len() > 0
    &&& list.len() <= addresses.len()
    &&& list.no_duplicates()
    &&& forall|i: int| 0 <= i < list.len() ==> endpoint::is_canonical(#[trigger] list[i])
    &&& forall|i: int|
        0 <= i < list.len() ==> #[trigger] addresses[i] == Some(endpoint::address_of(list[i]))
}

proof fn lemma_endpoints_come_back(
    list: Seq<EndpointView>,
    addresses: Seq<Option<Seq<char>>>,
    n: int,
)
    requires
        are_own_addresses(list, addresses),
        0 <= n <= list.len(),
    ensures
        listen_prefix(endpoint_texts(list), addresses, n) == Ok::<Seq<EndpointView>, ErrorView>(
            list.take(n),
        ),
    decreases n,
{
    if n > 0 {
        let last = list[n - 1];
        lemma_endpoints_come_back(list, addresses, n - 1);
        endpoint::endpoint_round_trip(last);
        assert(endpoint_texts(list)[n - 1] == endpoint::endpoint_text(last));
        assert(addresses[n - 1] == Some(endpoint::address_of(last)));
        let before = list.take(n - 1);
        if before.contains(last) {
            let k = choose|k: int| 0 <= k < before.len() && before[k] == last;
            assert(list[k] == list[n - 1]);
        }
        assert(list.take(n) =~= before.push(last));
    } else {
        assert(list.take(0) =~= Seq::<EndpointView>::empty());
    }
}

/// Distinct canonical endpoints, written out and parsed with their own
/// addresses, come back as themselves.
pub proof fn written_endpoints_come_back(
    list: Seq<EndpointView>,
    addresses: Seq<Option<Seq<char>>>,
)
    requires
        are_own_addresses(list, addresses),
    ensures
        listen_outcome(Some(endpoint_texts(list)), addresses) == Ok::<
            Seq<EndpointView>,
            ErrorView,
        >(list),
{
    lemma_endpoints_come_back(list, addresses, list.len() as int);
    assert(list.take(list.len() as int) =~= list);
}

/// Where the file names no listener, the snapshot has the command line's, or
/// the default without any, and nothing else of it depends on the command line.
pub proof fn the_command_line_only_sets_listeners(
    raw: RawConfigView,
    list: Seq<EndpointView>,
    resolution: ResolutionView,
)
    requires
        raw.listen is None,
        are_own_addresses(list, resolution.addresses),
    ensures
        config_error(layered_listen(raw, Some(list)), resolution) == config_error(raw, resolution),
        config_of(layered_listen(raw, Some(list)), resolution) == (ConfigView {
            listen: list,
            ..config_of(raw, resolution)
        }),
        layered_listen(raw, None) == raw,
        config_of(raw, resolution).listen == default_endpoints(),
{
    written_endpoints_come_back(list, resolution.addresses);
}

/// The command line only fills in for a file that names no listener.
pub proof fn the_file_wins_over_the_command_line(
    raw: RawConfigView,
    cli_listen: Option<Seq<EndpointView>>,
)
    requires
        raw.listen is Some,
    ensures
        layered_listen(raw, cli_listen) == raw,
{
}

// ---------------------------------------------------------------------------
// What is accepted

/// An entry that an operator may set: a POSIX name that is not reserved, and a
/// value without NUL that fits the limit.
pub open spec fn is_settable(name: Seq<char>, value: Seq<char>) -> bool {
    &&& is_env_name(name)
    &&& !reserved::is_reserved_name(name)
    &&& !reserved::has_reserved_prefix(name)
    &&& forall|i: int| 0 <= i < value.len() ==> #[trigger] value[i] != '\0'
    &&& vstd::utf8::encode_utf8(value).len() <= 4096
}

proof fn lemma_env_accepts(entries: env::Entries, from: int)
    requires
        0 <= from <= entries.len(),
        forall|i: int|
            from <= i < entries.len() ==> is_settable(
                (#[trigger] entries[i]).0,
                entries[i].1,
            ),
    ensures
        env_problem_from(entries, from) is None,
    decreases entries.len() - from,
{
    if from < entries.len() {
        assert(is_settable(entries[from].0, entries[from].1));
        text::lemma_find(entries[from].1, '\0', 0);
        lemma_env_accepts(entries, from + 1);
    }
}

/// An environment is accepted, unchanged, exactly when every entry may be set:
/// a value may hold any other character.
pub proof fn settable_environments_are_accepted(entries: env::Entries)
    ensures
        env_outcome(Some(entries)) is Ok <==> forall|i: int|
            0 <= i < entries.len() ==> is_settable((#[trigger] entries[i]).0, entries[i].1),
        env_outcome(Some(entries)) matches Ok(accepted) ==> accepted == entries,
        env_outcome(None) == Ok::<env::Entries, ErrorView>(env::Entries::empty()),
{
    if env_outcome(Some(entries)) is Ok {
        assert forall|i: int| 0 <= i < entries.len() implies is_settable(
            (#[trigger] entries[i]).0,
            entries[i].1,
        ) by {
            accepted_environments_are_clean(entries, i);
            lemma_absent(entries[i].1, '\0', 0);
        }
    }
    if forall|i: int|
        0 <= i < entries.len() ==> is_settable((#[trigger] entries[i]).0, entries[i].1) {
        lemma_env_accepts(entries, 0);
    }
}

proof fn lemma_absent(s: Seq<char>, c: char, from: int)
    requires
        0 <= from <= s.len(),
        text::find_from(s, c, from) >= s.len(),
    ensures
        forall|i: int| from <= i < s.len() ==> #[trigger] s[i] != c,
{
    text::lemma_find(s, c, from);
}

/// A config file is read exactly when it is a regular file of the daemon user
/// that nobody else can write; only a missing one selects the defaults.
pub proof fn only_safe_config_files_are_read(stat: ConfigStat, euid: u32)
    ensures
        file_outcome(stat, euid) == Ok::<bool, ErrorView>(false) <==> stat is Missing,
        file_outcome(stat, euid) == Ok::<bool, ErrorView>(true) <==> (
        stat matches ConfigStat::Found { is_file, uid, mode } && is_file && uid == euid && mode
            & 0o022 == 0),
{
}

/// A document is the whole text of the file, as long as it is UTF-8 of at most
/// one MiB.
pub proof fn documents_are_read_whole(read: Result<Vec<u8>, String>)
    ensures
        document_outcome(read) is Ok <==> (read matches Ok(bytes) && bytes@.len() <= 1048576
            && vstd::utf8::valid_utf8(bytes@)),
        document_outcome(read) matches Ok(document) ==> vstd::utf8::encode_utf8(document)
            == read->Ok_0@,
        document_outcome(read) matches Err(ErrorView::TooLarge { limit, .. }) ==> limit == 1048576
            && read->Ok_0@.len() > limit,
{
    if let Ok(bytes) = read {
        if vstd::utf8::valid_utf8(bytes@) {
            vstd::utf8::decode_utf8_encode_utf8(bytes@);
        }
    }
}

proof fn lemma_listen_entries(
    values: Seq<Seq<char>>,
    addresses: Seq<Option<Seq<char>>>,
    list: Seq<EndpointView>,
    n: int,
)
    requires
        0 <= n <= values.len(),
        n == list.len(),
    ensures
        listen_prefix(values, addresses, n) == Ok::<Seq<EndpointView>, ErrorView>(list) <==> {
            &&& list.no_duplicates()
            &&& forall|i: int|
                0 <= i < n ==> endpoint::parsed(values[i], addresses[i]) == Ok::<
                    EndpointView,
                    endpoint::EndpointErrorView,
                >(#[trigger] list[i])
        },
    decreases n,
{
    if n > 0 {
        let short = list.drop_last();
        let last = list.last();
        lemma_listen_entries(values, addresses, short, n - 1);
        assert(short.push(last) =~= list);
        if list.no_duplicates() {
            assert(short.no_duplicates());
            if short.contains(last) {
                let k = choose|k: int| 0 <= k < short.len() && short[k] == last;
                assert(list[k] == list[n - 1]);
            }
        }
        if short.no_duplicates() && !short.contains(last) {
            assert forall|i: int, j: int| 0 <= i < list.len() && 0 <= j < list.len() && i
                != j implies list[i] != list[j] by {
                if i == n - 1 {
                    assert(short.contains(short[j]));
                } else if j == n - 1 {
                    assert(short.contains(short[i]));
                } else {
                    assert(short[i] != short[j]);
                }
            }
        }
        assert(list[n - 1] == last);
        assert forall|i: int| 0 <= i < n - 1 implies #[trigger] short[i] == list[i] by {}
        if listen_prefix(values, addresses, n) == Ok::<Seq<EndpointView>, ErrorView>(list) {
            let found = listen_prefix(values, addresses, n - 1)->Ok_0;
            assert(found =~= short) by {
                assert(list.drop_last() == found.push(list.last()).drop_last());
                assert(found.push(list.last()).drop_last() =~= found);
            }
            assert forall|i: int| 0 <= i < n implies endpoint::parsed(values[i], addresses[i])
                == Ok::<EndpointView, endpoint::EndpointErrorView>(#[trigger] list[i]) by {
                if i < n - 1 {
                    assert(short[i] == list[i]);
                }
            }
        }
        if list.no_duplicates() && forall|i: int|
            0 <= i < n ==> endpoint::parsed(values[i], addresses[i]) == Ok::<
                EndpointView,
                endpoint::EndpointErrorView,
            >(#[trigger] list[i]) {
            assert forall|i: int| 0 <= i < n - 1 implies endpoint::parsed(values[i], addresses[i])
                == Ok::<EndpointView, endpoint::EndpointErrorView>(#[trigger] short[i]) by {
                assert(short[i] == list[i]);
            }
        }
    } else {
        assert(list =~= Seq::<EndpointView>::empty());
    }
}

/// The listeners are the parsed entries, one for one and in order; they are
/// accepted exactly when there is one, every entry parses, and no two parse to
/// the same endpoint. Without any entry, SSH is served on port 22.
pub proof fn listeners_are_the_parsed_entries(
    values: Seq<Seq<char>>,
    addresses: Seq<Option<Seq<char>>>,
    list: Seq<EndpointView>,
)
    requires
        list.len() == values.len(),
    ensures
        listen_outcome(Some(values), addresses) == Ok::<Seq<EndpointView>, ErrorView>(list) <==> {
            &&& values.len() > 0
            &&& list.no_duplicates()
            &&& forall|i: int|
                0 <= i < values.len() ==> endpoint::parsed(values[i], addresses[i]) == Ok::<
                    EndpointView,
                    endpoint::EndpointErrorView,
                >(#[trigger] list[i])
        },
        listen_outcome(None, addresses) == Ok::<Seq<EndpointView>, ErrorView>(
            seq![EndpointView::Tcp { address: "0.0.0.0:22"@ }],
        ),
{
    lemma_listen_entries(values, addresses, list, values.len() as int);
}

/// The words of a document: a level or a mode is accepted exactly by its word,
/// and the level is info and the network disabled where none is given.
pub proof fn configured_words_are_exact(word: Seq<char>, level: LogLevel, mode: NetworkMode)
    ensures
        log_level_outcome(Some(word)) == Ok::<LogLevel, ErrorView>(level) <==> word
            == settings::level_word(level),
        log_level_outcome(None) == Ok::<LogLevel, ErrorView>(LogLevel::Info),
        network_outcome(Some(word)) == Ok::<NetworkMode, ErrorView>(mode) <==> word
            == settings::network_word(mode),
        network_outcome(None) == Ok::<NetworkMode, ErrorView>(NetworkMode::Disabled),
        log_level_outcome(Some(word)) matches Err(error) ==> (error matches ErrorView::Invalid {
            field,
            ..
        } && field == "log_level"@),
        network_outcome(Some(word)) matches Err(error) ==> (error matches ErrorView::Invalid {
            field,
            ..
        } && field == "sandbox.network"@),
{
    settings::words_read_back(mode, level);
    settings::words_are_exact(word);
}

/// A configured path is accepted, unchanged, exactly when it starts at the root
/// and holds no NUL; a cgroup parent only has to start at the root.
pub proof fn configured_paths_are_absolute(value: Seq<char>, field: Seq<char>)
    ensures
        path_outcome(Some(value), field) is Ok <==> value.len() > 0 && value[0] == '/'
            && !value.contains('\0'),
        path_outcome(Some(value), field) matches Ok(path) ==> path == Some(value),
        path_outcome(None, field) == Ok::<Option<Seq<char>>, ErrorView>(None),
        path_outcome(Some(value), field) matches Err(error) ==> (error matches ErrorView::Invalid {
            field: named,
            ..
        } && named == field),
        cgroup_outcome(Some(value)) is Ok <==> value.len() > 0 && value[0] == '/',
        cgroup_outcome(Some(value)) matches Ok(path) ==> path == Some(value),
        cgroup_outcome(None) == Ok::<Option<Seq<char>>, ErrorView>(None),
{
    text::occurring_means_some_position(value, '\0');
}

/// A root, if it exists, contains a path.
pub open spec fn root_contains(root: Option<Seq<char>>, path: Seq<char>) -> bool {
    root matches Some(root) && paths::contains_of(root, path)
}

proof fn lemma_read_path_entries(
    values: Seq<Seq<char>>,
    resolution: ResolutionView,
    list: Seq<Seq<char>>,
    n: int,
)
    requires
        0 <= n <= values.len(),
        n == list.len(),
    ensures
        read_paths_prefix(values, resolution, n) == Ok::<Seq<Seq<char>>, ErrorView>(list) <==> {
            &&& list.no_duplicates()
            &&& forall|i: int| 0 <= i < n ==> is_readable(values, resolution, #[trigger] list[i], i)
        },
    decreases n,
{
    if n > 0 {
        let short = list.drop_last();
        let last = list.last();
        lemma_read_path_entries(values, resolution, short, n - 1);
        text::occurring_means_some_position(values[n - 1], '\0');
        assert(short.push(last) =~= list);
        assert(list[n - 1] == last);
        assert forall|i: int| 0 <= i < n - 1 implies #[trigger] short[i] == list[i] by {}
        if list.no_duplicates() {
            assert(short.no_duplicates());
            if short.contains(last) {
                let k = choose|k: int| 0 <= k < short.len() && short[k] == last;
                assert(list[k] == list[n - 1]);
            }
        }
        if short.no_duplicates() && !short.contains(last) {
            assert forall|i: int, j: int| 0 <= i < list.len() && 0 <= j < list.len() && i
                != j implies list[i] != list[j] by {
                if i == n - 1 {
                    assert(short.contains(short[j]));
                } else if j == n - 1 {
                    assert(short.contains(short[i]));
                } else {
                    assert(short[i] != short[j]);
                }
            }
        }
        if read_paths_prefix(values, resolution, n) == Ok::<Seq<Seq<char>>, ErrorView>(list) {
            let found = read_paths_prefix(values, resolution, n - 1)->Ok_0;
            assert(found.push(list.last()).drop_last() =~= found);
            assert(found =~= short);
            assert forall|i: int| 0 <= i < n implies is_readable(
                values,
                resolution,
                #[trigger] list[i],
                i,
            ) by {
                if i < n - 1 {
                    assert(short[i] == list[i]);
                }
            }
        }
        if list.no_duplicates() && forall|i: int|
            0 <= i < n ==> is_readable(values, resolution, #[trigger] list[i], i) {
            assert forall|i: int| 0 <= i < n - 1 implies is_readable(
                values,
                resolution,
                #[trigger] short[i],
                i,
            ) by {
                assert(short[i] == list[i]);
            }
        }
    } else {
        assert(list =~= Seq::<Seq<char>>::empty());
    }
}

/// An entry may be read as a path: it is absolute, holds no NUL, has that
/// canonical form, and lies in none of the daemon's own roots.
pub open spec fn is_readable(
    values: Seq<Seq<char>>,
    resolution: ResolutionView,
    path: Seq<char>,
    i: int,
) -> bool {
    &&& values[i].len() > 0 && values[i][0] == '/'
    &&& !values[i].contains('\0')
    &&& resolution.read_paths[i] == Ok::<Seq<char>, Seq<char>>(path)
    &&& !root_contains(resolution.data_root, path)
    &&& !root_contains(resolution.state_root, path)
    &&& !root_contains(resolution.config_root, path)
}

/// The read paths are the canonical forms of the entries, one for one and in
/// order; they are accepted exactly when every entry may be read and no two
/// have the same canonical form.
pub proof fn read_paths_are_the_canonical_entries(
    values: Seq<Seq<char>>,
    resolution: ResolutionView,
    list: Seq<Seq<char>>,
)
    requires
        list.len() == values.len(),
    ensures
        read_paths_outcome(Some(values), resolution) == Ok::<Seq<Seq<char>>, ErrorView>(list)
            <==> {
            &&& list.no_duplicates()
            &&& forall|i: int|
                0 <= i < values.len() ==> is_readable(values, resolution, #[trigger] list[i], i)
        },
        read_paths_outcome(None, resolution) == Ok::<Seq<Seq<char>>, ErrorView>(seq![]),
{
    lemma_read_path_entries(values, resolution, list, values.len() as int);
}

/// A document is accepted exactly when each of its values is, and the snapshot
/// holds them: what was parsed, and the rest unchanged.
pub proof fn accepted_documents_are_kept(raw: RawConfigView, resolution: ResolutionView)
    ensures
        ({
            let sandbox = sandbox_of(raw);
            let config = config_of(raw, resolution);
            let limits = config.resources;
            &&& config_error(raw, resolution) is None <==> {
                &&& listen_outcome(raw.listen, resolution.addresses) is Ok
                &&& log_level_outcome(raw.log_level) is Ok
                &&& network_outcome(sandbox.network) is Ok
                &&& path_outcome(sandbox.shell, "sandbox.shell"@) is Ok
                &&& read_paths_outcome(sandbox.read_paths, resolution) is Ok
                &&& env_outcome(sandbox.env) is Ok
                &&& resources_outcome(sandbox) is Ok
                &&& cgroup_outcome(sandbox.cgroup_parent) is Ok
            }
            &&& config_error(raw, resolution) is None ==> {
                &&& listen_outcome(raw.listen, resolution.addresses) == Ok::<
                    Seq<EndpointView>,
                    ErrorView,
                >(config.listen)
                &&& log_level_outcome(raw.log_level) == Ok::<LogLevel, ErrorView>(config.log_level)
                &&& network_outcome(sandbox.network) == Ok::<NetworkMode, ErrorView>(config.network)
                &&& read_paths_outcome(sandbox.read_paths, resolution) == Ok::<
                    Seq<Seq<char>>,
                    ErrorView,
                >(config.read_paths)
                &&& sandbox.env matches Some(entries) ==> config.sandbox_env == entries
                &&& sandbox.env is None ==> config.sandbox_env.len() == 0
                &&& config.sandbox_shell == sandbox.shell
                &&& config.cgroup_parent == sandbox.cgroup_parent
                &&& limits.memory_bytes == sandbox.memory_max
                &&& limits.swap_bytes == sandbox.swap_max
                &&& limits.pids == sandbox.pids_max
                &&& limits.cpu_quota_micros == sandbox.cpu_quota_micros
                &&& limits.cpu_period_micros == sandbox.cpu_period_micros
            }
            &&& raw.sandbox matches Some(table) ==> sandbox == table
        }),
{
}

/// Limits are accepted exactly when none is zero, and a CPU period is between a
/// millisecond and a second and comes with a quota.
pub proof fn limits_are_positive(sandbox: RawSandboxView)
    ensures
        resources_outcome(sandbox) is Ok <==> {
            &&& sandbox.memory_max matches Some(n) ==> n > 0
            &&& sandbox.swap_max matches Some(n) ==> n > 0
            &&& sandbox.pids_max matches Some(n) ==> n > 0
            &&& sandbox.cpu_quota_micros matches Some(n) ==> n > 0
            &&& sandbox.cpu_period_micros matches Some(n) ==> 1000 <= n <= 1000000
            &&& sandbox.cpu_period_micros is Some ==> sandbox.cpu_quota_micros is Some
        },
{
}

/// The built-in defaults: SSH on port 22, info, no network, the account's own
/// shell, and nothing granted, set or limited.
pub proof fn defaults_grant_nothing()
    ensures
        ({
            let config = default_config();
            &&& config.listen == seq![EndpointView::Tcp { address: "0.0.0.0:22"@ }]
            &&& config.log_level == LogLevel::Info
            &&& config.network == NetworkMode::Disabled
            &&& config.sandbox_shell is None
            &&& config.read_paths.len() == 0
            &&& config.sandbox_env.len() == 0
            &&& config.resources.memory_bytes is None
            &&& config.resources.swap_bytes is None
            &&& config.resources.pids is None
            &&& config.resources.cpu_quota_micros is None
            &&& config.resources.cpu_period_micros is None
            &&& config.cgroup_parent is None
        }),
{
}

/// The daemon sets the workspace, the shell, the terminal and the temp directory
/// itself: no environment may.
pub proof fn managed_names_are_refused(entries: env::Entries, i: int)
    requires
        0 <= i < entries.len(),
        ({
            let name = entries[i].0;
            ||| name == "HOME"@
            ||| name == "PWD"@
            ||| name == "SHELL"@
            ||| name == "TMPDIR"@
            ||| name == "TERM"@
        }),
    ensures
        env_outcome(Some(entries)) is Err,
{
    if env_outcome(Some(entries)) is Ok {
        accepted_environments_are_clean(entries, i);
    }
}

/// No environment may steer the launcher or the platform.
pub proof fn launcher_names_are_refused(entries: env::Entries, i: int)
    requires
        0 <= i < entries.len(),
        ({
            let name = entries[i].0;
            ||| name == "AGENT_NETWORK_PROXY"@
            ||| name == "__COMPAT_LAYER"@
            ||| name == "COMSPEC"@
            ||| name == "PSModulePath"@
            ||| name == "PATHEXT"@
        }),
    ensures
        env_outcome(Some(entries)) is Err,
{
    if env_outcome(Some(entries)) is Ok {
        accepted_environments_are_clean(entries, i);
    }
}

/// No environment may make an interpreter run other code.
pub proof fn interpreter_names_are_refused(entries: env::Entries, i: int)
    requires
        0 <= i < entries.len(),
        ({
            let name = entries[i].0;
            ||| name == "BASH_ENV"@
            ||| name == "ENV"@
            ||| name == "PYTHONPATH"@
            ||| name == "PYTHONSTARTUP"@
            ||| name == "PYTHONHOME"@
            ||| name == "NODE_OPTIONS"@
            ||| name == "PERL5OPT"@
            ||| name == "PERL5LIB"@
            ||| name == "RUBYOPT"@
            ||| name == "RUBYLIB"@
            ||| name == "ZDOTDIR"@
            ||| name == "IFS"@
            ||| name == "PROMPT_COMMAND"@
        }),
    ensures
        env_outcome(Some(entries)) is Err,
{
    if env_outcome(Some(entries)) is Ok {
        accepted_environments_are_clean(entries, i);
    }
}

/// No environment may make a runtime or a tool run other code.
pub proof fn tool_names_are_refused(entries: env::Entries, i: int)
    requires
        0 <= i < entries.len(),
        ({
            let name = entries[i].0;
            ||| name == "GCONV_PATH"@
            ||| name == "HOSTALIASES"@
            ||| name == "LOCPATH"@
            ||| name == "GETCONF_DIR"@
            ||| name == "JAVA_TOOL_OPTIONS"@
            ||| name == "_JAVA_OPTIONS"@
            ||| name == "CLASSPATH"@
            ||| name == "GOFLAGS"@
            ||| name == "GIT_CONFIG_GLOBAL"@
            ||| name == "GIT_CONFIG_SYSTEM"@
            ||| name == "GIT_SSH_COMMAND"@
            ||| name == "GIT_SSH"@
            ||| name == "GIT_EXEC_PATH"@
            ||| name == "GIT_TEMPLATE_DIR"@
            ||| name == "GIT_EXTERNAL_DIFF"@
            ||| name == "GIT_ASKPASS"@
            ||| name == "GIT_EDITOR"@
            ||| name == "GIT_SEQUENCE_EDITOR"@
            ||| name == "OPENSSL_CONF"@
            ||| name == "EDITOR"@
            ||| name == "VISUAL"@
            ||| name == "PAGER"@
            ||| name == "CARGO_HOME"@
        }),
    ensures
        env_outcome(Some(entries)) is Err,
{
    if env_outcome(Some(entries)) is Ok {
        accepted_environments_are_clean(entries, i);
    }
}

/// No environment may redirect traffic or replace certificates.
pub proof fn proxy_names_are_refused(entries: env::Entries, i: int)
    requires
        0 <= i < entries.len(),
        ({
            let name = entries[i].0;
            ||| name == "http_proxy"@
            ||| name == "HTTP_PROXY"@
            ||| name == "https_proxy"@
            ||| name == "HTTPS_PROXY"@
            ||| name == "ALL_PROXY"@
            ||| name == "all_proxy"@
            ||| name == "NO_PROXY"@
            ||| name == "no_proxy"@
            ||| name == "ftp_proxy"@
            ||| name == "FTP_PROXY"@
            ||| name == "SOCKS_PROXY"@
            ||| name == "socks_proxy"@
            ||| name == "CGI_HTTP_PROXY"@
            ||| name == "CURL_CA_BUNDLE"@
            ||| name == "SSL_CERT_FILE"@
            ||| name == "SSL_CERT_DIR"@
            ||| name == "REQUESTS_CA_BUNDLE"@
        }),
    ensures
        env_outcome(Some(entries)) is Err,
{
    if env_outcome(Some(entries)) is Ok {
        accepted_environments_are_clean(entries, i);
    }
}

/// No environment may set a name of the daemon's own, of the dynamic loader, or
/// of a managed runtime, whatever follows the prefix.
pub proof fn reserved_prefixes_are_refused(entries: env::Entries, i: int, rest: Seq<char>)
    requires
        0 <= i < entries.len(),
        ({
            let name = entries[i].0;
            ||| name == "SHBOX_"@ + rest
            ||| name == "LD_"@ + rest
            ||| name == "DYLD_"@ + rest
            ||| name == "COR_"@ + rest
            ||| name == "CORECLR_"@ + rest
            ||| name == "DOTNET_"@ + rest
            ||| name == "COMPLUS_"@ + rest
        }),
    ensures
        env_outcome(Some(entries)) is Err,
{
    text::lemma_ends("SHBOX_"@, rest);
    text::lemma_ends("LD_"@, rest);
    text::lemma_ends("DYLD_"@, rest);
    text::lemma_ends("COR_"@, rest);
    text::lemma_ends("CORECLR_"@, rest);
    text::lemma_ends("DOTNET_"@, rest);
    text::lemma_ends("COMPLUS_"@, rest);
    if env_outcome(Some(entries)) is Ok {
        accepted_environments_are_clean(entries, i);
    }
}

/// A name is a POSIX identifier exactly when it starts with a letter or an
/// underscore and goes on with letters, digits and underscores.
pub proof fn names_are_posix_identifiers(name: Seq<char>)
    ensures
        is_env_name(name) <==> {
            &&& name.len() > 0
            &&& !('0' <= name[0] <= '9')
            &&& forall|i: int|
                0 <= i < name.len() ==> {
                    ||| 'A' <= (#[trigger] name[i]) <= 'Z'
                    ||| 'a' <= name[i] <= 'z'
                    ||| '0' <= name[i] <= '9'
                    ||| name[i] == '_'
                }
        },
{
    if name.len() > 0 {
        if is_env_name(name) {
            assert forall|i: int| 0 <= i < name.len() implies {
                ||| 'A' <= (#[trigger] name[i]) <= 'Z'
                ||| 'a' <= name[i] <= 'z'
                ||| '0' <= name[i] <= '9'
                ||| name[i] == '_'
            } by {
                if i > 0 {
                    assert(is_name_part(name[i]));
                }
            }
        }
        if !is_env_name(name) && !('0' <= name[0] <= '9') && is_name_part(name[0]) {
            let i = choose|i: int| 1 <= i < name.len() && !is_name_part(#[trigger] name[i]);
            assert(!is_name_part(name[i]));
        }
    }
}

/// A read path is reported under the first root that contains it: the data
/// root, the state root, the config directory.
pub proof fn exposed_roots_are_named(resolution: ResolutionView, path: Seq<char>)
    ensures
        ({
            let data = root_contains(resolution.data_root, path);
            let state = root_contains(resolution.state_root, path);
            let config = root_contains(resolution.config_root, path);
            &&& data ==> exposed_role(resolution, path) == Some("sandbox data root"@)
            &&& !data && state ==> exposed_role(resolution, path) == Some("state root"@)
            &&& !data && !state && config ==> exposed_role(resolution, path) == Some(
                "config directory"@,
            )
            &&& !data && !state && !config ==> exposed_role(resolution, path) is None
        }),
{
}

/// An error ends with what is wrong.
pub proof fn messages_end_with_their_cause(error: ErrorView)
    ensures
        match error {
            ErrorView::Parse(message) => message.is_suffix_of(error_text(error)),
            ErrorView::Invalid { field, message } => (quote::debug_text(field) + ": "@
                + message).is_suffix_of(error_text(error)),
            ErrorView::TooLarge { limit, .. } => text::decimal(limit as nat).is_suffix_of(
                error_text(error),
            ),
            ErrorView::Io { message, source, .. } => (message + ": "@ + source).is_suffix_of(
                error_text(error),
            ),
        },
{
    match error {
        ErrorView::Parse(message) => {
            text::lemma_ends("invalid config: "@, message);
        },
        ErrorView::Invalid { field, message } => {
            let end = quote::debug_text(field) + ": "@ + message;
            text::lemma_ends("invalid config field "@, end);
            assert(error_text(error) =~= "invalid config field "@ + end);
        },
        ErrorView::TooLarge { size, limit } => {
            text::lemma_ends(
                "config file is "@ + text::decimal(size as nat) + " bytes, the limit is "@,
                text::decimal(limit as nat),
            );
        },
        ErrorView::Io { field, message, source } => {
            let end = message + ": "@ + source;
            text::lemma_ends("config "@ + field + ": "@, end);
            assert(error_text(error) =~= "config "@ + field + ": "@ + end);
        },
    }
}

/// Whatever is wrong with the config file itself is reported under `config`, and
/// a failed stat keeps its cause.
pub proof fn file_problems_name_the_file(stat: ConfigStat, euid: u32, r: Result<bool, Error>)
    requires
        call_ensures(check_file, (stat, euid), r),
    ensures
        r matches Err(Error::Invalid { field, .. }) ==> field@ == "config"@,
        r matches Err(Error::Io { field, .. }) ==> field@ == "config"@,
        r is Err ==> (r->Err_0 is Invalid || r->Err_0 is Io),
        r matches Err(Error::Io { source, .. }) ==> (stat matches ConfigStat::Failed {
            source: cause,
        } && source@ == cause@),
        stat is Failed ==> (r is Err && r->Err_0 is Io),
{
}

} // verus!
