//! Transport-qualified listen endpoints (`tcp://…`, `ws://…`).
//!
//! `listen` configuration is a list of endpoint URIs rather than raw socket
//! addresses. Parsing is fail-closed: anything that is not exactly one of the
//! known transports is an explicit error. The URI never carries application
//! semantics.

use crate::quote;
use crate::text;
use vstd::prelude::*;
use vstd::slice::slice_subrange;

verus! {

/// A socket address, held as its canonical text.
#[derive(Debug, PartialEq, Eq, Hash)]
pub struct SocketAddress {
    text: String,
}

impl View for SocketAddress {
    type V = Seq<char>;

    closed spec fn view(&self) -> Seq<char> {
        self.text@
    }
}

impl Clone for SocketAddress {
    fn clone(&self) -> (r: SocketAddress)
        ensures
            r@ == self@,
    {
        SocketAddress { text: self.text.clone() }
    }
}

impl SocketAddress {
    /// The address with this canonical text.
    pub fn new(text: &str) -> (r: SocketAddress)
        ensures
            r@ == text@,
    {
        SocketAddress { text: text.to_owned() }
    }

    /// The canonical text.
    pub fn as_str(&self) -> (r: &str)
        ensures
            r@ == self@,
    {
        self.text.as_str()
    }
}

/// One configured listener endpoint.
#[derive(Debug, PartialEq, Eq, Hash)]
pub enum ListenEndpoint {
    Tcp { address: SocketAddress },
    WebSocket { address: SocketAddress, path: String },
}

/// The contents of a [`ListenEndpoint`].
pub enum EndpointView {
    Tcp { address: Seq<char> },
    WebSocket { address: Seq<char>, path: Seq<char> },
}

impl View for ListenEndpoint {
    type V = EndpointView;

    open spec fn view(&self) -> EndpointView {
        match self {
            ListenEndpoint::Tcp { address } => EndpointView::Tcp { address: address@ },
            ListenEndpoint::WebSocket { address, path } => EndpointView::WebSocket {
                address: address@,
                path: path@,
            },
        }
    }
}

/// The text of an endpoint.
pub open spec fn endpoint_text(endpoint: EndpointView) -> Seq<char> {
    match endpoint {
        EndpointView::Tcp { address } => "tcp://"@ + address,
        EndpointView::WebSocket { address, path } => "ws://"@ + address + path,
    }
}

/// The failure class of an endpoint parse.
#[derive(Debug, PartialEq, Eq)]
pub enum EndpointError {
    /// No `scheme://` prefix at all.
    MissingScheme { input: String },
    /// The transport parsed but the address or path portion is malformed.
    Malformed { input: String, detail: String },
    /// The scheme names a transport that is not available.
    FeatureNotCompiled { input: String, scheme: String },
    /// The scheme is not a known transport.
    UnknownScheme { input: String, scheme: String },
    /// `wss://` is intentionally not supported.
    WssRefused { input: String },
}

/// The contents of an [`EndpointError`].
pub enum EndpointErrorView {
    MissingScheme { input: Seq<char> },
    Malformed { input: Seq<char>, detail: Seq<char> },
    FeatureNotCompiled { input: Seq<char>, scheme: Seq<char> },
    UnknownScheme { input: Seq<char>, scheme: Seq<char> },
    WssRefused { input: Seq<char> },
}

impl View for EndpointError {
    type V = EndpointErrorView;

    open spec fn view(&self) -> EndpointErrorView {
        match self {
            EndpointError::MissingScheme { input } => EndpointErrorView::MissingScheme {
                input: input@,
            },
            EndpointError::Malformed { input, detail } => EndpointErrorView::Malformed {
                input: input@,
                detail: detail@,
            },
            EndpointError::FeatureNotCompiled { input, scheme } => {
                EndpointErrorView::FeatureNotCompiled { input: input@, scheme: scheme@ }
            },
            EndpointError::UnknownScheme { input, scheme } => EndpointErrorView::UnknownScheme {
                input: input@,
                scheme: scheme@,
            },
            EndpointError::WssRefused { input } => EndpointErrorView::WssRefused { input: input@ },
        }
    }
}

/// The text of an endpoint error.
pub open spec fn endpoint_error_text(error: EndpointErrorView) -> Seq<char> {
    match error {
        EndpointErrorView::MissingScheme { input } => "listen endpoint "@ + quote::debug_text(
            input,
        ) + " must be a transport URI like tcp://0.0.0.0:22 or ws://0.0.0.0:8080/ssh"@,
        EndpointErrorView::Malformed { input, detail } => "listen endpoint "@ + quote::debug_text(
            input,
        ) + ": "@ + detail,
        EndpointErrorView::FeatureNotCompiled { input, scheme } => "listen endpoint "@
            + quote::debug_text(input) + " uses "@ + scheme
            + " transport, but shbox was built without the `"@ + scheme + "` feature"@,
        EndpointErrorView::UnknownScheme { input, scheme } => "listen endpoint "@
            + quote::debug_text(input) + ": unknown transport scheme "@ + quote::debug_text(scheme)
            + " (expected tcp or ws)"@,
        EndpointErrorView::WssRefused { input } => "listen endpoint "@ + quote::debug_text(input)
            + ": wss:// is not supported; terminate TLS at a reverse proxy and use ws://"@,
    }
}

impl EndpointError {
    pub fn missing_scheme(input: &str) -> (r: EndpointError)
        ensures
            r@ == (EndpointErrorView::MissingScheme { input: input@ }),
    {
        EndpointError::MissingScheme { input: input.to_owned() }
    }

    pub fn malformed(input: &str, detail: &str) -> (r: EndpointError)
        ensures
            r@ == (EndpointErrorView::Malformed { input: input@, detail: detail@ }),
    {
        EndpointError::Malformed { input: input.to_owned(), detail: detail.to_owned() }
    }

    /// The operator-facing description.
    pub fn message(&self) -> (r: String)
        ensures
            r@ == endpoint_error_text(self@),
    {
        match self {
            EndpointError::MissingScheme { input } => text::cat3(
                "listen endpoint ",
                quote::debug_quoted(input.as_str()).as_str(),
                " must be a transport URI like tcp://0.0.0.0:22 or ws://0.0.0.0:8080/ssh",
            ),
            EndpointError::Malformed { input, detail } => text::cat4(
                "listen endpoint ",
                quote::debug_quoted(input.as_str()).as_str(),
                ": ",
                detail.as_str(),
            ),
            EndpointError::FeatureNotCompiled { input, scheme } => {
                let mut m = text::cat4(
                    "listen endpoint ",
                    quote::debug_quoted(input.as_str()).as_str(),
                    " uses ",
                    scheme.as_str(),
                );
                m.append(" transport, but shbox was built without the `");
                m.append(scheme.as_str());
                m.append("` feature");
                m
            },
            EndpointError::UnknownScheme { input, scheme } => text::cat5(
                "listen endpoint ",
                quote::debug_quoted(input.as_str()).as_str(),
                ": unknown transport scheme ",
                quote::debug_quoted(scheme.as_str()).as_str(),
                " (expected tcp or ws)",
            ),
            EndpointError::WssRefused { input } => text::cat3(
                "listen endpoint ",
                quote::debug_quoted(input.as_str()).as_str(),
                ": wss:// is not supported; terminate TLS at a reverse proxy and use ws://",
            ),
        }
    }
}

// ---------------------------------------------------------------------------
// Grammar

/// The transports an endpoint can name.
#[derive(Debug, Clone, Copy, PartialEq, Eq, Structural)]
pub enum Transport {
    Tcp,
    WebSocket,
}

/// An endpoint whose address is still text.
#[derive(Debug)]
pub struct EndpointParts {
    pub transport: Transport,
    /// What must be a socket address.
    pub authority: String,
    /// Everything after the scheme.
    pub rest: String,
    /// The WebSocket path; empty for TCP.
    pub path: String,
}

/// The contents of an [`EndpointParts`].
pub struct PartsView {
    pub transport: Transport,
    pub authority: Seq<char>,
    pub rest: Seq<char>,
    pub path: Seq<char>,
}

impl View for EndpointParts {
    type V = PartsView;

    open spec fn view(&self) -> PartsView {
        PartsView {
            transport: self.transport,
            authority: self.authority@,
            rest: self.rest@,
            path: self.path@,
        }
    }
}

/// `://` stands at a position.
pub open spec fn separator_at(s: Seq<char>, i: int) -> bool {
    0 <= i && i + 3 <= s.len() && s[i] == ':' && s[i + 1] == '/' && s[i + 2] == '/'
}

/// The first position of `://` from `from` on, or the length.
pub open spec fn separator_from(s: Seq<char>, from: int) -> int
    decreases s.len() - from,
{
    if from < 0 || from >= s.len() {
        s.len() as int
    } else if separator_at(s, from) {
        from
    } else {
        separator_from(s, from + 1)
    }
}

/// `..` stands as a whole path segment at a position.
pub open spec fn parent_segment_at(path: Seq<char>, i: int) -> bool {
    &&& 0 <= i && i + 2 <= path.len()
    &&& path[i] == '.' && path[i + 1] == '.'
    &&& i == 0 || path[i - 1] == '/'
    &&& i + 2 == path.len() || path[i + 2] == '/'
}

/// Some segment of the path is `..`.
pub open spec fn has_parent_segment(path: Seq<char>) -> bool {
    exists|i: int| #[trigger] parent_segment_at(path, i)
}

pub open spec fn bad_address_error(value: Seq<char>, rest: Seq<char>) -> EndpointErrorView {
    EndpointErrorView::Malformed {
        input: value,
        detail: quote::debug_text(rest) + " is not a valid host:port socket address"@,
    }
}

/// What is wrong with a WebSocket path, if anything.
pub open spec fn path_error(path: Seq<char>) -> Option<Seq<char>> {
    if text::occurs(path, '?') {
        Some("query parameters are not part of the WebSocket transport"@)
    } else if text::occurs(path, '#') || text::occurs(path, '\0') {
        Some("invalid WebSocket path"@)
    } else if has_parent_segment(path) {
        Some("invalid WebSocket path "@ + quote::debug_text(path))
    } else {
        None
    }
}

/// The parts of a TCP endpoint: everything after the scheme is the address.
pub open spec fn tcp_parts(value: Seq<char>, rest: Seq<char>) -> Result<
    PartsView,
    EndpointErrorView,
> {
    if text::occurs(rest, '/') {
        Err(
            EndpointErrorView::Malformed {
                input: value,
                detail: "tcp endpoints carry no path"@,
            },
        )
    } else {
        Ok(PartsView { transport: Transport::Tcp, authority: rest, rest, path: seq![] })
    }
}

/// The parts of a WebSocket endpoint: the address ends at the first slash, and
/// a missing path is the root.
pub open spec fn ws_parts(value: Seq<char>, rest: Seq<char>) -> Result<
    PartsView,
    EndpointErrorView,
> {
    let slash = text::find_of(rest, '/');
    let authority = rest.take(slash);
    let path = if slash < rest.len() { rest.skip(slash) } else { "/"@ };
    if authority.len() == 0 {
        Err(bad_address_error(value, rest))
    } else {
        match path_error(path) {
            Some(detail) => Err(EndpointErrorView::Malformed { input: value, detail }),
            None => Ok(PartsView { transport: Transport::WebSocket, authority, rest, path }),
        }
    }
}

/// The parts of an endpoint.
pub open spec fn parts_of(value: Seq<char>) -> Result<PartsView, EndpointErrorView> {
    let at = separator_from(value, 0);
    let scheme = value.take(at);
    let rest = value.skip(at + 3);
    if at >= value.len() {
        Err(EndpointErrorView::MissingScheme { input: value })
    } else if scheme == "tcp"@ {
        tcp_parts(value, rest)
    } else if scheme == "ws"@ {
        ws_parts(value, rest)
    } else if scheme == "wss"@ {
        Err(EndpointErrorView::WssRefused { input: value })
    } else {
        Err(EndpointErrorView::UnknownScheme { input: value, scheme })
    }
}

/// The endpoint of its parts and the address that its authority stands for.
pub open spec fn resolved(
    value: Seq<char>,
    parts: PartsView,
    address: Option<Seq<char>>,
) -> Result<EndpointView, EndpointErrorView> {
    match address {
        None => Err(bad_address_error(value, parts.rest)),
        Some(address) => match parts.transport {
            Transport::Tcp => Ok(EndpointView::Tcp { address }),
            Transport::WebSocket => Ok(EndpointView::WebSocket { address, path: parts.path }),
        },
    }
}

/// The endpoint of a text, given the address that its authority stands for.
pub open spec fn parsed(value: Seq<char>, address: Option<Seq<char>>) -> Result<
    EndpointView,
    EndpointErrorView,
> {
    match parts_of(value) {
        Err(error) => Err(error),
        Ok(parts) => resolved(value, parts, address),
    }
}

/// The contents of an optional address.
pub open spec fn address_text(address: Option<SocketAddress>) -> Option<Seq<char>> {
    match address {
        Some(address) => Some(address@),
        None => None,
    }
}

/// Whether a result is the given outcome.
pub open spec fn is_parsed(
    r: Result<ListenEndpoint, EndpointError>,
    outcome: Result<EndpointView, EndpointErrorView>,
) -> bool {
    match outcome {
        Ok(expected) => r matches Ok(endpoint) && endpoint@ == expected,
        Err(expected) => r matches Err(error) && error@ == expected,
    }
}

/// The error of an authority that is no socket address.
pub fn bad_address(value: &str, rest: &str) -> (r: EndpointError)
    ensures
        r@ == bad_address_error(value@, rest@),
{
    let detail = text::cat2(
        quote::debug_quoted(rest).as_str(),
        " is not a valid host:port socket address",
    );
    EndpointError::malformed(value, detail.as_str())
}

fn find_parent_segment(path: &[char]) -> (r: bool)
    ensures
        r == has_parent_segment(path@),
{
    let mut i: usize = 0;
    while i < path.len()
        invariant
            i <= path@.len(),
            forall|k: int| 0 <= k < i ==> !#[trigger] parent_segment_at(path@, k),
        decreases path@.len() - i,
    {
        if path.len() - i >= 2 && path[i] == '.' && path[i + 1] == '.' && (i == 0 || path[i - 1]
            == '/') && (path.len() - i == 2 || path[i + 2] == '/') {
            assert(parent_segment_at(path@, i as int));
            return true;
        }
        assert(!parent_segment_at(path@, i as int));
        i = i + 1;
    }
    false
}

fn parse_tcp(rest: &[char], value: &str) -> (r: Result<EndpointParts, EndpointError>)
    ensures
        match tcp_parts(value@, rest@) {
            Ok(expected) => r matches Ok(parts) && parts@ == expected,
            Err(expected) => r matches Err(error) && error@ == expected,
        },
{
    if text::has_char(rest, '/') {
        return Err(EndpointError::malformed(value, "tcp endpoints carry no path"));
    }
    Ok(
        EndpointParts {
            transport: Transport::Tcp,
            authority: text::string_of(rest),
            rest: text::string_of(rest),
            path: String::new(),
        },
    )
}

fn parse_ws(rest: &[char], value: &str) -> (r: Result<EndpointParts, EndpointError>)
    ensures
        match ws_parts(value@, rest@) {
            Ok(expected) => r matches Ok(parts) && parts@ == expected,
            Err(expected) => r matches Err(error) && error@ == expected,
        },
{
    let slash = text::find(rest, '/');
    let authority = slice_subrange(rest, 0, slash);
    let root = text::chars_of("/");
    let path = if slash < rest.len() {
        slice_subrange(rest, slash, rest.len())
    } else {
        root.as_slice()
    };
    proof {
        assert(authority@ =~= rest@.take(slash as int));
        if slash < rest@.len() {
            assert(path@ =~= rest@.skip(slash as int));
        }
    }
    if authority.len() == 0 {
        return Err(bad_address(value, text::string_of(rest).as_str()));
    }
    if text::has_char(path, '?') {
        return Err(
            EndpointError::malformed(
                value,
                "query parameters are not part of the WebSocket transport",
            ),
        );
    }
    if text::has_char(path, '#') || text::has_char(path, '\0') {
        return Err(EndpointError::malformed(value, "invalid WebSocket path"));
    }
    let path_text = text::string_of(path);
    if find_parent_segment(path) {
        let detail = text::cat2(
            "invalid WebSocket path ",
            quote::debug_quoted(path_text.as_str()).as_str(),
        );
        return Err(EndpointError::malformed(value, detail.as_str()));
    }
    Ok(
        EndpointParts {
            transport: Transport::WebSocket,
            authority: text::string_of(authority),
            rest: text::string_of(rest),
            path: path_text,
        },
    )
}

impl EndpointParts {
    /// Take an endpoint URI apart.
    pub fn split(value: &str) -> (r: Result<EndpointParts, EndpointError>)
        ensures
            match parts_of(value@) {
                Ok(expected) => r matches Ok(parts) && parts@ == expected,
                Err(expected) => r matches Err(error) && error@ == expected,
            },
    {
        let chars = text::chars_of(value);
        let mut at: usize = 0;
        while at < chars.len() && !(chars.len() - at >= 3 && chars[at] == ':' && chars[at + 1]
            == '/' && chars[at + 2] == '/')
            invariant
                at <= chars@.len(),
                chars@ == value@,
                separator_from(value@, 0) == separator_from(value@, at as int),
            decreases chars@.len() - at,
        {
            at = at + 1;
        }
        if at >= chars.len() {
            return Err(EndpointError::missing_scheme(value));
        }
        let scheme = text::string_of(slice_subrange(chars.as_slice(), 0, at));
        let rest = slice_subrange(chars.as_slice(), at + 3, chars.len());
        proof {
            assert(scheme@ =~= value@.take(at as int));
            assert(rest@ =~= value@.skip(at + 3));
        }
        if text::same_text(scheme.as_str(), "tcp") {
            parse_tcp(rest, value)
        } else if text::same_text(scheme.as_str(), "ws") {
            parse_ws(rest, value)
        } else if text::same_text(scheme.as_str(), "wss") {
            Err(EndpointError::WssRefused { input: value.to_owned() })
        } else {
            Err(EndpointError::UnknownScheme { input: value.to_owned(), scheme })
        }
    }
}

impl Clone for ListenEndpoint {
    fn clone(&self) -> (r: ListenEndpoint)
        ensures
            r@ == self@,
    {
        match self {
            ListenEndpoint::Tcp { address } => ListenEndpoint::Tcp { address: address.clone() },
            ListenEndpoint::WebSocket { address, path } => ListenEndpoint::WebSocket {
                address: address.clone(),
                path: path.clone(),
            },
        }
    }
}

impl ListenEndpoint {
    /// The socket address every transport variant binds.
    pub fn address(&self) -> (r: SocketAddress)
        ensures
            r@ == match self@ {
                EndpointView::Tcp { address } => address,
                EndpointView::WebSocket { address, .. } => address,
            },
    {
        match self {
            ListenEndpoint::Tcp { address } => address.clone(),
            ListenEndpoint::WebSocket { address, .. } => address.clone(),
        }
    }

    /// The text of the endpoint.
    pub fn text(&self) -> (r: String)
        ensures
            r@ == endpoint_text(self@),
    {
        match self {
            ListenEndpoint::Tcp { address } => text::cat2("tcp://", address.as_str()),
            ListenEndpoint::WebSocket { address, path } => text::cat3(
                "ws://",
                address.as_str(),
                path.as_str(),
            ),
        }
    }

    /// Whether two endpoints are the same.
    pub fn same(&self, other: &ListenEndpoint) -> (r: bool)
        ensures
            r == (self@ == other@),
    {
        match (self, other) {
            (ListenEndpoint::Tcp { address: a }, ListenEndpoint::Tcp { address: b }) => {
                text::same_text(a.as_str(), b.as_str())
            },
            (
                ListenEndpoint::WebSocket { address: a, path: p },
                ListenEndpoint::WebSocket { address: b, path: q },
            ) => text::same_text(a.as_str(), b.as_str()) && text::same_text(
                p.as_str(),
                q.as_str(),
            ),
            _ => false,
        }
    }

    /// Build an endpoint from a text and the socket address that its authority
    /// stands for, if it stands for one.
    pub fn from_text(value: &str, address: Option<SocketAddress>) -> (r: Result<
        ListenEndpoint,
        EndpointError,
    >)
        ensures
            is_parsed(r, parsed(value@, address_text(address))),
    {
        let parts = match EndpointParts::split(value) {
            Ok(parts) => parts,
            Err(error) => {
                return Err(error);
            },
        };
        match address {
            None => Err(bad_address(value, parts.rest.as_str())),
            Some(address) => match parts.transport {
                Transport::Tcp => Ok(ListenEndpoint::Tcp { address }),
                Transport::WebSocket => Ok(
                    ListenEndpoint::WebSocket { address, path: parts.path },
                ),
            },
        }
    }

    /// Parse an endpoint; `resolve` reads socket addresses and is asked once,
    /// about the authority, if the rest of the text is well formed.
    pub fn parse<F: FnOnce(&str) -> Option<SocketAddress>>(value: &str, resolve: F) -> (r: Result<
        ListenEndpoint,
        EndpointError,
    >)
        requires
            parts_of(value@) matches Ok(parts) ==> forall|authority: &str|
                authority@ == parts.authority ==> #[trigger] resolve.requires((authority,)),
        ensures
            match parts_of(value@) {
                Err(expected) => r matches Err(error) && error@ == expected,
                Ok(parts) => exists|authority: &str, address: Option<SocketAddress>|
                    authority@ == parts.authority && #[trigger] resolve.ensures(
                        (authority,),
                        address,
                    ) && is_parsed(r, resolved(value@, parts, address_text(address))),
            },
    {
        let parts = match EndpointParts::split(value) {
            Ok(parts) => parts,
            Err(error) => {
                return Err(error);
            },
        };
        let authority = parts.authority.as_str();
        let address = resolve(authority);
        let ghost taken = address;
        assert(resolve.ensures((authority,), taken));
        ListenEndpoint::from_text(value, address)
    }
}

// ---------------------------------------------------------------------------
// Laws

/// An endpoint as parsing produces it: a non-empty address without a slash,
/// and a clean path that starts at the root.
pub open spec fn is_canonical(endpoint: EndpointView) -> bool {
    match endpoint {
        EndpointView::Tcp { address } => !text::occurs(address, '/'),
        EndpointView::WebSocket { address, path } => {
            &&& address.len() > 0
            &&& !text::occurs(address, '/')
            &&& path.len() > 0
            &&& path[0] == '/'
            &&& path_error(path) is None
        },
    }
}

proof fn lemma_separator_after(s: Seq<char>, n: int, from: int)
    requires
        0 <= from <= n,
        separator_at(s, n),
        forall|k: int| 0 <= k < n ==> s[k] != ':',
    ensures
        separator_from(s, from) == n,
    decreases n - from,
{
    if from < n {
        assert(s[from] != ':');
        lemma_separator_after(s, n, from + 1);
    }
}

proof fn lemma_first_slash(address: Seq<char>, path: Seq<char>, from: int)
    requires
        0 <= from <= address.len(),
        !text::occurs(address, '/'),
        path.len() > 0,
        path[0] == '/',
    ensures
        text::find_from(address + path, '/', from) == address.len(),
    decreases address.len() - from,
{
    if from < address.len() {
        text::lemma_find(address, '/', 0);
        assert((address + path)[from] == address[from]);
        lemma_first_slash(address, path, from + 1);
    }
}

/// The address of an endpoint.
pub open spec fn address_of(endpoint: EndpointView) -> Seq<char> {
    match endpoint {
        EndpointView::Tcp { address } => address,
        EndpointView::WebSocket { address, .. } => address,
    }
}

/// Writing an endpoint and parsing the text gives the endpoint back, where the
/// text of its address stands for its address.
pub proof fn endpoint_round_trip(endpoint: EndpointView)
    requires
        is_canonical(endpoint),
    ensures
        parts_of(endpoint_text(endpoint)) matches Ok(parts) && parts.authority == address_of(
            endpoint,
        ),
        parsed(endpoint_text(endpoint), Some(address_of(endpoint))) == Ok::<
            EndpointView,
            EndpointErrorView,
        >(endpoint),
{
    reveal_strlit("tcp://");
    reveal_strlit("ws://");
    reveal_strlit("tcp");
    reveal_strlit("ws");
    let value = endpoint_text(endpoint);
    match endpoint {
        EndpointView::Tcp { address } => {
            lemma_separator_after(value, 3, 0);
            assert(value.take(3) =~= "tcp"@);
            assert(value.skip(6) =~= address);
        },
        EndpointView::WebSocket { address, path } => {
            lemma_separator_after(value, 2, 0);
            assert(value.take(2) =~= "ws"@);
            assert("ws"@.len() != "tcp"@.len());
            assert(value.skip(5) =~= address + path);
            lemma_first_slash(address, path, 0);
            assert((address + path).take(address.len() as int) =~= address);
            assert((address + path).skip(address.len() as int) =~= path);
        },
    }
}

/// An accepted endpoint is canonical, as long as its address is written without
/// a slash: writing it out and parsing the text, which asks about its own
/// address, gives it back.
pub proof fn accepted_endpoints_are_canonical(value: Seq<char>, address: Seq<char>)
    requires
        address.len() > 0,
        !text::occurs(address, '/'),
        parsed(value, Some(address)) is Ok,
    ensures
        ({
            let endpoint = parsed(value, Some(address))->Ok_0;
            &&& is_canonical(endpoint)
            &&& address_of(endpoint) == address
            &&& parts_of(endpoint_text(endpoint)) matches Ok(parts) && parts.authority == address
            &&& parsed(endpoint_text(endpoint), Some(address)) == Ok::<
                EndpointView,
                EndpointErrorView,
            >(endpoint)
        }),
{
    reveal_strlit("/");
    let rest = value.skip(separator_from(value, 0) + 3);
    text::lemma_find(rest, '/', 0);
    endpoint_round_trip(parsed(value, Some(address))->Ok_0);
}

/// A WebSocket path that was accepted carries no query, no fragment, no NUL,
/// and no parent segment.
pub proof fn accepted_paths_are_clean(value: Seq<char>, address: Option<Seq<char>>)
    ensures
        parsed(value, address) matches Ok(EndpointView::WebSocket { path, .. }) ==> !text::occurs(
            path,
            '?',
        ) && !text::occurs(path, '#') && !text::occurs(path, '\0') && !has_parent_segment(path),
{
}

// ---------------------------------------------------------------------------
// What is accepted

proof fn lemma_scheme(scheme: Seq<char>, rest: Seq<char>)
    requires
        !scheme.contains(':'),
    ensures
        ({
            let value = scheme + seq![':', '/', '/'] + rest;
            &&& separator_from(value, 0) == scheme.len()
            &&& value.take(scheme.len() as int) == scheme
            &&& value.skip(scheme.len() as int + 3) == rest
        }),
{
    let value = scheme + seq![':', '/', '/'] + rest;
    let n = scheme.len() as int;
    assert(value[n] == ':' && value[n + 1] == '/' && value[n + 2] == '/');
    assert forall|k: int| 0 <= k < n implies value[k] != ':' by {
        assert(value[k] == scheme[k]);
        assert(scheme.contains(scheme[k]));
    }
    lemma_separator_after(value, n, 0);
    assert(value.take(n) =~= scheme);
    assert(value.skip(n + 3) =~= rest);
}

/// A TCP endpoint is an authority and nothing else: it is split exactly when it
/// has no path.
pub proof fn tcp_endpoints_have_no_path(rest: Seq<char>)
    ensures
        parts_of("tcp://"@ + rest) is Ok <==> !rest.contains('/'),
        parts_of("tcp://"@ + rest) matches Ok(parts) ==> parts.transport == Transport::Tcp
            && parts.authority == rest && parts.path.len() == 0,
{
    reveal_strlit("tcp://");
    reveal_strlit("tcp");
    let scheme = "tcp"@;
    assert forall|k: int| 0 <= k < scheme.len() implies scheme[k] != ':' by {}
    assert("tcp://"@ + rest =~= scheme + seq![':', '/', '/'] + rest);
    lemma_scheme(scheme, rest);
    text::occurring_means_some_position(rest, '/');
}

/// A WebSocket endpoint is an authority and a path, which is the root where none
/// is given: it is split exactly when there is an authority and the path has no
/// query, no fragment, no NUL, and no parent segment.
pub proof fn websocket_endpoints_have_a_clean_path(authority: Seq<char>, path: Seq<char>)
    requires
        !authority.contains('/'),
        path.len() > 0 ==> path[0] == '/',
    ensures
        ({
            let outcome = parts_of("ws://"@ + authority + path);
            &&& outcome is Ok <==> {
                &&& authority.len() > 0
                &&& !path.contains('?')
                &&& !path.contains('#')
                &&& !path.contains('\0')
                &&& !has_parent_segment(path)
            }
            &&& outcome matches Ok(parts) ==> {
                &&& parts.transport == Transport::WebSocket
                &&& parts.authority == authority
                &&& path.len() > 0 ==> parts.path == path
                &&& path.len() == 0 ==> parts.path == seq!['/']
            }
        }),
{
    reveal_strlit("ws://");
    reveal_strlit("ws");
    reveal_strlit("tcp");
    reveal_strlit("/");
    let scheme = "ws"@;
    let rest = authority + path;
    assert forall|k: int| 0 <= k < scheme.len() implies scheme[k] != ':' by {}
    assert("ws://"@ + authority + path =~= scheme + seq![':', '/', '/'] + rest);
    lemma_scheme(scheme, rest);
    assert(scheme.len() != "tcp"@.len());
    text::occurring_means_some_position(authority, '/');
    text::occurring_means_some_position(path, '?');
    text::occurring_means_some_position(path, '#');
    text::occurring_means_some_position(path, '\0');
    let slash = text::find_of(rest, '/');
    if path.len() > 0 {
        lemma_first_slash(authority, path, 0);
        assert(rest.take(slash) =~= authority);
        assert(rest.skip(slash) =~= path);
    } else {
        assert(rest =~= authority);
        text::lemma_find(rest, '/', 0);
        assert(slash == rest.len());
        assert(rest.take(slash) =~= authority);
        assert("/"@ =~= seq!['/']);
        text::occurring_means_some_position("/"@, '?');
        text::occurring_means_some_position("/"@, '#');
        text::occurring_means_some_position("/"@, '\0');
        if has_parent_segment("/"@) {
            let i = choose|i: int| #[trigger] parent_segment_at("/"@, i);
            assert(false);
        }
        if has_parent_segment(path) {
            let i = choose|i: int| #[trigger] parent_segment_at(path, i);
            assert(false);
        }
    }
}

/// Every other scheme is refused: `wss` by name, any other as unknown, and a
/// value without a scheme for lacking one.
pub proof fn other_schemes_are_refused(scheme: Seq<char>, rest: Seq<char>, value: Seq<char>)
    requires
        !scheme.contains(':'),
    ensures
        ({
            let whole = scheme + seq![':', '/', '/'] + rest;
            &&& scheme == "wss"@ ==> parts_of(whole) == Err::<PartsView, EndpointErrorView>(
                EndpointErrorView::WssRefused { input: whole },
            )
            &&& scheme != "tcp"@ && scheme != "ws"@ && scheme != "wss"@ ==> parts_of(whole) == Err::<
                PartsView,
                EndpointErrorView,
            >(EndpointErrorView::UnknownScheme { input: whole, scheme })
        }),
        !value.contains(':') ==> parts_of(value) == Err::<PartsView, EndpointErrorView>(
            EndpointErrorView::MissingScheme { input: value },
        ),
{
    lemma_scheme(scheme, rest);
    reveal_strlit("tcp");
    reveal_strlit("ws");
    reveal_strlit("wss");
    assert("wss"@.len() == 3 && "wss"@[0] == 'w' && "tcp"@[0] == 't' && "ws"@.len() == 2);
    if !value.contains(':') {
        lemma_no_separator(value, 0);
    }
}

proof fn lemma_no_separator(s: Seq<char>, from: int)
    requires
        0 <= from <= s.len(),
        !s.contains(':'),
    ensures
        separator_from(s, from) == s.len(),
    decreases s.len() - from,
{
    if from < s.len() {
        assert(s.contains(s[from]));
        lemma_no_separator(s, from + 1);
    }
}

/// A split value becomes an endpoint exactly when its address resolves, with
/// that address and the path it was split into.
pub proof fn resolved_endpoints_keep_their_path(
    value: Seq<char>,
    parts: PartsView,
    address: Option<Seq<char>>,
)
    ensures
        resolved(value, parts, address) is Ok <==> address is Some,
        resolved(value, parts, address) matches Ok(endpoint) ==> Some(address_of(endpoint))
            == address,
        resolved(value, parts, address) matches Ok(EndpointView::Tcp { .. }) ==> parts.transport
            == Transport::Tcp,
        resolved(value, parts, address) matches Ok(EndpointView::WebSocket { path, .. })
            ==> parts.transport == Transport::WebSocket && path == parts.path,
{
}

/// A parent segment is a part of the path that is exactly two dots.
pub proof fn parent_segments_are_whole_parts(path: Seq<char>)
    ensures
        has_parent_segment(path) <==> text::split_of(path, '/').contains(seq!['.', '.']),
    decreases path.len(),
{
    let parts = text::split_of(path, '/');
    let dots = seq!['.', '.'];
    let i = text::find_of(path, '/');
    text::lemma_find(path, '/', 0);
    if i >= path.len() {
        assert(parts =~= seq![path]);
        if has_parent_segment(path) {
            let k = choose|k: int| #[trigger] parent_segment_at(path, k);
            assert(k == 0);
            assert(path =~= dots);
            assert(parts[0] == dots);
        }
        if parts.contains(dots) {
            let k = choose|k: int| 0 <= k < parts.len() && parts[k] == dots;
            assert(path == dots);
            assert(parent_segment_at(path, 0));
        }
    } else {
        let first = path.take(i);
        let rest = path.skip(i + 1);
        let tail = text::split_of(rest, '/');
        assert(parts =~= seq![first] + tail);
        parent_segments_are_whole_parts(rest);
        if has_parent_segment(path) {
            let k = choose|k: int| #[trigger] parent_segment_at(path, k);
            if k == 0 {
                assert(path[2] == '/');
                assert(i == 2);
                assert(first =~= dots);
                assert(parts[0] == dots);
            } else {
                assert(path[k - 1] == '/');
                assert(k - 1 >= i);
                assert(parent_segment_at(rest, k - i - 1));
                let m = choose|m: int| 0 <= m < tail.len() && tail[m] == dots;
                assert(parts[m + 1] == dots);
            }
        }
        if parts.contains(dots) {
            let m = choose|m: int| 0 <= m < parts.len() && parts[m] == dots;
            if m == 0 {
                assert(first == dots);
                assert(path[0] == first[0] && path[1] == first[1]);
                assert(parent_segment_at(path, 0));
            } else {
                assert(tail[m - 1] == dots);
                let k = choose|k: int| #[trigger] parent_segment_at(rest, k);
                assert(path[k + i + 1] == rest[k] && path[k + i + 2] == rest[k + 1]);
                if k > 0 {
                    assert(path[k + i] == rest[k - 1]);
                }
                if k + 2 < rest.len() {
                    assert(path[k + i + 3] == rest[k + 2]);
                }
                assert(parent_segment_at(path, k + i + 1));
            }
        }
    }
}

} // verus!
