use shbox::endpoint::{EndpointError, ListenEndpoint, SocketAddress};

/// Socket addresses of the two families that the tests use.
fn resolve(text: &str) -> Option<SocketAddress> {
    let (host, port) = text.rsplit_once(':')?;
    port.parse::<u16>().ok()?;
    if host == "[::1]" || host.split('.').count() == 4 && host.split('.').all(|part| part.parse::<u8>().is_ok()) {
        Some(SocketAddress::new(text))
    } else {
        None
    }
}

fn from_str(value: &str) -> Result<ListenEndpoint, EndpointError> {
    ListenEndpoint::parse(value, |text: &str| resolve(text))
}

fn is_tcp(endpoint: &ListenEndpoint, expected: &str) -> bool {
    matches!(endpoint, ListenEndpoint::Tcp { address } if address.as_str() == expected)
}

fn is_ws(endpoint: &ListenEndpoint, expected: &str, at: &str) -> bool {
    matches!(
        endpoint,
        ListenEndpoint::WebSocket { address, path } if address.as_str() == expected && path == at
    )
}

#[test]
fn tcp_endpoints_parse() {
    let endpoint = from_str("tcp://127.0.0.1:2222").expect("tcp parses");
    assert!(is_tcp(&endpoint, "127.0.0.1:2222"));
    assert_eq!(endpoint.text(), "tcp://127.0.0.1:2222");
    assert!(from_str("tcp://[::1]:22").is_ok());
}

#[test]
fn ws_endpoints_parse() {
    let endpoint = from_str("ws://127.0.0.1:8080/ssh").expect("ws parses");
    assert!(is_ws(&endpoint, "127.0.0.1:8080", "/ssh"));
    assert_eq!(endpoint.text(), "ws://127.0.0.1:8080/ssh");
    // No path means the endpoint root; query parameters are refused.
    assert!(is_ws(&from_str("ws://127.0.0.1:8080").expect("root"), "127.0.0.1:8080", "/"));
    for bad in [
        "ws://127.0.0.1:8080/ssh?sandbox=x",
        "ws://127.0.0.1:8080/../etc",
        "ws://127.0.0.1:8080/\u{0}",
    ] {
        assert!(from_str(bad).is_err(), "{bad}");
    }
}

#[test]
fn malformed_and_unknown_schemes_are_rejected() {
    let missing_scheme = from_str("127.0.0.1:2222").expect_err("no scheme");
    assert!(matches!(missing_scheme, EndpointError::MissingScheme { .. }));
    let unknown = from_str("unix:///tmp/sock").expect_err("unknown scheme");
    assert!(matches!(unknown, EndpointError::UnknownScheme { scheme, .. } if scheme == "unix"));
    let wss = from_str("wss://example.com/ssh").expect_err("wss refused");
    assert!(matches!(wss, EndpointError::WssRefused { .. }));
    for bad in [
        "tcp://127.0.0.1",
        "tcp://127.0.0.1:2222/extra",
        "ws://not-an-address/ssh",
        "",
        "tcp://",
    ] {
        assert!(from_str(bad).is_err(), "{bad}");
    }
}

#[test]
fn accepted_endpoints_are_written_as_they_are_read() {
    for value in ["tcp://127.0.0.1:2222", "ws://[::1]:80", "ws://127.0.0.1:8080/a/b", "tcp://[::1]:22"] {
        let endpoint = from_str(value).expect("accepted");
        let again = from_str(&endpoint.text()).expect("written text");
        assert!(endpoint.same(&again), "{value}");
        assert_eq!(again.text(), endpoint.text());
    }
    assert_eq!(from_str("ws://[::1]:80").expect("ws").text(), "ws://[::1]:80/");
}
