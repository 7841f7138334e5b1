use websockets_monoio::url::{parse_ws_or_wss, Scheme, UrlError};

#[test]
fn plain_url_with_path_and_query() {
    let u = parse_ws_or_wss("ws://example.com/path?x=1").unwrap();
    assert_eq!(u.scheme, Scheme::Ws);
    assert_eq!(u.host, "example.com");
    assert_eq!(u.port, 80);
    assert_eq!(u.path_and_query, "/path?x=1");
}

#[test]
fn secure_url_with_explicit_port_and_no_path() {
    let u = parse_ws_or_wss("wss://example.com:8443").unwrap();
    assert_eq!(u.scheme, Scheme::Wss);
    assert_eq!(u.host, "example.com");
    assert_eq!(u.port, 8443);
    assert_eq!(u.path_and_query, "/");
}

#[test]
fn secure_url_default_port() {
    let u = parse_ws_or_wss("wss://stream.example.org/ws/btc@trade").unwrap();
    assert_eq!(u.port, 443);
    assert_eq!(u.host, "stream.example.org");
    assert_eq!(u.path_and_query, "/ws/btc@trade");
}

#[test]
fn other_scheme_is_refused() {
    assert!(matches!(parse_ws_or_wss("http://x"), Err(UrlError::Scheme)));
    assert!(matches!(parse_ws_or_wss("WS://x"), Err(UrlError::Scheme)));
    assert!(matches!(parse_ws_or_wss("ws:/x"), Err(UrlError::Scheme)));
    assert!(matches!(parse_ws_or_wss(""), Err(UrlError::Scheme)));
}

#[test]
fn bad_port_is_refused() {
    assert!(matches!(parse_ws_or_wss("ws://host:notaport/"), Err(UrlError::Port)));
    assert!(matches!(parse_ws_or_wss("ws://host:70000/"), Err(UrlError::Port)));
    assert!(matches!(parse_ws_or_wss("ws://host:/"), Err(UrlError::Port)));
    assert!(matches!(parse_ws_or_wss("ws://host:-1"), Err(UrlError::Port)));
}

#[test]
fn port_edge_values() {
    assert_eq!(parse_ws_or_wss("ws://h:65535").unwrap().port, 65535);
    assert_eq!(parse_ws_or_wss("ws://h:0").unwrap().port, 0);
    assert_eq!(parse_ws_or_wss("ws://h:+8080").unwrap().port, 8080);
    assert_eq!(parse_ws_or_wss("ws://h:0080").unwrap().port, 80);
}

#[test]
fn last_colon_separates_port() {
    let u = parse_ws_or_wss("ws://[::1]:9001/chat").unwrap();
    assert_eq!(u.host, "[::1]");
    assert_eq!(u.port, 9001);
    assert_eq!(u.path_and_query, "/chat");
}

#[test]
fn colon_in_path_is_not_a_port() {
    let u = parse_ws_or_wss("ws://host/a:b").unwrap();
    assert_eq!(u.host, "host");
    assert_eq!(u.port, 80);
    assert_eq!(u.path_and_query, "/a:b");
}

#[test]
fn host_is_not_normalised() {
    let u = parse_ws_or_wss("ws://Hé llo").unwrap();
    assert_eq!(u.host, "Hé llo");
    assert_eq!(u.path_and_query, "/");
    let empty = parse_ws_or_wss("ws://").unwrap();
    assert_eq!(empty.host, "");
    assert_eq!(empty.port, 80);
}
