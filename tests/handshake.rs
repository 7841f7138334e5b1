use websockets_monoio::client::{frame_settings, DEFAULT_BUFFER_SIZE};
use websockets_monoio::http_upgrade::{
    accept_key, client_key_from_nonce, generate_client_key, UpgradeErr,
};
use websockets_monoio::request::{build_request, request_size};
use websockets_monoio::response::{
    header_has_token, validate_response, value_eq_ascii, ResponseReader, MAX_HEADER_BYTES,
};
use websockets_monoio::url::Scheme;

const RFC_KEY: &str = "dGhlIHNhbXBsZSBub25jZQ==";
const RFC_ACCEPT: &str = "s3pPLMBiTxaQ9kYGzzhZRbK+xOo=";

fn response(lines: &[&str]) -> Vec<u8> {
    let mut s = String::new();
    for l in lines {
        s.push_str(l);
        s.push_str("\r\n");
    }
    s.push_str("\r\n");
    s.into_bytes()
}

fn read_all(data: &[u8], chunk: usize, expected: &str) -> Result<(), UpgradeErr> {
    let mut r = ResponseReader::new();
    let mut pos = 0;
    while !r.is_complete() {
        let end = std::cmp::min(pos + chunk, data.len());
        r.feed(&data[pos..end])?;
        pos = end;
    }
    r.finish(expected)
}

#[test]
fn rfc_accept_value() {
    assert_eq!(accept_key(RFC_KEY), RFC_ACCEPT);
}

#[test]
fn key_from_rfc_nonce() {
    let k = client_key_from_nonce(b"the sample nonce");
    assert_eq!(k.sec_websocket_key, RFC_KEY);
    assert_eq!(k.expected_accept, RFC_ACCEPT);
}

#[test]
fn generated_keys_are_distinct() {
    let mut seen = std::collections::HashSet::new();
    for _ in 0..200 {
        let k = generate_client_key();
        assert_eq!(k.sec_websocket_key.len(), 24);
        assert_eq!(k.expected_accept, accept_key(&k.sec_websocket_key));
        assert!(seen.insert(k.sec_websocket_key));
    }
}

#[test]
fn request_without_extra_headers() {
    let buf = build_request("example.com", "/chat", RFC_KEY, &[]).unwrap();
    let expected = "GET /chat HTTP/1.1\r\nHost: example.com\r\nUpgrade: websocket\r\nConnection: Upgrade\r\nSec-WebSocket-Version: 13\r\nSec-WebSocket-Key: dGhlIHNhbXBsZSBub25jZQ==\r\n\r\n";
    assert_eq!(buf.as_slice(), expected.as_bytes());
    assert_eq!(
        request_size("example.com", "/chat", RFC_KEY, &[]),
        Some(expected.len())
    );
}

#[test]
fn request_with_extra_headers_in_order() {
    let extra = [("Origin", "http://example.com"), ("X-Token", "abc")];
    let buf = build_request("h", "/", "k", &extra).unwrap();
    let expected = "GET / HTTP/1.1\r\nHost: h\r\nUpgrade: websocket\r\nConnection: Upgrade\r\nSec-WebSocket-Version: 13\r\nSec-WebSocket-Key: k\r\nOrigin: http://example.com\r\nX-Token: abc\r\n\r\n";
    assert_eq!(buf.as_slice(), expected.as_bytes());
    assert_eq!(request_size("h", "/", "k", &extra), Some(buf.as_slice().len()));
    let base = request_size("h", "/", "k", &[]).unwrap();
    assert_eq!(
        buf.as_slice().len(),
        base + "Origin: http://example.com\r\n".len() + "X-Token: abc\r\n".len()
    );
}

#[test]
fn good_response_is_accepted() {
    let data = response(&[
        "HTTP/1.1 101 Switching Protocols",
        "Upgrade: websocket",
        "Connection: Upgrade",
        "Sec-WebSocket-Accept: s3pPLMBiTxaQ9kYGzzhZRbK+xOo=",
    ]);
    assert!(read_all(&data, 1024, RFC_ACCEPT).is_ok());
    assert!(read_all(&data, 1, RFC_ACCEPT).is_ok());
    assert!(read_all(&data, 7, RFC_ACCEPT).is_ok());
}

#[test]
fn headers_in_any_order_and_case() {
    let data = response(&[
        "HTTP/1.1 101 Switching Protocols",
        "sec-websocket-accept: s3pPLMBiTxaQ9kYGzzhZRbK+xOo=",
        "Server: test",
        "CONNECTION: keep-alive, Upgrade",
        "upgrade: WebSocket",
    ]);
    assert!(validate_response(&data, RFC_ACCEPT).is_ok());
}

#[test]
fn status_200_is_status_error() {
    let data = response(&[
        "HTTP/1.1 200 OK",
        "Upgrade: websocket",
        "Connection: Upgrade",
        "Sec-WebSocket-Accept: s3pPLMBiTxaQ9kYGzzhZRbK+xOo=",
    ]);
    assert!(matches!(read_all(&data, 1024, RFC_ACCEPT), Err(UpgradeErr::Status)));
}

#[test]
fn upgrade_chunked_is_headers_error() {
    let data = response(&[
        "HTTP/1.1 101 Switching Protocols",
        "Upgrade: chunked",
        "Connection: Upgrade",
        "Sec-WebSocket-Accept: s3pPLMBiTxaQ9kYGzzhZRbK+xOo=",
    ]);
    assert!(matches!(read_all(&data, 1024, RFC_ACCEPT), Err(UpgradeErr::Headers)));
}

#[test]
fn missing_connection_token_is_headers_error() {
    let missing = response(&[
        "HTTP/1.1 101 Switching Protocols",
        "Upgrade: websocket",
        "Sec-WebSocket-Accept: s3pPLMBiTxaQ9kYGzzhZRbK+xOo=",
    ]);
    assert!(matches!(validate_response(&missing, RFC_ACCEPT), Err(UpgradeErr::Headers)));
    let no_token = response(&[
        "HTTP/1.1 101 Switching Protocols",
        "Connection: keep-alive",
        "Upgrade: websocket",
        "Sec-WebSocket-Accept: s3pPLMBiTxaQ9kYGzzhZRbK+xOo=",
    ]);
    assert!(matches!(validate_response(&no_token, RFC_ACCEPT), Err(UpgradeErr::Headers)));
    let no_accept = response(&[
        "HTTP/1.1 101 Switching Protocols",
        "Connection: Upgrade",
        "Upgrade: websocket",
    ]);
    assert!(matches!(validate_response(&no_accept, RFC_ACCEPT), Err(UpgradeErr::Headers)));
}

#[test]
fn wrong_accept_is_accept_error() {
    let data = response(&[
        "HTTP/1.1 101 Switching Protocols",
        "Upgrade: websocket",
        "Connection: Upgrade",
        "Sec-WebSocket-Accept: AAAAAAAAAAAAAAAAAAAAAAAAAAA=",
    ]);
    assert!(matches!(read_all(&data, 1024, RFC_ACCEPT), Err(UpgradeErr::Accept)));
}

#[test]
fn non_utf8_accept_is_utf8_error() {
    let mut data = b"HTTP/1.1 101 Switching Protocols\r\nUpgrade: websocket\r\nConnection: Upgrade\r\nSec-WebSocket-Accept: ".to_vec();
    data.extend_from_slice(&[0xff, 0xfe]);
    data.extend_from_slice(b"\r\n\r\n");
    assert!(matches!(validate_response(&data, RFC_ACCEPT), Err(UpgradeErr::Utf8(_))));
}

#[test]
fn unparsable_response_is_headers_error() {
    let data = b"garbage without status\r\n\r\n".to_vec();
    assert!(matches!(read_all(&data, 1024, RFC_ACCEPT), Err(UpgradeErr::Headers)));
}

#[test]
fn too_many_headers_is_headers_error() {
    let mut lines = vec!["HTTP/1.1 101 Switching Protocols".to_string()];
    for i in 0..40 {
        lines.push(format!("X-H{}: v", i));
    }
    let refs: Vec<&str> = lines.iter().map(|s| s.as_str()).collect();
    let data = response(&refs);
    assert!(matches!(validate_response(&data, RFC_ACCEPT), Err(UpgradeErr::Headers)));
}

#[test]
fn oversized_head_is_refused() {
    let chunk = [b'a'; 1024];
    let mut r = ResponseReader::new();
    let mut fed = 0usize;
    let err = loop {
        match r.feed(&chunk) {
            Ok(done) => {
                assert!(!done);
                fed += chunk.len();
            }
            Err(e) => break e,
        }
    };
    assert!(matches!(err, UpgradeErr::Oversized));
    assert_eq!(fed, MAX_HEADER_BYTES);
}

#[test]
fn closed_stream_is_eof() {
    let mut r = ResponseReader::new();
    assert!(matches!(r.feed(b"HTTP/1.1 101 Sw"), Ok(false)));
    assert!(matches!(r.feed(b""), Err(UpgradeErr::Eof)));
}

#[test]
fn terminator_split_across_chunks() {
    let mut r = ResponseReader::new();
    assert!(matches!(r.feed(b"HTTP/1.1 101 X\r\nA: b\r"), Ok(false)));
    assert!(matches!(r.feed(b"\n\r"), Ok(false)));
    assert!(matches!(r.feed(b"\nrest"), Ok(true)));
    assert_eq!(r.trailing(), b"rest");
}

#[test]
fn bytes_after_head_are_kept() {
    let mut data = response(&[
        "HTTP/1.1 101 Switching Protocols",
        "Upgrade: websocket",
        "Connection: Upgrade",
        "Sec-WebSocket-Accept: s3pPLMBiTxaQ9kYGzzhZRbK+xOo=",
    ]);
    data.extend_from_slice(&[0x81, 0x02, b'h', b'i']);
    let mut r = ResponseReader::new();
    assert!(matches!(r.feed(&data), Ok(true)));
    assert!(r.finish(RFC_ACCEPT).is_ok());
    assert_eq!(r.trailing(), &[0x81, 0x02, b'h', b'i']);
}

#[test]
fn token_search_in_header_values() {
    assert!(header_has_token(b"keep-alive, Upgrade", "upgrade").unwrap());
    assert!(header_has_token(b" UPGRADE ", "upgrade").unwrap());
    assert!(header_has_token(b"a,\tupgrade\t,b", "upgrade").unwrap());
    assert!(!header_has_token(b"keep-alive", "upgrade").unwrap());
    assert!(!header_has_token(b"upgrade-x", "upgrade").unwrap());
    assert!(!header_has_token(b"", "upgrade").unwrap());
    assert!(header_has_token(&[0xc3, 0x28], "upgrade").is_err());
}

#[test]
fn value_comparison_ignores_ascii_case() {
    assert!(value_eq_ascii(b"WebSocket", "websocket").unwrap());
    assert!(!value_eq_ascii(b"websockets", "websocket").unwrap());
    assert!(!value_eq_ascii(b" websocket", "websocket").unwrap());
    assert!(value_eq_ascii(&[0xff], "websocket").is_err());
}

#[test]
fn frame_settings_by_scheme() {
    let plain = frame_settings(Scheme::Ws);
    assert!(plain.auto_close && plain.auto_pong && plain.writev);
    let tls = frame_settings(Scheme::Wss);
    assert!(tls.auto_close && tls.auto_pong && !tls.writev);
    assert_eq!(DEFAULT_BUFFER_SIZE, 16 * 1024);
}

#[test]
fn request_with_origin_header() {
    let extra = [("Origin", "http://example.com")];
    let buf = build_request("example.com", "/chat", RFC_KEY, &extra).unwrap();
    let expected = "GET /chat HTTP/1.1\r\nHost: example.com\r\nUpgrade: websocket\r\nConnection: Upgrade\r\nSec-WebSocket-Version: 13\r\nSec-WebSocket-Key: dGhlIHNhbXBsZSBub25jZQ==\r\nOrigin: http://example.com\r\n\r\n";
    assert_eq!(buf.as_slice(), expected.as_bytes());
    assert_eq!(buf.as_slice().len(), 182);
    let none = build_request("example.com", "/chat", RFC_KEY, &[]).unwrap();
    assert_eq!(none.as_slice().len(), 154);
    assert_eq!(request_size("example.com", "/chat", RFC_KEY, &[]), Some(154));
}

#[test]
fn accept_values_have_fixed_length() {
    let k = generate_client_key();
    assert_eq!(k.expected_accept.len(), 28);
    assert_eq!(accept_key("").len(), 28);
}
