use wsproto::handshake::{
    accept_key, contains_text, upgrade_headers_ok, count_up_till, handshake, manifest_document, parse_header_line, request_token,
    response, Handshake, HeaderLine, HeaderMap,
};
use wsproto::schema::{Schema, Variant};

fn headers(pairs: &[(&str, &str)]) -> HeaderMap {
    let mut h = HeaderMap::new();
    for (k, v) in pairs {
        h.insert(k.to_string(), v.to_string());
    }
    h
}

fn good() -> Vec<(&'static str, &'static str)> {
    vec![
        ("connection", "keep-alive, Upgrade"),
        ("upgrade", "WebSocket"),
        ("sec-websocket-version", "13"),
        ("sec-websocket-key", "dGhlIHNhbXBsZSBub25jZQ=="),
    ]
}

#[test]
fn rfc_accept_vector() {
    assert_eq!(accept_key("dGhlIHNhbXBsZSBub25jZQ=="), "s3pPLMBiTxaQ9kYGzzhZRbK+xOo=");
}

#[test]
fn successful_upgrade() {
    let h = headers(&good());
    let r = handshake(&"HTTP/1.1".to_string(), &"/chat".to_string(), &h);
    match &r {
        Handshake::Upgrade(a) => assert_eq!(a, "s3pPLMBiTxaQ9kYGzzhZRbK+xOo="),
        _ => panic!("expected an upgrade"),
    }
    let s = Schema { name: "P".to_string(), variants: vec![] };
    let text = response(&r, &"Foo".to_string(), &s, &s);
    assert!(text.starts_with("HTTP/1.1 101 "));
    assert!(text.contains("Sec-WebSocket-Accept: s3pPLMBiTxaQ9kYGzzhZRbK+xOo=\r\n\r\n"));
    assert!(text.contains("Upgrade: websocket\r\n"));
}

#[test]
fn validation_order() {
    let h = headers(&good());
    assert!(matches!(handshake(&"HTTP/1.0".to_string(), &"/manifest".to_string(), &h), Handshake::BadVersion));
    assert!(matches!(handshake(&"HTTP/1.1".to_string(), &"/manifest".to_string(), &HeaderMap::new()), Handshake::Manifest));
    let mut no_upgrade = good();
    no_upgrade[1] = ("upgrade", "h2c");
    assert!(matches!(handshake(&"HTTP/1.1".to_string(), &"/".to_string(), &headers(&no_upgrade)), Handshake::NotUpgrade));
    let mut bad_version = good();
    bad_version[2] = ("sec-websocket-version", "8");
    assert!(matches!(handshake(&"HTTP/1.1".to_string(), &"/".to_string(), &headers(&bad_version)), Handshake::BadWebSocketVersion));
    let no_key = &good()[..3];
    assert!(matches!(handshake(&"HTTP/1.1".to_string(), &"/".to_string(), &headers(no_key)), Handshake::MissingKey));
}

#[test]
fn rejection_status_codes() {
    let s = Schema { name: "P".to_string(), variants: vec![] };
    let n = "x".to_string();
    assert!(response(&Handshake::BadVersion, &n, &s, &s).starts_with("HTTP/1.1 400 "));
    assert!(response(&Handshake::NotUpgrade, &n, &s, &s).starts_with("HTTP/1.1 418 "));
    assert!(response(&Handshake::BadWebSocketVersion, &n, &s, &s).starts_with("HTTP/1.1 400 "));
    assert!(response(&Handshake::MissingKey, &n, &s, &s).starts_with("HTTP/1.1 400 "));
}

#[test]
fn manifest_endpoint() {
    let incoming = Schema { name: "In".to_string(), variants: vec![Variant { name: "Ping".to_string(), fields: vec![] }] };
    let outgoing = Schema { name: "Out".to_string(), variants: vec![] };
    let body = manifest_document(&"Foo".to_string(), &incoming, &outgoing);
    assert!(body.contains("\"application_name\":\"Foo\""));
    assert!(body.contains("{\"name\":\"Ping\",\"opcode\":0,\"args\":[]}"));
    assert_eq!(
        body,
        "{\"application_name\":\"Foo\",\"incoming_protocol\":{\"protocol\":\"In\",\"operations\":[{\"name\":\"Ping\",\"opcode\":0,\"args\":[]}]},\"outgoing_protocol\":{\"protocol\":\"Out\",\"operations\":[]}}"
    );
    let text = response(&Handshake::Manifest, &"Foo".to_string(), &incoming, &outgoing);
    assert!(text.starts_with("HTTP/1.1 200 "));
    assert!(text.contains("Access-Control-Allow-Origin: *\r\n"));
    assert!(text.ends_with(&body));
}

#[test]
fn header_lines() {
    match parse_header_line(b"Sec-WebSocket-Key: abc== \r\n") {
        HeaderLine::Entry(n, v) => {
            assert_eq!(n, "sec-websocket-key");
            assert_eq!(v, "abc==");
        }
        _ => panic!("expected a header"),
    }
    assert!(matches!(parse_header_line(b"\r\n"), HeaderLine::End));
    assert!(matches!(parse_header_line(b"X: \xff\xfe\r\n"), HeaderLine::Malformed));
}

#[test]
fn later_header_wins() {
    let h = headers(&[("a", "1"), ("b", "2"), ("a", "3")]);
    assert_eq!(h.get(&"a".to_string()), Some(&"3".to_string()));
    assert_eq!(h.get(&"b".to_string()), Some(&"2".to_string()));
    assert_eq!(h.get(&"c".to_string()), None);
}

#[test]
fn request_tokens_are_trimmed() {
    assert_eq!(request_token(b"GET ".to_vec()), Some("GET".to_string()));
    assert_eq!(request_token(b"HTTP/1.1\r\n".to_vec()), Some("HTTP/1.1".to_string()));
    assert_eq!(request_token(vec![0xff]), None);
}

#[test]
fn search_helpers() {
    assert_eq!(count_up_till(b"ab cd", b' '), Some(2));
    assert_eq!(count_up_till(b"abcd", b' '), None);
    assert_eq!(count_up_till(b"", b' '), None);
    assert!(contains_text("keep-alive, upgrade", "upgrade"));
    assert!(!contains_text("keep-alive", "upgrade"));
    assert!(contains_text("x", ""));
}

#[test]
fn upgrade_header_values() {
    assert!(upgrade_headers_ok("keep-alive, upgrade", "websocket"));
    assert!(!upgrade_headers_ok("keep-alive", "websocket"));
    assert!(!upgrade_headers_ok("upgrade", "websockets"));
    assert!(!upgrade_headers_ok("upgrade", "WebSocket"));
}
