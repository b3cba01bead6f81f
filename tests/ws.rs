use settlers_server::http::helpers::{HeaderName, Status};
use settlers_server::http::ws::{upgrade_response, ws, UpgradeRequest};
use settlers_server::text::{eq_ignore_ascii_case, header_list_contains};

fn handshake() -> UpgradeRequest {
    UpgradeRequest {
        method_is_get: true,
        version_is_http11: true,
        key: Some(b"dGhlIHNhbXBsZSBub25jZQ==".to_vec()),
        ws_version: Some(b"13".to_vec()),
        upgrade: Some("websocket".to_string()),
        connection: Some("Upgrade".to_string()),
    }
}

#[test]
fn accept_token_matches_published_pair() {
    let r = ws("", &handshake());
    assert_eq!(r.status, Status::SwitchingProtocols);
    assert_eq!(r.headers, vec![
        (HeaderName::Connection, "Upgrade".to_string()),
        (HeaderName::Upgrade, "websocket".to_string()),
        (HeaderName::SecWebSocketAccept, "s3pPLMBiTxaQ9kYGzzhZRbK+xOo=".to_string()),
    ]);
    assert!(r.body.is_empty());
}

#[test]
fn handshake_accepts_case_and_lists() {
    let mut req = handshake();
    req.upgrade = Some("WebSocket".to_string());
    req.connection = Some("keep-alive, Upgrade".to_string());
    assert_eq!(ws("", &req).status, Status::SwitchingProtocols);
}

#[test]
fn handshake_violations_are_bad_requests() {
    let mut cases = Vec::new();
    let mut r = handshake();
    r.method_is_get = false;
    cases.push(r);
    let mut r = handshake();
    r.version_is_http11 = false;
    cases.push(r);
    let mut r = handshake();
    r.key = None;
    cases.push(r);
    let mut r = handshake();
    r.ws_version = Some(b"12".to_vec());
    cases.push(r);
    let mut r = handshake();
    r.ws_version = None;
    cases.push(r);
    let mut r = handshake();
    r.upgrade = Some("h2c".to_string());
    cases.push(r);
    let mut r = handshake();
    r.connection = Some("keep-alive".to_string());
    cases.push(r);
    let mut r = handshake();
    r.connection = Some("upgrades".to_string());
    cases.push(r);
    for req in &cases {
        let resp = ws("", req);
        assert_eq!(resp.status, Status::BadRequest);
        assert_eq!(resp.body, b"Bad Request".to_vec());
    }
    assert_eq!(ws("extra", &handshake()).status, Status::BadRequest);
}

#[test]
fn upgrade_response_carries_token() {
    let r = upgrade_response("abc".to_string());
    assert_eq!(r.status.code(), 101);
    assert_eq!(r.headers[2], (HeaderName::SecWebSocketAccept, "abc".to_string()));
}

#[test]
fn token_lists_and_case() {
    assert!(header_list_contains("Upgrade", "upgrade"));
    assert!(header_list_contains("keep-alive,upgrade", "upgrade"));
    assert!(header_list_contains("keep-alive ,  UPGRADE ", "upgrade"));
    assert!(!header_list_contains("keep-alive", "upgrade"));
    assert!(!header_list_contains("upgrade-insecure", "upgrade"));
    assert!(!header_list_contains("", "upgrade"));
    assert!(eq_ignore_ascii_case("WebSocket", "websocket"));
    assert!(!eq_ignore_ascii_case("websockets", "websocket"));
}
