use koc_core::proxy::{build_upstream_url, is_loopback_host, parse_origin, validate_upstream_origin};
use koc_core::websocket::{build_url, build_url_with_base};

#[test]
fn preserves_request_path_and_query_without_changing_origin() {
    let url = build_upstream_url("wss://example.com", "/agent?p=secret&e=x").unwrap();
    assert_eq!(url.as_str(), "wss://example.com/agent?p=secret&e=x");
}

#[test]
fn rejects_non_websocket_upstream() {
    let origin = parse_origin("https://example.com").unwrap();
    assert!(validate_upstream_origin(&origin).is_err());
}

#[test]
fn rejects_remote_plaintext_upstream() {
    let origin = parse_origin("ws://example.com").unwrap();
    assert!(validate_upstream_origin(&origin).is_err());
    let loopback = parse_origin("ws://127.0.0.1:9000").unwrap();
    assert!(validate_upstream_origin(&loopback).is_ok());
}

#[test]
fn builds_relay_url_without_losing_token_json() {
    let token = r#"{"sessId":1,"name":"a b"}"#;
    let url = build_url_with_base(token, "ws://127.0.0.1:8787").unwrap();
    let parsed = url::Url::parse(&url).unwrap();
    assert_eq!(parsed.scheme(), "ws");
    assert_eq!(parsed.path(), "/agent");
    let query: std::collections::HashMap<_, _> = parsed.query_pairs().into_owned().collect();
    assert_eq!(query.get("p").map(String::as_str), Some(token));
    assert_eq!(query.get("e").map(String::as_str), Some("x"));
}

#[test]
fn origins_are_checked() {
    assert_eq!(
        validate_upstream_origin(&parse_origin("ws://user:pw@localhost").unwrap()).unwrap_err(),
        "upstream origin must not contain credentials"
    );
    assert_eq!(
        validate_upstream_origin(&parse_origin("wss://example.com/?q=1").unwrap()).unwrap_err(),
        "upstream origin must not contain a query or fragment"
    );
    assert!(validate_upstream_origin(&parse_origin("ws://LocalHost:1").unwrap()).is_ok());
    assert!(validate_upstream_origin(&parse_origin("wss://example.com").unwrap()).is_ok());
    assert_eq!(
        validate_upstream_origin(&parse_origin("ws://10.0.0.1").unwrap()).unwrap_err(),
        "remote upstream origins must use wss://"
    );
    assert!(is_loopback_host("127.255.0.9"));
    assert!(!is_loopback_host("127.0.0.01"));
    assert!(!is_loopback_host("127.0.0"));
    assert!(!is_loopback_host("127.0.0.256"));
    assert!(!is_loopback_host("[::1]"));
    assert_eq!(
        build_upstream_url("wss://example.com/old#frag", "/new").unwrap(),
        "wss://example.com/new"
    );
    assert!(build_url_with_base("t", "https://example.com").unwrap_err().contains("ws:// or wss://"));
    assert!(build_url_with_base("t", "not a url").unwrap_err().starts_with("invalid WebSocket base URL: "));
    assert!(build_url("t").unwrap().starts_with("wss://xxz-xyzw.hortorgames.com/agent?p=t"));
}
