use base64::Engine;
use koc_core::bon::encode_game_packet;
use koc_core::crypto::{Encryptor, XorCrypto};
use koc_core::protocol::create_message;
use koc_core::proxy_capture::{
    decode_record, detect_encoding, is_sensitive_key, line_step, matches_command, normalize_key, read_bounded_line,
    redact_value, should_display, check_capture_record, ByteCursor, CaptureRecord, Direction, FrameOpcode, Inspector, LineStep,
    PayloadEncoding, CAPTURE_SCHEMA_VERSION,
};
use koc_core::catalog::{CommandCatalog, ShapeKind};
use koc_core::value::Value;
use koc_core::wildcard::wildcard_match;

fn binary_record(direction: Direction, index: u64, payload: &[u8]) -> CaptureRecord {
    CaptureRecord {
        version: CAPTURE_SCHEMA_VERSION,
        connection_id: "test-1".to_string(),
        frame_index: index,
        timestamp_ms: 1_000 + index * 10,
        direction,
        opcode: FrameOpcode::Binary,
        payload_base64: Some(base64::engine::general_purpose::STANDARD.encode(payload)),
    }
}

fn entries(list: Vec<(&str, Value)>) -> Vec<(String, Value)> {
    list.into_iter().map(|(k, v)| (k.to_string(), v)).collect()
}

#[test]
fn correlates_response_with_request() {
    let body = Value::Object(entries(vec![("id", Value::Int(3))]));
    let request = encode_game_packet("activity_test", 0, 7, 1000, Some(&body));
    let request = XorCrypto::new().encrypt(&request);
    let response = create_message(
        &entries(vec![
            ("resp", Value::Int(7)),
            ("seq", Value::Int(9)),
            ("code", Value::Int(0)),
            ("body", Value::Object(entries(vec![("ok", Value::Bool(true))]))),
        ]),
        Some("x"),
    )
    .unwrap();

    let mut inspector = Inspector::default();
    let request_event = inspector.inspect(&binary_record(Direction::ClientToServer, 1, &request));
    assert_eq!(request_event.cmd.as_deref(), Some("activity_test"));

    let response_event = inspector.inspect(&binary_record(Direction::ServerToClient, 2, &response));
    assert_eq!(response_event.matched_request.as_deref(), Some("activity_test"));
    assert_eq!(response_event.latency_ms, Some(10));
    assert_eq!(response_event.code, Some(0));
}

#[test]
fn command_filter_supports_wildcards() {
    assert!(wildcard_match("activity_*", "activity_test"));
    assert!(wildcard_match("*test", "activity_test"));
    assert!(wildcard_match("act*test", "activity_test"));
    assert!(wildcard_match("*activity", "activity_activity"));
    assert!(wildcard_match("a*a", "aaa"));
    assert!(!wildcard_match("fight_*", "activity_test"));
}

#[test]
fn wildcard_edges() {
    assert!(wildcard_match("", ""));
    assert!(!wildcard_match("", "a"));
    assert!(wildcard_match("*", ""));
    assert!(wildcard_match("**", "abc"));
    assert!(!wildcard_match("a*b", "ac"));
    assert!(wildcard_match("*a*b", "xxaxb"));
    assert!(!wildcard_match("*a*b", "xa"));
}

#[test]
fn redacts_sensitive_values() {
    let mut value = Value::Object(entries(vec![
        ("token", Value::Str("secret".to_string())),
        ("nested", Value::Object(entries(vec![("sessId", Value::Int(1)), ("id", Value::Int(2))]))),
    ]));
    redact_value(&mut value);
    match &value {
        Value::Object(es) => {
            assert!(matches!(&es[0].1, Value::Str(s) if s == "[REDACTED]"));
            match &es[1].1 {
                Value::Object(inner) => {
                    assert!(matches!(&inner[0].1, Value::Str(s) if s == "[REDACTED]"));
                    assert!(matches!(&inner[1].1, Value::Int(2)));
                }
                _ => panic!("expected an object"),
            }
        }
        _ => panic!("expected an object"),
    }
}

#[test]
fn sensitive_keys_are_normalized() {
    assert_eq!(normalize_key("Access_Token"), "accesstoken");
    assert_eq!(normalize_key("session-Id"), "sessionid");
    assert!(is_sensitive_key("accesstoken"));
    assert!(is_sensitive_key("uid"));
    assert!(!is_sensitive_key("id"));
    assert!(!is_sensitive_key("Token"));
}

#[test]
fn bounded_line_reader_rejects_oversized_input() {
    let mut input = ByteCursor::new(b"12345\n".to_vec());
    assert!(read_bounded_line(&mut input, 4).is_err());
}

#[test]
fn bounded_line_reader_reads_lines() {
    let mut input = ByteCursor::new(b"ab\ncd".to_vec());
    assert_eq!(read_bounded_line(&mut input, 10).unwrap(), Some(b"ab\n".to_vec()));
    assert_eq!(read_bounded_line(&mut input, 10).unwrap(), Some(b"cd".to_vec()));
    assert_eq!(read_bounded_line(&mut input, 10).unwrap(), None);
    let mut input = ByteCursor::new(b"12345\n".to_vec());
    assert_eq!(read_bounded_line(&mut input, 4).unwrap_err(), "capture line exceeds 4 bytes");
    assert!(matches!(line_step(2, b"ab\nc", 5), LineStep::Take(3, true)));
    assert!(matches!(line_step(3, b"abc", 5), LineStep::TooLong));
    assert!(matches!(line_step(0, b"", 5), LineStep::End));
}

#[test]
fn encodings_are_detected() {
    assert!(detect_encoding(&[112, 120, 1]) == PayloadEncoding::X);
    assert!(detect_encoding(&[112, 108]) == PayloadEncoding::Lx);
    assert!(detect_encoding(&[112]) == PayloadEncoding::Plain);
}

#[test]
fn non_binary_and_bad_payloads() {
    let mut rec = binary_record(Direction::ClientToServer, 1, b"x");
    rec.opcode = FrameOpcode::Text;
    assert!(matches!(rec.binary_payload(), Ok(None)));
    let mut rec = binary_record(Direction::ClientToServer, 1, b"x");
    rec.payload_base64 = None;
    assert_eq!(rec.binary_payload().unwrap_err(), "binary capture record has no payload");
    rec.payload_base64 = Some("@@@".to_string());
    assert!(rec.binary_payload().unwrap_err().starts_with("invalid capture payload base64: "));
    let rec = binary_record(Direction::ClientToServer, 1, &[1, 2, 3, 250]);
    assert_eq!(rec.binary_payload().unwrap(), Some(vec![1, 2, 3, 250]));
}

#[test]
fn malformed_body_is_reported_without_echoing_base64() {
    let payload = create_message(
        &entries(vec![
            ("cmd", Value::Str("activity_bad".to_string())),
            ("seq", Value::Int(1)),
            ("body", Value::Str("not-valid-base64".to_string())),
        ]),
        Some("x"),
    )
    .unwrap();
    let event = decode_record(&binary_record(Direction::ClientToServer, 1, &payload));
    assert!(event.body_decode_error.as_deref().unwrap().contains("body base64"));
    assert!(event.decode_error.is_none());
    assert!(event.body.is_none());
    assert_eq!(event.cmd.as_deref(), Some("activity_bad"));
}

#[test]
fn unmatched_response_has_no_request() {
    let unmatched = create_message(
        &entries(vec![("cmd", Value::Str("activity_test".to_string())), ("resp", Value::Int(99))]),
        Some("x"),
    )
    .unwrap();
    let mut inspector = Inspector::new(false);
    let event = inspector.inspect(&binary_record(Direction::ServerToClient, 2, &unmatched));
    assert!(event.matched_request.is_none());
    assert!(event.latency_ms.is_none());
    assert!(matches_command(Some("activity_*"), &event));
    assert!(!matches_command(Some("fight_*"), &event));
    assert!(matches_command(None, &event));
}

#[test]
fn malformed_nested_body_is_reported_without_echoing_base64() {
    let payload = create_message(
        &entries(vec![
            ("cmd", Value::Str("activity_bad".to_string())),
            ("seq", Value::Int(1)),
            ("body", Value::Str("not-valid-base64".to_string())),
        ]),
        Some("x"),
    )
    .unwrap();
    let mut inspector = Inspector::default();
    let event = inspector.inspect(&binary_record(Direction::ClientToServer, 1, &payload));
    assert!(event.body_decode_error.as_deref().unwrap().contains("body base64"));
    assert!(event.decode_error.is_none());
    assert!(event.body.is_none());
    let mut catalog = CommandCatalog::new();
    catalog.observe(&event);
    assert_eq!(catalog.command("activity_bad").unwrap().requests, 1);
}

#[test]
fn catalog_ignores_heartbeat_and_tracks_unmatched_response() {
    let heartbeat = encode_game_packet("_sys/ack", 4, 0, 1000, None);
    let heartbeat = XorCrypto::new().encrypt(&heartbeat);
    let unmatched = create_message(
        &entries(vec![
            ("cmd", Value::Str("activity_test".to_string())),
            ("resp", Value::Int(99)),
            ("seq", Value::Int(10)),
            ("code", Value::Int(0)),
            ("body", Value::Object(entries(vec![("ok", Value::Bool(true))]))),
        ]),
        Some("x"),
    )
    .unwrap();

    let mut inspector = Inspector::default();
    let mut catalog = CommandCatalog::new();
    catalog.observe(&inspector.inspect(&binary_record(Direction::ClientToServer, 1, &heartbeat)));
    catalog.observe(&inspector.inspect(&binary_record(Direction::ServerToClient, 2, &unmatched)));
    assert!(catalog.commands.is_empty());
    assert_eq!(catalog.unmatched_responses, 1);
}

#[test]
fn catalog_counts_codes_and_bounds_shapes() {
    let request = XorCrypto::new().encrypt(&encode_game_packet("hero_x", 0, 5, 1000, Some(&Value::Object(vec![]))));
    let response = create_message(
        &entries(vec![("resp", Value::Int(5)), ("code", Value::Int(-2)), ("body", Value::Object(vec![]))]),
        Some("x"),
    )
    .unwrap();
    let mut inspector = Inspector::default();
    let mut catalog = CommandCatalog::new();
    let due = catalog.observe(&inspector.inspect(&binary_record(Direction::ClientToServer, 1, &request)));
    let (cmd, kind) = due.unwrap();
    assert_eq!(cmd, "hero_x");
    assert!(kind == ShapeKind::Request);
    catalog.record_shape(&cmd, kind, "{}".to_string());
    catalog.record_shape(&cmd, kind, "{}".to_string());
    assert_eq!(catalog.shape_count, 1);
    assert_eq!(catalog.schema_bytes_used, 2);
    let due = catalog.observe(&inspector.inspect(&binary_record(Direction::ServerToClient, 2, &response)));
    assert!(due.unwrap().1 == ShapeKind::Response);
    let summary = catalog.command("hero_x").unwrap();
    assert_eq!((summary.requests, summary.responses), (1, 1));
    assert_eq!(summary.codes, vec![("-2".to_string(), 1)]);
    catalog.record_shape("hero_x", ShapeKind::Push, "x".repeat(65537));
    assert_eq!(catalog.overflow_shapes, 1);
    assert_eq!(catalog.command("hero_x").unwrap().overflow_shapes, 1);
    assert!(catalog.has_room());
}

#[test]
fn display_filter_and_record_checks() {
    let packet = XorCrypto::new().encrypt(&encode_game_packet("fight_x", 0, 3, 1000, None));
    let mut inspector = Inspector::default();
    let event = inspector.inspect(&binary_record(Direction::ClientToServer, 1, &packet));
    assert!(should_display(false, None, None, &event));
    assert!(should_display(false, Some(Direction::ClientToServer), Some("fight_*"), &event));
    assert!(!should_display(false, Some(Direction::ServerToClient), None, &event));
    assert!(!should_display(false, None, Some("activity_*"), &event));
    let mut ping = binary_record(Direction::ClientToServer, 2, &[]);
    ping.opcode = FrameOpcode::Ping;
    ping.payload_base64 = None;
    let ping_event = inspector.inspect(&ping);
    assert!(!should_display(false, None, None, &ping_event));
    assert!(should_display(true, None, None, &ping_event));

    assert!(check_capture_record(&binary_record(Direction::ClientToServer, 1, &[]), 1).is_ok());
    let mut old = binary_record(Direction::ClientToServer, 1, &[]);
    old.version = 2;
    assert_eq!(check_capture_record(&old, 7).unwrap_err(), "unsupported capture schema version 2 on line 7");
    let mut long = binary_record(Direction::ClientToServer, 1, &[]);
    long.connection_id = "x".repeat(257);
    assert_eq!(check_capture_record(&long, 3).unwrap_err(), "connection_id is too long on line 3");
}
