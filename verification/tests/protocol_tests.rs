use koc_core::bon::encode_game_packet;
use koc_core::crypto::{Encryptor, XorCrypto, DEFAULT_MAX_DECOMPRESSED_SIZE};
use koc_core::protocol::{create_message, parse_message, parse_message_enc, parse_message_limited, ProtoMsg, DEFAULT_MAX_WIRE_SIZE};
use koc_core::value::Value;

fn entries(list: Vec<(&str, Value)>) -> Vec<(String, Value)> {
    list.into_iter().map(|(k, v)| (k.to_string(), v)).collect()
}

#[test]
fn rejects_wire_payload_over_configured_limit() {
    let error = match parse_message_limited(&[0; 9], 8, 1024) {
        Err(e) => e,
        Ok(_) => panic!("expected an error"),
    };
    assert!(error.contains("wire payload exceeds limit"));
}

#[test]
fn numeric_accessors_do_not_wrap_out_of_range_values() {
    let message = ProtoMsg::new(entries(vec![
        ("ack", Value::Int(i64::MAX)),
        ("seq", Value::Int(i64::MAX)),
        ("resp", Value::Int(i64::MAX)),
        ("code", Value::Int(i64::MAX)),
    ]));
    assert_eq!(message.ack(), 0);
    assert_eq!(message.seq(), 0);
    assert_eq!(message.resp(), 0);
    assert_eq!(message.code_opt(), None);
}

#[test]
fn normal_client_accepts_body_larger_than_proxy_budget() {
    let body = Value::Array((0..100_001).map(|_| Value::Null).collect());
    let packet = encode_game_packet("large_body", 0, 1, 1000, Some(&body));
    let packet = XorCrypto::new().encrypt(&packet);

    let normal = parse_message(&packet).ok().unwrap();
    assert!(normal.raw_data_result().is_ok());

    let strict = parse_message_limited(&packet, DEFAULT_MAX_WIRE_SIZE, DEFAULT_MAX_DECOMPRESSED_SIZE).ok().unwrap();
    assert!(strict.raw_data_result().is_err());
}

#[test]
fn created_message_parses_back() {
    let data = entries(vec![("cmd", Value::Str("hello".to_string())), ("seq", Value::Int(5))]);
    let bytes = create_message(&data, None).unwrap();
    assert_eq!(&bytes[..2], &[112, 120]);
    let msg = parse_message(&bytes).ok().unwrap();
    assert_eq!(msg.cmd(), Some("hello"));
    assert_eq!(msg.seq(), 5);
    let again = parse_message_enc(&bytes, "x").ok().unwrap();
    assert_eq!(again.seq(), 5);
}

#[test]
fn lx_message_parses_back() {
    let data = entries(vec![("resp", Value::Int(9)), ("code", Value::Int(-3))]);
    let bytes = create_message(&data, Some("lx")).unwrap();
    let msg = parse_message(&bytes).ok().unwrap();
    assert_eq!(msg.resp(), 9);
    assert_eq!(msg.code(), -3);
}

#[test]
fn accessors_read_fields() {
    let msg = ProtoMsg::new(entries(vec![
        ("cmd", Value::Str("x".to_string())),
        ("ack", Value::Int(3)),
        ("time", Value::Int(-7)),
        ("error", Value::Str("bad".to_string())),
        ("hint", Value::Str("try".to_string())),
        ("code", Value::Int(12)),
    ]));
    assert_eq!(msg.cmd(), Some("x"));
    assert_eq!(msg.ack(), 3);
    assert_eq!(msg.time(), -7);
    assert_eq!(msg.error(), Some("bad"));
    assert_eq!(msg.hint(), Some("try"));
    assert_eq!(msg.code(), 12);
    assert!(msg.body().is_none());
    assert!(matches!(msg.raw_data_result(), Ok(None)));
    assert_eq!(msg.get_data().len(), 6);
}

#[test]
fn body_errors_are_reported() {
    let msg = ProtoMsg::new(entries(vec![("body", Value::Str("not-valid-base64".to_string()))]));
    assert_eq!(msg.raw_data_result().err().unwrap(), "body base64 decode failed");
    let msg = ProtoMsg::new(entries(vec![("body", Value::Int(1))]));
    assert_eq!(msg.raw_data_result().err().unwrap(), "body is neither BON binary nor an object");
    let msg = ProtoMsg::new(entries(vec![("body", Value::Object(vec![]))]));
    assert!(matches!(msg.raw_data_result(), Ok(Some(Value::Object(_)))));
}

#[test]
fn non_object_message_is_rejected() {
    let packet = koc_core::bon::encode(&Value::Int(5));
    match parse_message(&packet) {
        Err(e) => assert_eq!(e, "Expected object"),
        Ok(_) => panic!("expected an error"),
    }
    match parse_message(&[200]) {
        Err(e) => assert_eq!(e, "BON decode failed"),
        Ok(_) => panic!("expected an error"),
    }
}
