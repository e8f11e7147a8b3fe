use koc_core::koc::{add_session_fields, clock_draw, hex_lower, set_server_id, KocCore};
use koc_core::bon::is_encodable;
use koc_core::protocol::create_message;
use koc_core::value::Value;

fn entries(list: Vec<(&str, Value)>) -> Vec<(String, Value)> {
    list.into_iter().map(|(k, v)| (k.to_string(), v)).collect()
}

fn int_at(es: &[(String, Value)], k: &str) -> Option<i64> {
    match es.iter().rev().find(|(key, _)| key == k).map(|(_, v)| v) {
        Some(Value::Int(i)) => Some(*i),
        _ => None,
    }
}

fn text_at(es: &[(String, Value)], k: &str) -> Option<String> {
    match es.iter().rev().find(|(key, _)| key == k).map(|(_, v)| v) {
        Some(Value::Str(s)) => Some(s.clone()),
        _ => None,
    }
}

#[test]
fn test_bon_encoding() {
    let core = KocCore::new();
    let data = entries(vec![("key", Value::Int(123)), ("value", Value::Str("test".to_string()))]);
    let encoded = core.encode_bin(&data).unwrap();
    println!("Encoded len: {}, first bytes: {:?}", encoded.len(), &encoded[..4.min(encoded.len())]);
    let decoded = core.parse_bin(&encoded).unwrap();
    println!("Decoded: {:?}", decoded);
}

#[test]
fn bin_reads_back_its_fields() {
    let core = KocCore::new();
    let data = entries(vec![("serverId", Value::Int(7)), ("name", Value::Str("x".to_string()))]);
    let encoded = core.encode_bin(&data).unwrap();
    let back = core.parse_bin(&encoded).unwrap();
    assert_eq!(back.len(), 2);
    assert_eq!(int_at(&back, "serverId"), Some(7));
    assert_eq!(text_at(&back, "name"), Some("x".to_string()));
    assert!(core.parse_bin(&[1, 2, 3]).is_err());
}

#[test]
fn token_id_is_hex_md5() {
    assert_eq!(KocCore::get_token_id(b""), "d41d8cd98f00b204e9800998ecf8427e");
    assert_eq!(KocCore::get_token_id(b"abc"), "900150983cd24fb0d6963f7d28e17f72");
    assert_eq!(hex_lower(&[0x00, 0x0f, 0xa0, 0xff]), "000fa0ff");
}

fn role(id: i64, power: i64) -> Value {
    Value::Object(entries(vec![
        ("roleId", Value::Int(id)),
        ("name", Value::Str(format!("r{}", id))),
        ("serverId", Value::Int(3)),
        ("power", Value::Int(power)),
        ("level", Value::Int(60)),
    ]))
}

#[test]
fn server_roles_come_strongest_first() {
    let core = KocCore::new();
    let body = entries(vec![(
        "roles",
        Value::Object(entries(vec![
            ("a", role(1, 100)),
            ("b", role(2, 300)),
            ("c", Value::Int(5)),
            ("d", role(3, 100)),
            ("e", role(4, 200)),
        ])),
    )]);
    let msg = create_message(&entries(vec![("cmd", Value::Str("x".to_string())), ("body", Value::Object(body))]), None)
        .unwrap();
    let roles = core.roles_from_response(&msg).unwrap();
    let ids: Vec<u64> = roles.iter().map(|r| r.role_id).collect();
    assert_eq!(ids, vec![2, 4, 1, 3]);
    assert_eq!(roles[0].name, "r2");
    assert_eq!(roles[0].server_id, 3);
    assert_eq!(roles[0].level, 60);

    let no_body = create_message(&entries(vec![("cmd", Value::Str("x".to_string()))]), None).unwrap();
    assert_eq!(core.roles_from_response(&no_body).unwrap_err(), "Failed to decode body");
    let no_roles = create_message(&entries(vec![("body", Value::Object(vec![]))]), None).unwrap();
    assert!(core.roles_from_response(&no_roles).unwrap().is_empty());
}

#[test]
fn session_fields_are_added() {
    let mut data = entries(vec![("sessId", Value::Int(1)), ("token", Value::Str("t".to_string()))]);
    add_session_fields(&mut data, 1_700_000_000_000, 1234, 57);
    assert_eq!(int_at(&data, "sessId"), Some(170_000_000_000_034));
    assert_eq!(int_at(&data, "connId"), Some(1_700_000_000_007));
    assert_eq!(int_at(&data, "isRestore"), Some(0));
    assert_eq!(data.len(), 4);
    assert_eq!(data[0].0, "sessId");

    let core = KocCore::new();
    let msg = create_message(&entries(vec![("body", Value::Object(entries(vec![("uid", Value::Int(9))])))]), None)
        .unwrap();
    let token = core.token_from_response(&msg, 10, 0, 0).unwrap();
    assert_eq!(int_at(&token, "uid"), Some(9));
    assert_eq!(int_at(&token, "sessId"), Some(1000));
    assert_eq!(int_at(&token, "connId"), Some(10));
}

#[test]
fn server_id_is_patched_into_the_bin() {
    let core = KocCore::new();
    let mut fields = entries(vec![("platform", Value::Str("hortor".to_string())), ("serverId", Value::Int(1))]);
    set_server_id(&mut fields, 2_000_123);
    assert_eq!(fields.len(), 2);
    assert!(matches!(fields[1].1, Value::Int(2_000_123)));
    let mut bare = entries(vec![("platform", Value::Str("hortor".to_string()))]);
    set_server_id(&mut bare, 7);
    assert_eq!(bare[1].0, "serverId");
    let bytes = core.encode_bin(&fields).expect("encodes");
    let back = core.parse_bin(&bytes).expect("parses");
    assert!(back.iter().any(|(k, v)| k == "serverId" && matches!(v, Value::Int(2_000_123))));
}

#[test]
fn encodable_values_exclude_the_most_negative_integer() {
    assert!(is_encodable(&Value::Int(i64::MIN + 1)));
    assert!(!is_encodable(&Value::Int(i64::MIN)));
    assert!(!is_encodable(&Value::Array(vec![Value::Null, Value::Int(i64::MIN)])));
    assert!(!is_encodable(&Value::Object(entries(vec![("a", Value::Array(vec![Value::Int(i64::MIN)]))]))));
    assert!(is_encodable(&Value::Object(entries(vec![("a", Value::Array(vec![Value::Int(5)]))]))));
}

#[test]
fn clock_draws_follow_the_linear_formula() {
    assert_eq!(clock_draw(0), 12345);
    assert_eq!(clock_draw(1), 1103527590);
    assert_eq!(clock_draw(999_999_999), 999_999_999u64 * 1103515245 + 12345);
}
