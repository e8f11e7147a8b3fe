use koc_core::bon::{decode, decode_with_limits, encode, encode_game_packet, BonDecodeLimits, BonEncoder};
use koc_core::bytes_io::{DataReader, DataWriter};
use koc_core::value::Value;

fn obj(entries: Vec<(&str, Value)>) -> Value {
    Value::Object(entries.into_iter().map(|(k, v)| (k.to_string(), v)).collect())
}

fn same(a: &Value, b: &Value) -> bool {
    match (a, b) {
        (Value::Null, Value::Null) => true,
        (Value::Bool(x), Value::Bool(y)) => x == y,
        (Value::Int(x), Value::Int(y)) => x == y,
        (Value::Float(x), Value::Float(y)) => x == y,
        (Value::Str(x), Value::Str(y)) => x == y,
        (Value::Array(x), Value::Array(y)) => x.len() == y.len() && x.iter().zip(y).all(|(p, q)| same(p, q)),
        (Value::Object(x), Value::Object(y)) => {
            x.len() == y.len() && x.iter().zip(y).all(|(p, q)| p.0 == q.0 && same(&p.1, &q.1))
        }
        _ => false,
    }
}

#[test]
fn test_bon_roundtrip() {
    let value = obj(vec![("key", Value::Int(123)), ("value", Value::Str("test".to_string()))]);
    let encoded = encode(&value);
    let decoded = decode(&encoded);
    assert!(decoded.is_some());
}

#[test]
fn bon_roundtrip_gives_the_value_back() {
    let value = obj(vec![
        ("a", Value::Int(-5)),
        ("big", Value::Int(1i64 << 40)),
        ("s", Value::Str("héllo".to_string())),
        ("again", Value::Str("héllo".to_string())),
        ("list", Value::Array(vec![Value::Null, Value::Bool(true), Value::Float(1.5f64.to_bits())])),
        ("nested", obj(vec![("x", Value::Bool(false))])),
    ]);
    let decoded = decode(&encode(&value)).unwrap();
    assert!(same(&decoded, &value));
}

#[test]
fn bon_encodes_small_ints_as_i32() {
    assert_eq!(encode(&Value::Int(1)), vec![1, 1, 0, 0, 0]);
    assert_eq!(encode(&Value::Null), vec![0]);
    assert_eq!(encode(&Value::Bool(true)), vec![6, 1]);
    assert_eq!(encode(&Value::Str("ab".to_string())), vec![5, 2, 97, 98]);
}

#[test]
fn repeated_strings_use_the_table() {
    let value = Value::Array(vec![Value::Str("ab".to_string()), Value::Str("ab".to_string())]);
    assert_eq!(encode(&value), vec![9, 2, 5, 2, 97, 98, 99, 0]);
}

#[test]
fn decoder_rejects_deep_nesting() {
    let mut v = Value::Null;
    for _ in 0..70 {
        v = Value::Array(vec![v]);
    }
    let bytes = encode(&v);
    assert!(decode(&bytes).is_some());
    assert!(decode_with_limits(&bytes, BonDecodeLimits::proxy()).is_none());
}

#[test]
fn decoder_rejects_truncated_input() {
    assert!(decode(&[1, 0, 0]).is_none());
    assert!(decode(&[]).is_none());
    assert!(decode(&[42]).is_none());
}

#[test]
fn binary_values_decode_as_base64_text() {
    let mut enc = BonEncoder::new();
    enc.encode_binary(&[1, 2, 3]);
    let decoded = decode(&enc.get_bytes()).unwrap();
    assert!(same(&decoded, &Value::Str("AQID".to_string())));
}

#[test]
fn game_packet_has_header_fields_and_binary_body() {
    let body = obj(vec![("id", Value::Int(3))]);
    let packet = encode_game_packet("role_getroleinfo", 1, 2, 1000, Some(&body));
    let decoded = decode(&packet).unwrap();
    match decoded {
        Value::Object(es) => {
            let keys: Vec<&str> = es.iter().map(|e| e.0.as_str()).collect();
            assert_eq!(keys, vec!["cmd", "ack", "seq", "time", "body"]);
            assert!(same(&es[0].1, &Value::Str("role_getroleinfo".to_string())));
            assert!(same(&es[2].1, &Value::Int(2)));
        }
        _ => panic!("expected an object"),
    }
}

#[test]
fn data_writer_and_reader_agree() {
    let mut w = DataWriter::new();
    w.write_u8(7);
    w.write_i16(-2);
    w.write_i32(-70000);
    w.write_i64(1 << 40);
    w.write_utf("hé");
    w.write_bytes(&[9, 8]);
    let bytes = w.get_bytes();
    let mut r = DataReader::new(bytes);
    assert_eq!(r.read_u8(), Some(7));
    assert_eq!(r.read_i16(), Some(-2));
    assert_eq!(r.read_i32(), Some(-70000));
    assert_eq!(r.read_i64(), Some(1 << 40));
    assert_eq!(r.read_utf(), Some("hé".to_string()));
    assert_eq!(r.read_bytes(2), Some(vec![9, 8]));
    assert_eq!(r.read_u8(), None);
}

#[test]
fn varint_reads_seven_bit_groups() {
    let mut r = DataReader::new(vec![0xac, 0x02]);
    assert_eq!(r.read_7bit_int(), Some(300));
    let mut r = DataReader::new(vec![0x80]);
    assert_eq!(r.read_7bit_int(), None);
}

#[test]
fn negative_multiples_of_two_to_the_32_round_trip() {
    let mut w = DataWriter::new();
    w.write_i64(-(1i64 << 32));
    assert_eq!(w.get_bytes(), (-(1i64 << 32)).to_le_bytes().to_vec());
    for v in [-(1i64 << 32), -(3i64 << 32), i64::MIN + 1, -1, -(1i64 << 40) + 7] {
        let mut w = DataWriter::new();
        w.write_i64(v);
        assert_eq!(w.get_bytes(), v.to_le_bytes().to_vec());
        let mut r = DataReader::new(w.get_bytes());
        assert_eq!(r.read_i64(), Some(v));
        assert_eq!(r.read_u8(), None);
        let decoded = decode(&encode(&Value::Int(v))).unwrap();
        assert!(matches!(decoded, Value::Int(x) if x == v));
    }
}
