use koc_core::shape::value_shape;
use koc_core::value::Value;

fn obj(list: Vec<(&str, Value)>) -> Value {
    Value::Object(list.into_iter().map(|(k, v)| (k.to_string(), v)).collect())
}

fn text(v: &Value) -> String {
    match v {
        Value::Null => "null".to_string(),
        Value::Bool(b) => b.to_string(),
        Value::Int(i) => i.to_string(),
        Value::Float(f) => f.to_string(),
        Value::Str(s) => format!("{:?}", s),
        Value::Array(items) => format!("[{}]", items.iter().map(text).collect::<Vec<_>>().join(",")),
        Value::Object(es) => format!(
            "{{{}}}",
            es.iter().map(|(k, v)| format!("{:?}:{}", k, text(v))).collect::<Vec<_>>().join(",")
        ),
    }
}

#[test]
fn outline_names_types_and_orders_keys() {
    let body = obj(vec![
        ("b", Value::Int(1)),
        ("a", Value::Str("x".to_string())),
        ("c", Value::Array(vec![Value::Int(1), Value::Int(2), Value::Null, Value::Bool(true)])),
    ]);
    assert_eq!(
        text(&value_shape(&body, 0)),
        r#"{"a":"string","b":"number","c":["number","null","boolean"]}"#
    );
    assert_eq!(text(&value_shape(&Value::Null, 16)), r#""depth_limit""#);
}

#[test]
fn outline_cuts_long_keys_and_wide_objects() {
    let long = "k".repeat(300);
    let shape = value_shape(&obj(vec![(long.as_str(), Value::Null)]), 0);
    match &shape {
        Value::Object(es) => {
            assert_eq!(es[0].0, format!("{}...", "k".repeat(256)));
        }
        _ => panic!("not an object"),
    }
    let many: Vec<(String, Value)> = (0..300).map(|i| (format!("k{:03}", i), Value::Null)).collect();
    let shape = value_shape(&Value::Object(many), 0);
    match &shape {
        Value::Object(es) => {
            assert_eq!(es.len(), 257);
            assert_eq!(es[0].0, "$truncated");
            assert_eq!(es[1].0, "k000");
        }
        _ => panic!("not an object"),
    }
}

#[test]
fn outline_keeps_at_most_sixteen_variants() {
    let mut items = Vec::new();
    for i in 0..20 {
        items.push(Value::Object(vec![(format!("k{}", i), Value::Null)]));
    }
    let shape = value_shape(&Value::Array(items), 0);
    match &shape {
        Value::Array(vs) => {
            assert_eq!(vs.len(), 17);
            assert_eq!(text(&vs[16]), r#""variant_limit""#);
        }
        _ => panic!("not a list"),
    }
}
