use ixc_schema::codec::encode_value as encode_binary;
use ixc_schema::json::decoder::{decode_json, JsonValue};
use ixc_schema::json::encoder::encode_value;
use ixc_schema::value::{DynamicValue, FieldType, ValueType, VariantType};

/// The JSON tree serde_json reads from text, as the decoder takes it.
fn tree(v: serde_json::Value) -> JsonValue {
    match v {
        serde_json::Value::Null => JsonValue::Null,
        serde_json::Value::Bool(b) => JsonValue::Bool(b),
        serde_json::Value::Number(n) => JsonValue::Number { as_u64: n.as_u64(), as_i64: n.as_i64() },
        serde_json::Value::String(s) => JsonValue::String(s),
        serde_json::Value::Array(xs) => JsonValue::Array(xs.into_iter().map(tree).collect()),
        serde_json::Value::Object(m) => JsonValue::Object(m.into_iter().map(|(k, v)| (k, tree(v))).collect()),
    }
}

fn roundtrip(v: &DynamicValue, t: &ValueType) -> DynamicValue {
    let mut out = Vec::new();
    encode_value(v, t, &mut out).unwrap();
    let parsed: serde_json::Value = serde_json::from_slice(&out).unwrap();
    decode_json(&tree(parsed), t).unwrap()
}

fn field(name: &str, ty: ValueType) -> FieldType {
    FieldType { name: name.to_string(), ty }
}

#[test]
fn values_come_back_from_json() {
    let shape = || {
        ValueType::Enum(vec![
            VariantType { name: "Empty".to_string(), discriminant: 0, payload: None },
            VariantType { name: "Circle".to_string(), discriminant: 4, payload: Some(ValueType::U32) },
        ])
    };
    let t = ValueType::Struct(vec![
        field("small", ValueType::I16),
        field("wide", ValueType::I128),
        field("id", ValueType::AccountID),
        field("text", ValueType::Str),
        field("raw", ValueType::Bytes),
        field("items", ValueType::List(Box::new(ValueType::U64))),
        field("shape", shape()),
        field("maybe", ValueType::Nullable(Box::new(ValueType::Bool))),
        field("unset", ValueType::U8),
    ]);
    let v = DynamicValue::Struct(vec![
        DynamicValue::I16(-300),
        DynamicValue::I128(i128::MIN),
        DynamicValue::AccountID(u128::MAX),
        DynamicValue::Str("quote \" backslash \\ tab \t é".to_string()),
        DynamicValue::Bytes(vec![0, 1, 2, 250, 251, 252]),
        DynamicValue::List(vec![DynamicValue::U64(u64::MAX), DynamicValue::U64(0)]),
        DynamicValue::Enum(4, Some(Box::new(DynamicValue::U32(9)))),
        DynamicValue::Nullable(Some(Box::new(DynamicValue::Bool(false)))),
        DynamicValue::U8(0),
    ]);
    let back = roundtrip(&v, &t);
    assert_eq!(encode_binary(&back), encode_binary(&v));

    let plain = DynamicValue::Enum(0, None);
    assert_eq!(encode_binary(&roundtrip(&plain, &shape())), encode_binary(&plain));
}
