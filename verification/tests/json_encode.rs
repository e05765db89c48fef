use ixc_schema::errors::EncodeError;
use ixc_schema::json::account_id::DefaultAccountIDStringCodec;
use ixc_schema::json::encoder::{encode_value, JSONCodec};
use ixc_schema::value::{FieldType, DynamicValue, ValueType, VariantType};

fn json(v: &DynamicValue, t: &ValueType) -> Result<String, EncodeError> {
    let mut out = Vec::new();
    encode_value(v, t, &mut out)?;
    Ok(String::from_utf8(out).unwrap())
}

fn field(name: &str, ty: ValueType) -> FieldType {
    FieldType { name: name.to_string(), ty }
}

#[test]
fn scalars() {
    assert_eq!(json(&DynamicValue::U8(7), &ValueType::U8).unwrap(), "7");
    assert_eq!(json(&DynamicValue::U32(4000000000), &ValueType::U32).unwrap(), "4000000000");
    assert_eq!(json(&DynamicValue::U64(10), &ValueType::U64).unwrap(), "\"10\"");
    assert_eq!(json(&DynamicValue::U128(u128::MAX), &ValueType::U128).unwrap(), format!("\"{}\"", u128::MAX));
    assert_eq!(json(&DynamicValue::I8(-128), &ValueType::I8).unwrap(), "-128");
    assert_eq!(json(&DynamicValue::I32(-5), &ValueType::I32).unwrap(), "-5");
    assert_eq!(json(&DynamicValue::I64(-9), &ValueType::I64).unwrap(), "\"-9\"");
    assert_eq!(json(&DynamicValue::I128(i128::MIN), &ValueType::I128).unwrap(), format!("\"{}\"", i128::MIN));
    assert_eq!(json(&DynamicValue::Bool(true), &ValueType::Bool).unwrap(), "true");
    assert_eq!(json(&DynamicValue::Bool(false), &ValueType::Bool).unwrap(), "false");
    assert_eq!(json(&DynamicValue::Str("a\"b\n".to_string()), &ValueType::Str).unwrap(), "\"a\\\"b\\n\"");
    assert_eq!(json(&DynamicValue::Bytes(vec![1, 2, 3]), &ValueType::Bytes).unwrap(), "\"AQID\"");
    assert_eq!(json(&DynamicValue::Bytes(vec![0xff]), &ValueType::Bytes).unwrap(), "\"/w==\"");
    assert_eq!(json(&DynamicValue::AccountID(12345), &ValueType::AccountID).unwrap(), "\"12345\"");
    assert_eq!(json(&DynamicValue::Nullable(None), &ValueType::Nullable(Box::new(ValueType::U8))).unwrap(), "null");
    assert_eq!(
        json(&DynamicValue::Nullable(Some(Box::new(DynamicValue::U8(3)))), &ValueType::Nullable(Box::new(ValueType::U8))).unwrap(),
        "3"
    );
}

#[test]
fn mismatched_type_is_an_error() {
    assert_eq!(json(&DynamicValue::U8(7), &ValueType::U16), Err(EncodeError::UnknownError));
}

#[test]
fn structs_leave_out_default_fields() {
    let t = ValueType::Struct(vec![
        field("a", ValueType::U32),
        field("b", ValueType::Str),
        field("c", ValueType::List(Box::new(ValueType::U8))),
        field("d", ValueType::Struct(vec![field("x", ValueType::U32)])),
        field("e", ValueType::Bool),
    ]);
    let v = DynamicValue::Struct(vec![
        DynamicValue::U32(0),
        DynamicValue::Str("hi".to_string()),
        DynamicValue::List(vec![]),
        DynamicValue::Struct(vec![DynamicValue::U32(0)]),
        DynamicValue::Bool(true),
    ]);
    assert_eq!(json(&v, &t).unwrap(), "{\"b\":\"hi\",\"e\":true}");
    let v2 = DynamicValue::Struct(vec![
        DynamicValue::U32(1),
        DynamicValue::Str(String::new()),
        DynamicValue::List(vec![DynamicValue::U8(1), DynamicValue::U8(2)]),
        DynamicValue::Struct(vec![DynamicValue::U32(9)]),
        DynamicValue::Bool(false),
    ]);
    assert_eq!(json(&v2, &t).unwrap(), "{\"a\":1,\"c\":[1,2],\"d\":{\"x\":9}}");
    let empty = DynamicValue::Struct(vec![DynamicValue::U32(0), DynamicValue::Str(String::new()), DynamicValue::List(vec![]), DynamicValue::Struct(vec![DynamicValue::U32(0)]), DynamicValue::Bool(false)]);
    assert_eq!(json(&empty, &t).unwrap(), "{}");
}

#[test]
fn lists_write_every_element() {
    let t = ValueType::List(Box::new(ValueType::Struct(vec![field("x", ValueType::U8)])));
    let v = DynamicValue::List(vec![DynamicValue::Struct(vec![DynamicValue::U8(0)]), DynamicValue::Struct(vec![DynamicValue::U8(2)])]);
    assert_eq!(json(&v, &t).unwrap(), "[{},{\"x\":2}]");
}

#[test]
fn enums() {
    let t = ValueType::Enum(vec![
        VariantType { name: "None".to_string(), discriminant: 0, payload: None },
        VariantType { name: "Some".to_string(), discriminant: 1, payload: Some(ValueType::U64) },
    ]);
    assert_eq!(json(&DynamicValue::Enum(0, None), &t).unwrap(), "\"None\"");
    assert_eq!(
        json(&DynamicValue::Enum(1, Some(Box::new(DynamicValue::U64(5)))), &t).unwrap(),
        "{\"type\":\"Some\",\"value\":\"5\"}"
    );
    assert_eq!(json(&DynamicValue::Enum(7, None), &t), Err(EncodeError::UnknownError));
    let st = ValueType::Struct(vec![field("e", t)]);
    assert_eq!(json(&DynamicValue::Struct(vec![DynamicValue::Enum(0, None)]), &st).unwrap(), "{}");
    assert_eq!(json(&DynamicValue::Struct(vec![DynamicValue::Enum(1, Some(Box::new(DynamicValue::U64(0))))]), &st).unwrap(), "{\"e\":{\"type\":\"Some\",\"value\":\"0\"}}");
}

#[test]
fn codec_encodes_like_encode_value() {
    let codec = JSONCodec::new(&DefaultAccountIDStringCodec);
    let mut out = Vec::new();
    codec.encode_value(&DynamicValue::U16(300), &ValueType::U16, &mut out).unwrap();
    assert_eq!(out, b"300".to_vec());
}
