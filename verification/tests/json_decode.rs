use ixc_schema::errors::DecodeError;
use ixc_schema::json::decoder::{decode_json, decode_value, try_decode_value, JsonValue};
use ixc_schema::value::{FieldType, DynamicValue, ValueType, VariantType};

fn num(u: Option<u64>, i: Option<i64>) -> JsonValue {
    JsonValue::Number { as_u64: u, as_i64: i }
}

fn s(x: &str) -> JsonValue {
    JsonValue::String(x.to_string())
}

#[test]
fn small_numbers_come_from_json_numbers() {
    assert!(matches!(decode_json(&num(Some(255), Some(255)), &ValueType::U8), Ok(DynamicValue::U8(255))));
    assert_eq!(decode_json(&num(Some(256), Some(256)), &ValueType::U8).err(), Some(DecodeError::InvalidData));
    assert!(matches!(decode_json(&num(None, Some(-5)), &ValueType::I16), Ok(DynamicValue::I16(-5))));
    assert_eq!(decode_json(&num(None, None), &ValueType::U32).err(), Some(DecodeError::InvalidData));
    assert_eq!(decode_json(&s("7"), &ValueType::U32).err(), Some(DecodeError::InvalidData));
}

#[test]
fn wide_numbers_come_from_strings() {
    assert!(matches!(decode_json(&s("18446744073709551615"), &ValueType::U64), Ok(DynamicValue::U64(u64::MAX))));
    assert_eq!(decode_json(&s("18446744073709551616"), &ValueType::U64).err(), Some(DecodeError::InvalidData));
    assert!(matches!(decode_json(&s("+12"), &ValueType::U128), Ok(DynamicValue::U128(12))));
    assert_eq!(decode_json(&s("-1"), &ValueType::U128).err(), Some(DecodeError::InvalidData));
    assert!(matches!(decode_json(&s("-170141183460469231731687303715884105728"), &ValueType::I128), Ok(DynamicValue::I128(i128::MIN))));
    assert!(matches!(decode_json(&s("-9"), &ValueType::I64), Ok(DynamicValue::I64(-9))));
    assert_eq!(decode_json(&s("1x"), &ValueType::I64).err(), Some(DecodeError::InvalidData));
    assert_eq!(decode_json(&num(Some(1), Some(1)), &ValueType::U64).err(), Some(DecodeError::InvalidData));
    assert!(matches!(decode_json(&s("12345"), &ValueType::AccountID), Ok(DynamicValue::AccountID(12345))));
}

#[test]
fn strings_bytes_bools() {
    assert!(matches!(decode_json(&s("hi"), &ValueType::Str), Ok(DynamicValue::Str(ref x)) if x == "hi"));
    assert!(matches!(decode_json(&s("AQID"), &ValueType::Bytes), Ok(DynamicValue::Bytes(ref b)) if b == &vec![1u8, 2, 3]));
    assert_eq!(decode_json(&s("!!"), &ValueType::Bytes).err(), Some(DecodeError::InvalidData));
    assert!(matches!(decode_json(&JsonValue::Bool(true), &ValueType::Bool), Ok(DynamicValue::Bool(true))));
    assert_eq!(decode_json(&JsonValue::Null, &ValueType::Bool).err(), Some(DecodeError::InvalidData));
}

fn point_type() -> ValueType {
    ValueType::Struct(vec![
        FieldType { name: "x".to_string(), ty: ValueType::U32 },
        FieldType { name: "label".to_string(), ty: ValueType::Str },
    ])
}

#[test]
fn structs_fill_missing_fields_with_defaults() {
    let j = JsonValue::Object(vec![("x".to_string(), num(Some(3), Some(3)))]);
    match decode_json(&j, &point_type()) {
        Ok(DynamicValue::Struct(fs)) => {
            assert!(matches!(fs[0], DynamicValue::U32(3)));
            assert!(matches!(fs[1], DynamicValue::Str(ref t) if t.is_empty()));
        }
        _ => panic!("expected a struct"),
    }
    let unknown = JsonValue::Object(vec![("y".to_string(), num(Some(3), Some(3)))]);
    assert_eq!(decode_json(&unknown, &point_type()).err(), Some(DecodeError::UnknownField));
    assert_eq!(decode_json(&JsonValue::Array(vec![]), &point_type()).err(), Some(DecodeError::InvalidData));
}

#[test]
fn lists_and_nullables() {
    let t = ValueType::List(Box::new(ValueType::Nullable(Box::new(ValueType::U8))));
    let j = JsonValue::Array(vec![num(Some(1), Some(1)), JsonValue::Null]);
    match decode_json(&j, &t) {
        Ok(DynamicValue::List(xs)) => {
            assert_eq!(xs.len(), 2);
            assert!(matches!(&xs[0], DynamicValue::Nullable(Some(b)) if matches!(**b, DynamicValue::U8(1))));
            assert!(matches!(&xs[1], DynamicValue::Nullable(None)));
        }
        _ => panic!("expected a list"),
    }
    let bad = JsonValue::Array(vec![num(Some(1), Some(1)), s("x")]);
    assert_eq!(decode_json(&bad, &t).err(), Some(DecodeError::InvalidData));
}

fn option_type() -> ValueType {
    ValueType::Enum(vec![
        VariantType { name: "None".to_string(), discriminant: 0, payload: None },
        VariantType { name: "Some".to_string(), discriminant: 1, payload: Some(ValueType::U64) },
    ])
}

#[test]
fn enums_by_name_or_object() {
    assert!(matches!(decode_json(&s("None"), &option_type()), Ok(DynamicValue::Enum(0, None))));
    let obj = JsonValue::Object(vec![("type".to_string(), s("Some")), ("value".to_string(), s("5"))]);
    match decode_json(&obj, &option_type()) {
        Ok(DynamicValue::Enum(1, Some(b))) => assert!(matches!(*b, DynamicValue::U64(5))),
        _ => panic!("expected Some(5)"),
    }
    assert_eq!(decode_json(&s("Some"), &option_type()).err(), Some(DecodeError::InvalidData));
    assert_eq!(decode_json(&s("Other"), &option_type()).err(), Some(DecodeError::InvalidData));
    let no_value = JsonValue::Object(vec![("type".to_string(), s("None"))]);
    assert_eq!(decode_json(&no_value, &option_type()).err(), Some(DecodeError::InvalidData));
    let ignored = JsonValue::Object(vec![("type".to_string(), s("None")), ("value".to_string(), JsonValue::Null)]);
    assert!(matches!(decode_json(&ignored, &option_type()), Ok(DynamicValue::Enum(0, None))));
}

#[test]
fn json_text_is_parsed_then_decoded() {
    let r = decode_value("{\"x\": 3}", &point_type());
    assert!(matches!(r, Ok(DynamicValue::Struct(ref xs)) if matches!(xs.as_slice(), [DynamicValue::U32(3), DynamicValue::Str(ref l)] if l.is_empty())));
    assert!(matches!(decode_value("[1, 2]", &ValueType::List(Box::new(ValueType::U16))), Ok(DynamicValue::List(ref xs)) if matches!(xs.as_slice(), [DynamicValue::U16(1), DynamicValue::U16(2)])));
    assert!(matches!(decode_value(" \"AQID\" ", &ValueType::Bytes), Ok(DynamicValue::Bytes(ref b)) if b == &vec![1u8, 2, 3]));
}

#[test]
fn text_that_is_not_json_is_invalid_data() {
    assert_eq!(decode_value("{\"x\": ", &point_type()).err(), Some(DecodeError::InvalidData));
    assert_eq!(decode_value("tru", &ValueType::Bool).err(), Some(DecodeError::InvalidData));
    assert!(matches!(try_decode_value("", &ValueType::Time), Some(Err(DecodeError::InvalidData))));
}

#[test]
fn json_text_reaching_a_time_has_no_outcome() {
    assert!(try_decode_value("5", &ValueType::Time).is_none());
    assert!(matches!(try_decode_value("null", &ValueType::Nullable(Box::new(ValueType::Time))), Some(Ok(DynamicValue::Nullable(None)))));
}

#[test]
fn bytes_need_canonical_padded_base64() {
    assert!(matches!(decode_json(&s("AQ=="), &ValueType::Bytes), Ok(DynamicValue::Bytes(ref b)) if b == &vec![1u8]));
    assert_eq!(decode_json(&s("AR=="), &ValueType::Bytes).err(), Some(DecodeError::InvalidData));
    assert_eq!(decode_json(&s("AQ"), &ValueType::Bytes).err(), Some(DecodeError::InvalidData));
    assert!(matches!(decode_json(&s(""), &ValueType::Bytes), Ok(DynamicValue::Bytes(ref b)) if b.is_empty()));
}
