use ixc_schema::any::AnyMessage;
use ixc_schema::dynamic::{default_for_kind, default_value};
use ixc_schema::kind::Kind;
use ixc_schema::value::{FieldType, DynamicValue, ValueType, VariantType};

fn is_u32_zero(v: &DynamicValue) -> bool {
    matches!(v, DynamicValue::U32(0))
}

#[test]
fn defaults_by_kind() {
    assert!(matches!(default_for_kind(Kind::Uint32, None), Ok(DynamicValue::U32(0))));
    assert!(matches!(default_for_kind(Kind::String, None), Ok(DynamicValue::Str(ref s)) if s.is_empty()));
    assert!(matches!(default_for_kind(Kind::Bool, None), Ok(DynamicValue::Bool(false))));
    assert!(default_for_kind(Kind::List, None).is_err());
    assert!(matches!(default_for_kind(Kind::AnyMessage, None), Ok(DynamicValue::AnyMessage(AnyMessage::Empty))));
    assert!(default_for_kind(Kind::Struct, None).is_err());
    assert!(default_for_kind(Kind::Struct, Some(&ValueType::U8)).is_err());
    let e = ValueType::Enum(vec![VariantType { name: "A".to_string(), discriminant: 0, payload: None }]);
    assert!(matches!(default_for_kind(Kind::Enum, Some(&e)), Ok(DynamicValue::Enum(0, None))));
}

#[test]
fn default_struct_holds_field_defaults() {
    let t = ValueType::Struct(vec![
        FieldType { name: "a".to_string(), ty: ValueType::U32 },
        FieldType { name: "b".to_string(), ty: ValueType::List(Box::new(ValueType::U8)) },
        FieldType { name: "c".to_string(), ty: ValueType::Nullable(Box::new(ValueType::Str)) },
    ]);
    match default_value(&t) {
        DynamicValue::Struct(fs) => {
            assert_eq!(fs.len(), 3);
            assert!(is_u32_zero(&fs[0]));
            assert!(matches!(&fs[1], DynamicValue::List(xs) if xs.is_empty()));
            assert!(matches!(&fs[2], DynamicValue::Nullable(None)));
        }
        _ => panic!("expected a struct"),
    }
    match default_for_kind(Kind::Struct, Some(&t)) {
        Ok(DynamicValue::Struct(fs)) => assert_eq!(fs.len(), 3),
        _ => panic!("expected a struct"),
    }
}
