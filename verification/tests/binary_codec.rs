use ixc_schema::codec::{decode_dynamic, decode_value, encode_value, EncodeSizer, NativeBinaryCodec};
use ixc_schema::errors::DecodeError;
use ixc_schema::mem::MemoryManager;
use ixc_schema::value::{FieldType, DynamicValue, ValueType, VariantType};

#[test]
fn test_u32_decode() {
    let buf: [u8; 4] = [10, 0, 0, 0];
    let mem = MemoryManager::new();
    let x = decode_value::<u32>(&NativeBinaryCodec, &buf, &mem).unwrap();
    assert_eq!(x, 10);
}

#[test]
fn test_u8_decode() {
    let buf: [u8; 1] = [255];
    let mem = MemoryManager::new();
    let x = decode_value::<u8>(&NativeBinaryCodec, &buf, &mem).unwrap();
    assert_eq!(x, 255);
}

#[test]
fn test_u16_decode() {
    let buf: [u8; 2] = [232, 3];
    let mem = MemoryManager::new();
    let x = decode_value::<u16>(&NativeBinaryCodec, &buf, &mem).unwrap();
    assert_eq!(x, 1000);
}

#[test]
fn test_u64_decode() {
    let buf: [u8; 8] = [64, 66, 15, 0, 0, 0, 0, 0];
    let mem = MemoryManager::new();
    let x = decode_value::<u64>(&NativeBinaryCodec, &buf, &mem).unwrap();
    assert_eq!(x, 1000000);
}

#[test]
fn test_u128_decode() {
    let buf: [u8; 16] = [255; 16];
    let mem = MemoryManager::new();
    let x = decode_value::<u128>(&NativeBinaryCodec, &buf, &mem).unwrap();
    assert_eq!(x, u128::MAX);
}

#[test]
fn test_i8_decode() {
    let buf: [u8; 1] = [128];
    let mem = MemoryManager::new();
    let x = decode_value::<i8>(&NativeBinaryCodec, &buf, &mem).unwrap();
    assert_eq!(x, -128);
}

#[test]
fn test_i16_decode() {
    let buf: [u8; 2] = [24, 252];
    let mem = MemoryManager::new();
    let x = decode_value::<i16>(&NativeBinaryCodec, &buf, &mem).unwrap();
    assert_eq!(x, -1000);
}

#[test]
fn test_i32_decode() {
    let buf: [u8; 4] = [192, 189, 240, 255];
    let mem = MemoryManager::new();
    let x = decode_value::<i32>(&NativeBinaryCodec, &buf, &mem).unwrap();
    assert_eq!(x, -1000000);
}

#[test]
fn test_i64_decode() {
    let buf: [u8; 8] = [192, 189, 240, 255, 255, 255, 255, 255];
    let mem = MemoryManager::new();
    let x = decode_value::<i64>(&NativeBinaryCodec, &buf, &mem).unwrap();
    assert_eq!(x, -1000000);
}

#[test]
fn test_i128_decode() {
    let mut buf = [0u8; 16];
    buf[15] = 128;
    let mem = MemoryManager::new();
    let x = decode_value::<i128>(&NativeBinaryCodec, &buf, &mem).unwrap();
    assert_eq!(x, i128::MIN);
}

#[test]
fn test_decode_borrowed_string() {
    let str = "hello";
    let mem = MemoryManager::new();
    let x = decode_value::<&str>(&NativeBinaryCodec, str.as_bytes(), &mem).unwrap();
    assert_eq!(x, "hello");
}

#[test]
fn test_decode_owned_string() {
    let str = "hello";
    let mem = MemoryManager::new();
    let x = decode_value::<String>(&NativeBinaryCodec, str.as_bytes(), &mem).unwrap();
    assert_eq!(x, "hello");
}

#[test]
fn test_bool_decode() {
    let mem = MemoryManager::new();
    let true_val = decode_value::<bool>(&NativeBinaryCodec, &[1], &mem).unwrap();
    assert!(true_val);
    let false_val = decode_value::<bool>(&NativeBinaryCodec, &[0], &mem).unwrap();
    assert!(!false_val);
}

#[test]
fn test_decode_errors() {
    let mem = MemoryManager::new();
    let result = decode_value::<u32>(&NativeBinaryCodec, &[1, 2], &mem);
    assert!(matches!(result, Err(DecodeError::OutOfData)));
    let result = decode_value::<&str>(&NativeBinaryCodec, &[0xFF, 0xFF], &mem);
    assert!(matches!(result, Err(DecodeError::InvalidData)));
}

#[test]
fn test_u32_size() {
    let mut sizer = EncodeSizer { size: 0 };
    sizer.encode_u32(10).unwrap();
    assert_eq!(sizer.size, 4);
}

#[test]
fn test_sizes() {
    let mut sizer = EncodeSizer { size: 0 };

    sizer.encode_u8(0).unwrap();
    assert_eq!(sizer.size, 1);

    sizer.size = 0;
    sizer.encode_u16(0).unwrap();
    assert_eq!(sizer.size, 2);

    sizer.size = 0;
    sizer.encode_u32(0).unwrap();
    assert_eq!(sizer.size, 4);

    sizer.size = 0;
    sizer.encode_u64(0).unwrap();
    assert_eq!(sizer.size, 8);

    sizer.size = 0;
    sizer.encode_u128(0).unwrap();
    assert_eq!(sizer.size, 16);

    sizer.size = 0;
    sizer.encode_str("hello").unwrap();
    assert_eq!(sizer.size, 5);

    sizer.size = 0;
    sizer.encode_bool(true).unwrap();
    assert_eq!(sizer.size, 1);
}

#[test]
fn test_u8_encode() {
    assert_eq!(encode_value(&DynamicValue::U8(255)), vec![255]);
}

#[test]
fn test_u16_encode() {
    assert_eq!(encode_value(&DynamicValue::U16(1000)), vec![232, 3]);
}

#[test]
fn test_u32_encode() {
    assert_eq!(encode_value(&DynamicValue::U32(10)), vec![10, 0, 0, 0]);
}

#[test]
fn test_u64_encode() {
    assert_eq!(encode_value(&DynamicValue::U64(1000000)), vec![64, 66, 15, 0, 0, 0, 0, 0]);
}

#[test]
fn test_u128_encode() {
    let x = 340282366920938463463374607431768211455u128;
    assert_eq!(encode_value(&DynamicValue::U128(x)), vec![255; 16]);
}

#[test]
fn test_i8_encode() {
    assert_eq!(encode_value(&DynamicValue::I8(-128)), vec![128]);
}

#[test]
fn test_i16_encode() {
    assert_eq!(encode_value(&DynamicValue::I16(-1000)), vec![24, 252]);
}

#[test]
fn test_i32_encode() {
    assert_eq!(encode_value(&DynamicValue::I32(-1000000)), vec![192, 189, 240, 255]);
}

#[test]
fn test_i64_encode() {
    assert_eq!(
        encode_value(&DynamicValue::I64(-1000000)),
        vec![192, 189, 240, 255, 255, 255, 255, 255]
    );
}

#[test]
fn test_i128_encode() {
    let x = -170141183460469231731687303715884105728i128;
    let mut expected = vec![0u8; 16];
    expected[15] = 128;
    assert_eq!(encode_value(&DynamicValue::I128(x)), expected);
}

#[test]
fn test_str_encode() {
    assert_eq!(encode_value(&DynamicValue::Str("hello".to_string())), b"hello".to_vec());
}

#[test]
fn test_bytes_encode() {
    assert_eq!(encode_value(&DynamicValue::Bytes(vec![1, 2, 3, 4, 5])), vec![1, 2, 3, 4, 5]);
}

#[test]
fn test_bool_encode() {
    assert_eq!(encode_value(&DynamicValue::Bool(true)), vec![1]);
    assert_eq!(encode_value(&DynamicValue::Bool(false)), vec![0]);
}

#[test]
fn test_account_id_encode() {
    let mut expected = vec![0u8; 16];
    expected[0] = 57;
    expected[1] = 48;
    assert_eq!(encode_value(&DynamicValue::AccountID(12345)), expected);
}

#[test]
fn test_time_encode() {
    assert_eq!(encode_value(&DynamicValue::Time(1000000000)).len(), 16);
}

#[test]
fn test_duration_encode() {
    assert_eq!(encode_value(&DynamicValue::Duration(5000000000)).len(), 16);
}

#[test]
fn test_option_encode() {
    let some = DynamicValue::Nullable(Some(Box::new(DynamicValue::U32(42))));
    assert_eq!(encode_value(&some), vec![42, 0, 0, 0]);
    let none = DynamicValue::Nullable(None);
    assert_eq!(encode_value(&none), Vec::<u8>::new());
}

#[test]
fn test_list_encode() {
    let x = DynamicValue::Bytes(vec![1, 2, 3]);
    assert_eq!(encode_value(&x), vec![1, 2, 3]);
}

#[test]
fn test_time_decode() {
    let nanos = 1_000_000_000i128;
    let buf = nanos.to_le_bytes();
    match decode_dynamic(&ValueType::Time, &buf).unwrap() {
        DynamicValue::Time(t) => assert_eq!(t, nanos),
        _ => panic!("expected a time"),
    }
}

#[test]
fn test_duration_decode() {
    let nanos = 1_000_000_000i128;
    let buf = nanos.to_le_bytes();
    match decode_dynamic(&ValueType::Duration, &buf).unwrap() {
        DynamicValue::Duration(t) => assert_eq!(t, nanos),
        _ => panic!("expected a duration"),
    }
}

#[test]
fn test_account_id_decode() {
    let id = 12345u128;
    let buf = id.to_le_bytes();
    match decode_dynamic(&ValueType::AccountID, &buf).unwrap() {
        DynamicValue::AccountID(a) => assert_eq!(a, id),
        _ => panic!("expected an account id"),
    }
}

fn coin_type() -> ValueType {
    ValueType::Struct(vec![
        FieldType { name: "denom".to_string(), ty: ValueType::Str },
        FieldType { name: "amount".to_string(), ty: ValueType::U128 },
    ])
}

fn coin(denom: &str, amount: u128) -> DynamicValue {
    DynamicValue::Struct(vec![DynamicValue::Str(denom.to_string()), DynamicValue::U128(amount)])
}

fn expect_coin(v: &DynamicValue, denom: &str, amount: u128) {
    match v {
        DynamicValue::Struct(fields) => {
            assert_eq!(fields.len(), 2);
            match (&fields[0], &fields[1]) {
                (DynamicValue::Str(d), DynamicValue::U128(a)) => {
                    assert_eq!(d, denom);
                    assert_eq!(*a, amount);
                }
                _ => panic!("unexpected coin fields"),
            }
        }
        _ => panic!("expected a struct"),
    }
}

#[test]
fn test_coin() {
    let value = coin("uatom", 1234567890);
    let bz = encode_value(&value);
    let decoded = decode_dynamic(&coin_type(), &bz).unwrap();
    expect_coin(&decoded, "uatom", 1234567890);
}

#[test]
fn test_coins() {
    let value = DynamicValue::List(vec![coin("uatom", 1234567890), coin("foo", 9876543210)]);
    let bz = encode_value(&value);
    let t = ValueType::List(Box::new(coin_type()));
    match decode_dynamic(&t, &bz).unwrap() {
        DynamicValue::List(xs) => {
            assert_eq!(xs.len(), 2);
            expect_coin(&xs[0], "uatom", 1234567890);
            expect_coin(&xs[1], "foo", 9876543210);
        }
        _ => panic!("expected a list"),
    }
}

#[test]
fn test_vec_decode() {
    let value = DynamicValue::Bytes(vec![1, 2, 3]);
    let bz = encode_value(&value);
    let decoded = decode_value::<Vec<u8>>(&NativeBinaryCodec, &bz, &MemoryManager::new()).unwrap();
    assert_eq!(decoded, vec![1, 2, 3]);
}

#[test]
fn test_option_decode() {
    let t = ValueType::Nullable(Box::new(ValueType::U32));
    let bz = encode_value(&DynamicValue::Nullable(Some(Box::new(DynamicValue::U32(42)))));
    match decode_dynamic(&t, &bz).unwrap() {
        DynamicValue::Nullable(Some(b)) => match *b {
            DynamicValue::U32(x) => assert_eq!(x, 42),
            _ => panic!("expected u32"),
        },
        _ => panic!("expected Some"),
    }
    let bz = encode_value(&DynamicValue::Nullable(None));
    assert!(matches!(decode_dynamic(&t, &bz).unwrap(), DynamicValue::Nullable(None)));
}

#[test]
fn test_struct_decode() {
    let t = ValueType::Struct(vec![
        FieldType { name: "field_str".to_string(), ty: ValueType::Str },
        FieldType { name: "field_u64".to_string(), ty: ValueType::U64 },
        FieldType { name: "field_vec".to_string(), ty: ValueType::Bytes },
        FieldType { name: "field_opt".to_string(), ty: ValueType::Nullable(Box::new(ValueType::U32)) },
    ]);
    let value = DynamicValue::Struct(vec![
        DynamicValue::Str("test".to_string()),
        DynamicValue::U64(12345),
        DynamicValue::Bytes(vec![1, 2, 3]),
        DynamicValue::Nullable(Some(Box::new(DynamicValue::U32(42)))),
    ]);
    let bz = encode_value(&value);
    match decode_dynamic(&t, &bz).unwrap() {
        DynamicValue::Struct(fs) => {
            assert!(matches!(&fs[0], DynamicValue::Str(s) if s == "test"));
            assert!(matches!(&fs[1], DynamicValue::U64(12345)));
            assert!(matches!(&fs[2], DynamicValue::Bytes(b) if *b == vec![1, 2, 3]));
            match &fs[3] {
                DynamicValue::Nullable(Some(b)) => assert!(matches!(**b, DynamicValue::U32(42))),
                _ => panic!("expected Some"),
            }
        }
        _ => panic!("expected a struct"),
    }
}

#[test]
fn struct_inner_layout_is_length_prefixed() {
    // a string field inside a struct carries its length; a nested struct its encoded size
    let value = DynamicValue::Struct(vec![DynamicValue::Str("ab".to_string()), DynamicValue::Bool(true)]);
    assert_eq!(encode_value(&value), vec![2, 0, 0, 0, b'a', b'b', 1]);
    let outer = DynamicValue::Struct(vec![value]);
    assert_eq!(encode_value(&outer), vec![7, 0, 0, 0, 2, 0, 0, 0, b'a', b'b', 1]);
}

#[test]
fn list_layout_has_count_first() {
    let value = DynamicValue::List(vec![DynamicValue::U8(7), DynamicValue::U8(9)]);
    assert_eq!(encode_value(&value), vec![2, 0, 0, 0, 7, 9]);
}

#[test]
fn enum_roundtrip_and_unknown_variant() {
    let t = ValueType::Enum(vec![
        VariantType { name: "A".to_string(), discriminant: 0, payload: None },
        VariantType { name: "X".to_string(), discriminant: 10, payload: Some(ValueType::U8) },
    ]);
    let v = DynamicValue::Enum(10, Some(Box::new(DynamicValue::U8(5))));
    let bz = encode_value(&v);
    assert_eq!(bz, vec![10, 0, 0, 0, 5]);
    match decode_dynamic(&t, &bz).unwrap() {
        DynamicValue::Enum(10, Some(b)) => assert!(matches!(*b, DynamicValue::U8(5))),
        _ => panic!("expected variant X"),
    }
    assert!(matches!(decode_dynamic(&t, &[3, 0, 0, 0]), Err(DecodeError::UnknownField)));
}

#[test]
fn nested_string_out_of_data() {
    let t = ValueType::Struct(vec![FieldType { name: "s".to_string(), ty: ValueType::Str }]);
    assert!(matches!(decode_dynamic(&t, &[5, 0, 0, 0, b'a']), Err(DecodeError::OutOfData)));
}

#[test]
fn top_level_some_empty_string_decodes_as_none() {
    // the nullable value whose inner encoding is empty is where the round trip fails
    let t = ValueType::Nullable(Box::new(ValueType::Str));
    let bz = encode_value(&DynamicValue::Nullable(Some(Box::new(DynamicValue::Str(String::new())))));
    assert!(bz.is_empty());
    assert!(matches!(decode_dynamic(&t, &bz).unwrap(), DynamicValue::Nullable(None)));
}

#[test]
fn sizer_counts_whole_values() {
    let value = DynamicValue::List(vec![coin("uatom", 1), coin("foo", 2)]);
    let mut sizer = EncodeSizer { size: 0 };
    sizer.encode_value(&value).unwrap();
    assert_eq!(sizer.size, encode_value(&value).len());
}

