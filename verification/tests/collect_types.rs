use ixc_schema::collect::{collect_types, schema_type_eq};
use ixc_schema::enums::{EnumType, EnumVariantDefinition};
use ixc_schema::field::Field;
use ixc_schema::handler::{type_map_from_schema, HandlerSchema};
use ixc_schema::kind::Kind;
use ixc_schema::schema::SchemaType;
use ixc_schema::structs::StructType;
use ixc_schema::types::{to_field, HasType, ListT};

fn field(name: &'static str, kind: Kind) -> Field<'static> {
    Field::new(name, kind, false, None, None)
}

fn coin(amount_kind: Kind) -> SchemaType<'static> {
    let fields: &'static [Field<'static>] = Box::leak(vec![field("denom", Kind::String), field("amount", amount_kind)].into_boxed_slice());
    SchemaType::Struct(StructType::new("Coin", fields, true, 7))
}

fn color() -> SchemaType<'static> {
    let variants: &'static [EnumVariantDefinition<'static>] =
        Box::leak(vec![EnumVariantDefinition::new("Red", 0, None), EnumVariantDefinition::new("Blue", 1, None)].into_boxed_slice());
    SchemaType::Enum(EnumType { name: "Color", variants, numeric_kind: Kind::Int32, sealed: true })
}

#[test]
fn same_types_are_kept_once() {
    let r = collect_types(&vec![coin(Kind::UInt128), color(), coin(Kind::UInt128)]).unwrap();
    assert_eq!(r.len(), 2);
    assert_eq!(r[0].name(), "Coin");
    assert_eq!(r[1].name(), "Color");
}

#[test]
fn conflicting_types_are_reported_by_name() {
    let r = collect_types(&vec![coin(Kind::UInt128), color(), coin(Kind::Uint64), coin(Kind::Int8)]);
    assert_eq!(r.err(), Some(vec!["Coin", "Coin"]));
}

#[test]
fn schema_type_equality_is_structural() {
    assert!(schema_type_eq(&coin(Kind::UInt128), &coin(Kind::UInt128)));
    assert!(!schema_type_eq(&coin(Kind::UInt128), &coin(Kind::Uint64)));
    assert!(!schema_type_eq(&coin(Kind::UInt128), &color()));
    assert!(schema_type_eq(&SchemaType::Invalid, &SchemaType::Invalid));
}

#[test]
fn type_maps_find_types_by_name_and_selector() {
    let schema = HandlerSchema { id: "bank", types: vec![coin(Kind::UInt128), color()], messages: vec![], clients: vec![] };
    let map = type_map_from_schema(&schema);
    assert_eq!(map.type_named("Color").map(|t| t.name()), Some("Color"));
    assert_eq!(map.type_named("Coin").map(|t| t.name()), Some("Coin"));
    assert!(map.type_named("Missing").is_none());
    assert_eq!(map.struct_with_selector(7).map(|s| s.name), Some("Coin"));
    assert!(map.struct_with_selector(8).is_none());
}

#[test]
fn fields_of_types_carry_element_kind_and_reference() {
    let f = to_field::<ListT<u32>>();
    assert_eq!(f.name, "");
    assert_eq!(f.kind, Kind::List);
    assert_eq!(f.element_kind, Some(Kind::Uint32));
    assert_eq!(f.referenced_type, None);
    let g = to_field::<Option<bool>>();
    assert!(g.nullable);
    assert_eq!(g.kind, Kind::Bool);
}

#[test]
fn rust_types_name_their_schema_types() {
    let f = to_field::<<u16 as HasType>::Type>();
    assert_eq!(f.kind, Kind::Uint16);
    assert!(!f.nullable);
    let g = to_field::<<Option<String> as HasType>::Type>();
    assert_eq!(g.kind, Kind::String);
    assert!(g.nullable);
    assert_eq!(to_field::<<Vec<u8> as HasType>::Type>().kind, Kind::Bytes);
    assert_eq!(to_field::<<u128 as HasType>::Type>().kind, Kind::UInt128);
}
