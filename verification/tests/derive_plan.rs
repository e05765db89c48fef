use blake2::Digest;
use ixc_schema::derive_plan::{
    enum_repr, is_sealed, lifetime_names, plan_variants, type_selector_from_str, DeriveError, DiscriminantExpr,
    NumericRepr, VariantFields, VariantPlan, VariantShape,
};

#[test]
fn sealed_or_non_exhaustive() {
    assert_eq!(is_sealed(true, false), Ok(true));
    assert_eq!(is_sealed(false, true), Ok(false));
    assert_eq!(is_sealed(false, false), Err(DeriveError::MissingSealedOrNonExhaustive));
    assert_eq!(is_sealed(true, true), Err(DeriveError::SealedAndNonExhaustive));
}

#[test]
fn lifetimes() {
    assert_eq!(lifetime_names(&vec![]), Ok(("a".to_string(), "b".to_string())));
    assert_eq!(lifetime_names(&vec!["b".to_string()]), Ok(("b".to_string(), "c".to_string())));
    assert_eq!(lifetime_names(&vec!["x".to_string()]), Ok(("x".to_string(), "b".to_string())));
    assert_eq!(lifetime_names(&vec!["a".to_string(), "b".to_string()]), Err(DeriveError::TooManyLifetimes));
}

#[test]
fn reprs() {
    assert_eq!(enum_repr(&vec![]), Ok(NumericRepr::I32));
    assert_eq!(enum_repr(&vec!["u8".to_string()]), Ok(NumericRepr::U8));
    assert_eq!(enum_repr(&vec!["u8".to_string(), "i16".to_string()]), Ok(NumericRepr::I16));
    assert_eq!(enum_repr(&vec!["u64".to_string(), "u8".to_string()]), Err(DeriveError::UnsupportedRepr("u64".to_string())));
}

fn shape(name: &str, fields: VariantFields, d: Option<DiscriminantExpr>) -> VariantShape {
    VariantShape { name: name.to_string(), fields, discriminant: d }
}

fn plan(name: &str, d: i32, v: bool) -> VariantPlan {
    VariantPlan { name: name.to_string(), discriminant: d, has_value: v }
}

#[test]
fn variant_discriminants() {
    let vs = vec![
        shape("A", VariantFields::Unit, None),
        shape("B", VariantFields::Unnamed(1), None),
        shape("C", VariantFields::Unit, Some(DiscriminantExpr::Int("10".to_string()))),
        shape("D", VariantFields::Unit, None),
    ];
    assert_eq!(
        plan_variants(&vs),
        Some(Ok(vec![plan("A", 0, false), plan("B", 1, true), plan("C", 10, false), plan("D", 11, false)]))
    );
    let bad_fields = vec![shape("A", VariantFields::Unnamed(2), None)];
    assert_eq!(plan_variants(&bad_fields), Some(Err(DeriveError::UnsupportedVariantFields)));
    let named = vec![shape("A", VariantFields::Unit, None), shape("B", VariantFields::Named, None)];
    assert_eq!(plan_variants(&named), Some(Err(DeriveError::UnsupportedVariantFields)));
    let other = vec![shape("A", VariantFields::Unit, Some(DiscriminantExpr::Other))];
    assert_eq!(plan_variants(&other), Some(Err(DeriveError::UnsupportedDiscriminant)));
    let big = vec![shape("A", VariantFields::Unit, Some(DiscriminantExpr::Int("3000000000".to_string())))];
    assert_eq!(plan_variants(&big), Some(Err(DeriveError::DiscriminantOutOfRange)));
    let last = vec![shape("A", VariantFields::Unit, Some(DiscriminantExpr::Int("2147483647".to_string())))];
    assert_eq!(plan_variants(&last), None);
}

#[test]
fn type_selectors_hash_the_name() {
    for name in ["Coin", "MsgSend", ""] {
        let digest = blake2::Blake2b512::digest(name.as_bytes());
        let mut first = [0u8; 8];
        first.copy_from_slice(&digest[..8]);
        assert_eq!(type_selector_from_str(name), u64::from_le_bytes(first));
    }
    assert_ne!(type_selector_from_str("Coin"), type_selector_from_str("Coins"));
}
