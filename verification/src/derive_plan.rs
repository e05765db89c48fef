//! The decisions behind deriving a schema for a struct or an enum: whether it is sealed,
//! which lifetimes the generated code uses, the numeric type of an enum and the
//! discriminant of each of its variants.
use crate::digits::{parse_i128, parse_int};
use blake2::Digest;
use vstd::bytes::{spec_u64_from_le_bytes, u64_from_le_bytes};
use vstd::prelude::*;
use vstd::utf8::encode_utf8;

verus! {

/// Why a schema cannot be derived for a type.
#[derive(Debug, Clone, PartialEq)]
pub enum DeriveError {
    /// The type is neither a struct nor an enum.
    NotStructOrEnum,
    /// The type has neither `#[sealed]` nor `#[non_exhaustive]`.
    MissingSealedOrNonExhaustive,
    /// The type has both `#[sealed]` and `#[non_exhaustive]`.
    SealedAndNonExhaustive,
    /// The type has more than one lifetime parameter.
    TooManyLifetimes,
    /// The enum's `repr` is not one of `u8`, `i8`, `u16`, `i16`, `i32`.
    UnsupportedRepr(String),
    /// A variant has named fields, or another number of unnamed fields than one.
    UnsupportedVariantFields,
    /// A variant's discriminant is not an integer literal.
    UnsupportedDiscriminant,
    /// A variant's discriminant literal does not fit in an `i32`.
    DiscriminantOutOfRange,
}

/// Whether the type is sealed: it must carry exactly one of `#[sealed]` and
/// `#[non_exhaustive]`.
pub fn is_sealed(sealed: bool, non_exhaustive: bool) -> (r: Result<bool, DeriveError>)
    ensures
        r == (if !sealed && !non_exhaustive {
            Err(DeriveError::MissingSealedOrNonExhaustive)
        } else if sealed && non_exhaustive {
            Err(DeriveError::SealedAndNonExhaustive)
        } else {
            Ok(sealed)
        }),
{
    if !sealed && !non_exhaustive {
        return Err(DeriveError::MissingSealedOrNonExhaustive);
    }
    if sealed && non_exhaustive {
        return Err(DeriveError::SealedAndNonExhaustive);
    }
    Ok(sealed)
}

/// The lifetime the generated code borrows with (the type's own, or `a`), and a second one
/// distinct from it (`c` if the first is `b`, else `b`). A type may have one lifetime at most.
pub fn lifetime_names(lifetimes: &Vec<String>) -> (r: Result<(String, String), DeriveError>)
    ensures
        lifetimes@.len() > 1 ==> r == Err::<(String, String), DeriveError>(DeriveError::TooManyLifetimes),
        lifetimes@.len() <= 1 ==> (r matches Ok((first, second)) && first@ == (if lifetimes@.len() == 1 {
            lifetimes@[0]@
        } else {
            seq!['a']
        }) && second@ == (if first@ == seq!['b'] {
            seq!['c']
        } else {
            seq!['b']
        })),
{
    if lifetimes.len() > 1 {
        return Err(DeriveError::TooManyLifetimes);
    }
    let first = if lifetimes.len() == 1 {
        lifetimes[0].clone()
    } else {
        let a = "a".to_owned();
        proof {
            reveal_strlit("a");
            assert(a@ =~= seq!['a']);
        }
        a
    };
    let b = "b";
    proof {
        reveal_strlit("b");
        assert(b@ =~= seq!['b']);
    }
    let second = if crate::text::str_eq(first.as_str(), b) {
        let c = "c".to_owned();
        proof {
            reveal_strlit("c");
            assert(c@ =~= seq!['c']);
        }
        c
    } else {
        b.to_owned()
    };
    Ok((first, second))
}

/// The numeric type an enum's discriminant is held in.
#[derive(Debug, Clone, Copy, PartialEq, Eq, Structural)]
pub enum NumericRepr {
    U8,
    I8,
    U16,
    I16,
    I32,
}

/// The numeric type a `repr` names, if it is a supported one.
pub open spec fn repr_named(name: Seq<char>) -> Option<NumericRepr> {
    if name == seq!['u', '8'] {
        Some(NumericRepr::U8)
    } else if name == seq!['i', '8'] {
        Some(NumericRepr::I8)
    } else if name == seq!['u', '1', '6'] {
        Some(NumericRepr::U16)
    } else if name == seq!['i', '1', '6'] {
        Some(NumericRepr::I16)
    } else if name == seq!['i', '3', '2'] {
        Some(NumericRepr::I32)
    } else {
        None
    }
}

/// The numeric type of an enum from its `repr` attributes, in order: the last one decides,
/// `i32` without any, and an unsupported one is refused.
pub open spec fn enum_repr_spec(reprs: Seq<String>) -> Result<NumericRepr, DeriveError>
    decreases reprs.len(),
{
    if reprs.len() == 0 {
        Ok(NumericRepr::I32)
    } else {
        match enum_repr_spec(reprs.drop_last()) {
            Err(e) => Err(e),
            Ok(_) => match repr_named(reprs.last()@) {
                Some(r) => Ok(r),
                None => Err(DeriveError::UnsupportedRepr(reprs.last())),
            },
        }
    }
}

/// The numeric type a `repr` names, if it is a supported one.
fn repr_of(name: &str) -> (r: Option<NumericRepr>)
    ensures
        r == repr_named(name@),
{
    proof {
        reveal_strlit("u8");
        reveal_strlit("i8");
        reveal_strlit("u16");
        reveal_strlit("i16");
        reveal_strlit("i32");
        assert("u8"@ =~= seq!['u', '8']);
        assert("i8"@ =~= seq!['i', '8']);
        assert("u16"@ =~= seq!['u', '1', '6']);
        assert("i16"@ =~= seq!['i', '1', '6']);
        assert("i32"@ =~= seq!['i', '3', '2']);
    }
    if crate::text::str_eq(name, "u8") {
        Some(NumericRepr::U8)
    } else if crate::text::str_eq(name, "i8") {
        Some(NumericRepr::I8)
    } else if crate::text::str_eq(name, "u16") {
        Some(NumericRepr::U16)
    } else if crate::text::str_eq(name, "i16") {
        Some(NumericRepr::I16)
    } else if crate::text::str_eq(name, "i32") {
        Some(NumericRepr::I32)
    } else {
        None
    }
}

/// The numeric type of an enum from its `repr` attributes, in order.
pub fn enum_repr(reprs: &Vec<String>) -> (r: Result<NumericRepr, DeriveError>)
    ensures
        r == enum_repr_spec(reprs@),
{
    let mut repr = NumericRepr::I32;
    let mut i: usize = 0;
    proof {
        assert(reprs@.take(0) =~= Seq::<String>::empty());
    }
    while i < reprs.len()
        invariant
            i <= reprs@.len(),
            enum_repr_spec(reprs@.take(i as int)) == Ok::<NumericRepr, DeriveError>(repr),
        decreases reprs@.len() - i,
    {
        proof {
            assert(reprs@.take(i + 1).drop_last() =~= reprs@.take(i as int));
            assert(reprs@.take(i + 1).last() == reprs@[i as int]);
        }
        match repr_of(reprs[i].as_str()) {
            Some(r) => {
                repr = r;
            },
            None => {
                proof {
                    lemma_repr_err(reprs@, i + 1);
                    assert(reprs@.take(reprs@.len() as int) =~= reprs@);
                }
                return Err(DeriveError::UnsupportedRepr(reprs[i].clone()));
            },
        }
        i = i + 1;
    }
    proof {
        assert(reprs@.take(i as int) =~= reprs@);
    }
    Ok(repr)
}

proof fn lemma_repr_err(reprs: Seq<String>, k: int)
    requires
        0 <= k <= reprs.len(),
        enum_repr_spec(reprs.take(k)) is Err,
    ensures
        enum_repr_spec(reprs.take(reprs.len() as int)) == enum_repr_spec(reprs.take(k)),
    decreases reprs.len() - k,
{
    if k < reprs.len() {
        assert(reprs.take(k + 1).drop_last() =~= reprs.take(k));
        lemma_repr_err(reprs, k + 1);
    }
}

/// The fields of an enum variant, by shape.
#[derive(Debug, Clone, Copy, PartialEq, Eq, Structural)]
pub enum VariantFields {
    /// No fields.
    Unit,
    /// This many unnamed fields.
    Unnamed(usize),
    /// Named fields.
    Named,
}

/// A variant's explicit discriminant.
#[derive(Debug, Clone, PartialEq)]
pub enum DiscriminantExpr {
    /// An integer literal, by its decimal digits.
    Int(String),
    /// Any other expression.
    Other,
}

/// A variant of an enum, as the derive reads it.
pub struct VariantShape {
    /// The variant's name.
    pub name: String,
    /// Its fields.
    pub fields: VariantFields,
    /// Its explicit discriminant, if any.
    pub discriminant: Option<DiscriminantExpr>,
}

/// A variant as the schema describes it.
#[derive(Debug, Clone, PartialEq)]
pub struct VariantPlan {
    /// The variant's name.
    pub name: String,
    /// Its discriminant.
    pub discriminant: i32,
    /// Whether it carries a value.
    pub has_value: bool,
}

/// The model of a planned variant.
pub open spec fn plan_model(p: VariantPlan) -> (Seq<char>, i32, bool) {
    (p.name@, p.discriminant, p.has_value)
}

/// Planning the variants `vs`, the first of which gets `d` unless it names its own
/// discriminant; each later one gets one more than the one before unless it names its own.
/// `None` where the discriminant after a variant's overflows an `i32`.
pub open spec fn plan_spec(vs: Seq<VariantShape>, d: int) -> Option<Result<Seq<(Seq<char>, i32, bool)>, DeriveError>>
    decreases vs.len(),
{
    if vs.len() == 0 {
        Some(Ok(Seq::empty()))
    } else {
        let v = vs[0];
        let has_value = match v.fields {
            VariantFields::Unit => Ok(false),
            VariantFields::Unnamed(n) => if n == 1 {
                Ok(true)
            } else {
                Err(DeriveError::UnsupportedVariantFields)
            },
            VariantFields::Named => Err(DeriveError::UnsupportedVariantFields),
        };
        match has_value {
            Err(e) => Some(Err(e)),
            Ok(hv) => {
                let disc: Result<int, DeriveError> = match v.discriminant {
                    None => Ok(d),
                    Some(DiscriminantExpr::Int(digits)) => match parse_int(digits@, i32::MIN as int, i32::MAX as int) {
                        Some(x) => Ok(x),
                        None => Err(DeriveError::DiscriminantOutOfRange),
                    },
                    Some(DiscriminantExpr::Other) => Err(DeriveError::UnsupportedDiscriminant),
                };
                match disc {
                    Err(e) => Some(Err(e)),
                    Ok(x) => if x == i32::MAX {
                        None
                    } else {
                        match plan_spec(vs.drop_first(), x + 1) {
                            Some(Ok(rest)) => Some(Ok(seq![(v.name@, x as i32, hv)] + rest)),
                            other => other,
                        }
                    },
                }
            },
        }
    }
}

/// The schema's variants of an enum with the variants `vs`, in order, or why they cannot be
/// planned; `None` where a discriminant leaves no room for the next one.
pub fn plan_variants(vs: &Vec<VariantShape>) -> (r: Option<Result<Vec<VariantPlan>, DeriveError>>)
    ensures
        match (r, plan_spec(vs@, 0)) {
            (None, None) => true,
            (Some(Ok(ps)), Some(Ok(ms))) => ps@.map_values(|p: VariantPlan| plan_model(p)) == ms,
            (Some(Err(e)), Some(Err(se))) => e == se,
            _ => false,
        },
{
    let mut plans: Vec<VariantPlan> = Vec::new();
    let mut d: i32 = 0;
    let mut i: usize = 0;
    let ghost whole = plan_spec(vs@, 0);
    proof {
        assert(vs@.skip(0) =~= vs@);
        assert(plans@.map_values(|p: VariantPlan| plan_model(p)) =~= Seq::<(Seq<char>, i32, bool)>::empty());
    }
    while i < vs.len()
        invariant
            i <= vs@.len(),
            whole == plan_spec(vs@, 0),
            whole == match plan_spec(vs@.skip(i as int), d as int) {
                Some(Ok(rest)) => Some(Ok(plans@.map_values(|p: VariantPlan| plan_model(p)) + rest)),
                other => other,
            },
        decreases vs@.len() - i,
    {
        let ghost rest = vs@.skip(i as int);
        proof {
            assert(rest[0] == vs@[i as int]);
            assert(rest.drop_first() =~= vs@.skip(i + 1));
        }
        let v = &vs[i];
        let has_value = match v.fields {
            VariantFields::Unit => false,
            VariantFields::Unnamed(n) => {
                if n != 1 {
                    return Some(Err(DeriveError::UnsupportedVariantFields));
                }
                true
            },
            VariantFields::Named => {
                return Some(Err(DeriveError::UnsupportedVariantFields));
            },
        };
        match &v.discriminant {
            None => {},
            Some(DiscriminantExpr::Int(digits)) => match parse_i128(digits.as_str()) {
                Some(x) => {
                    if x < -0x8000_0000 || x > 0x7fff_ffff {
                        return Some(Err(DeriveError::DiscriminantOutOfRange));
                    }
                    d = x as i32;
                },
                None => {
                    return Some(Err(DeriveError::DiscriminantOutOfRange));
                },
            },
            Some(DiscriminantExpr::Other) => {
                return Some(Err(DeriveError::UnsupportedDiscriminant));
            },
        }
        if d == 0x7fff_ffff {
            return None;
        }
        let ghost before = plans@;
        plans.push(VariantPlan { name: v.name.clone(), discriminant: d, has_value });
        proof {
            let f = |p: VariantPlan| plan_model(p);
            assert(plans@.map_values(f) =~= before.map_values(f).push((v.name@, d, has_value)));
            let rest_after = plan_spec(vs@.skip(i + 1), d + 1);
            if let Some(Ok(r2)) = rest_after {
                assert(before.map_values(f) + (seq![(v.name@, d, has_value)] + r2) =~= plans@.map_values(f) + r2);
            }
        }
        d = d + 1;
        i = i + 1;
    }
    proof {
        assert(vs@.skip(i as int) =~= Seq::<VariantShape>::empty());
        assert(plans@.map_values(|p: VariantPlan| plan_model(p)) + Seq::<(Seq<char>, i32, bool)>::empty() =~= plans@.map_values(
            |p: VariantPlan| plan_model(p),
        ));
    }
    Some(Ok(plans))
}

/// The BLAKE2b-512 digest of `data`.
pub uninterp spec fn blake2b512(data: Seq<u8>) -> Seq<u8>;

/// Calls `blake2::Digest::digest` for `blake2::Blake2b512`.
/// Claimed: the digest depends on the data alone, and is 64 bytes long (the output size of
/// `Blake2b512`).
#[verifier::external_body]
fn blake2b512_digest(data: &[u8]) -> (r: Vec<u8>)
    ensures
        r@ == blake2b512(data@),
        r@.len() == 64,
{
    blake2::Blake2b512::digest(data).to_vec()
}

/// The type selector of a struct named `name`: the first eight bytes of the BLAKE2b-512
/// digest of the name, read as a little-endian number.
pub fn type_selector_from_str(name: &str) -> (r: u64)
    ensures
        r == spec_u64_from_le_bytes(blake2b512(encode_utf8(name@)).subrange(0, 8)),
{
    let hash = blake2b512_digest(name.as_bytes());
    let first = vstd::slice::slice_subrange(hash.as_slice(), 0, 8);
    u64_from_le_bytes(first)
}

} // verus!
