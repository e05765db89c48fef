//! Collecting the schema types that a type refers to, one per name.
use crate::enums::EnumVariantDefinition;
use crate::field::Field;
use crate::schema::{schema_type_name, SchemaType};
use crate::text::str_eq;
use vstd::prelude::*;

verus! {

/// Whether two optional names are the same.
pub open spec fn same_opt_str(a: Option<&str>, b: Option<&str>) -> bool {
    match (a, b) {
        (None, None) => true,
        (Some(x), Some(y)) => x@ == y@,
        _ => false,
    }
}

/// Whether two fields are the same.
pub open spec fn same_field(a: Field, b: Field) -> bool {
    &&& a.name@ == b.name@
    &&& a.kind == b.kind
    &&& a.nullable == b.nullable
    &&& a.element_kind == b.element_kind
    &&& same_opt_str(a.referenced_type, b.referenced_type)
}

/// Whether two lists of fields are the same.
pub open spec fn same_fields(a: Seq<Field>, b: Seq<Field>) -> bool {
    a.len() == b.len() && forall|i: int| 0 <= i < a.len() ==> same_field(#[trigger] a[i], b[i])
}

/// Whether two enum variants are the same.
pub open spec fn same_variant(a: EnumVariantDefinition, b: EnumVariantDefinition) -> bool {
    &&& a.name@ == b.name@
    &&& a.discriminant == b.discriminant
    &&& match (a.value, b.value) {
        (None, None) => true,
        (Some(x), Some(y)) => same_field(x, y),
        _ => false,
    }
}

/// Whether two schema types are the same.
pub open spec fn same_schema_type(a: SchemaType, b: SchemaType) -> bool {
    match (a, b) {
        (SchemaType::Invalid, SchemaType::Invalid) => true,
        (SchemaType::Struct(x), SchemaType::Struct(y)) => x.name@ == y.name@ && same_fields(x.fields@, y.fields@)
            && x.sealed == y.sealed && x.type_selector == y.type_selector,
        (SchemaType::Enum(x), SchemaType::Enum(y)) => {
            &&& x.name@ == y.name@
            &&& x.variants@.len() == y.variants@.len()
            &&& forall|i: int| 0 <= i < x.variants@.len() ==> same_variant(#[trigger] x.variants@[i], y.variants@[i])
            &&& x.numeric_kind == y.numeric_kind
            &&& x.sealed == y.sealed
        },
        _ => false,
    }
}

fn opt_str_eq(a: Option<&str>, b: Option<&str>) -> (r: bool)
    ensures
        r == same_opt_str(a, b),
{
    match (a, b) {
        (None, None) => true,
        (Some(x), Some(y)) => str_eq(x, y),
        _ => false,
    }
}

fn field_eq(a: &Field, b: &Field) -> (r: bool)
    ensures
        r == same_field(*a, *b),
{
    str_eq(a.name, b.name) && a.kind == b.kind && a.nullable == b.nullable && a.element_kind == b.element_kind
        && opt_str_eq(a.referenced_type, b.referenced_type)
}

fn fields_eq(a: &[Field], b: &[Field]) -> (r: bool)
    ensures
        r == same_fields(a@, b@),
{
    if a.len() != b.len() {
        return false;
    }
    let mut i: usize = 0;
    while i < a.len()
        invariant
            a@.len() == b@.len(),
            i <= a@.len(),
            forall|j: int| 0 <= j < i ==> same_field(#[trigger] a@[j], b@[j]),
        decreases a@.len() - i,
    {
        if !field_eq(&a[i], &b[i]) {
            return false;
        }
        i = i + 1;
    }
    true
}

fn variant_eq(a: &EnumVariantDefinition, b: &EnumVariantDefinition) -> (r: bool)
    ensures
        r == same_variant(*a, *b),
{
    str_eq(a.name, b.name) && a.discriminant == b.discriminant && match (&a.value, &b.value) {
        (None, None) => true,
        (Some(x), Some(y)) => field_eq(x, y),
        _ => false,
    }
}

fn variants_eq(a: &[EnumVariantDefinition], b: &[EnumVariantDefinition]) -> (r: bool)
    ensures
        r == (a@.len() == b@.len() && forall|i: int| 0 <= i < a@.len() ==> same_variant(#[trigger] a@[i], b@[i])),
{
    if a.len() != b.len() {
        return false;
    }
    let mut i: usize = 0;
    while i < a.len()
        invariant
            a@.len() == b@.len(),
            i <= a@.len(),
            forall|j: int| 0 <= j < i ==> same_variant(#[trigger] a@[j], b@[j]),
        decreases a@.len() - i,
    {
        if !variant_eq(&a[i], &b[i]) {
            return false;
        }
        i = i + 1;
    }
    true
}

/// Whether two schema types are the same.
pub fn schema_type_eq(a: &SchemaType, b: &SchemaType) -> (r: bool)
    ensures
        r == same_schema_type(*a, *b),
{
    match (a, b) {
        (SchemaType::Invalid, SchemaType::Invalid) => true,
        (SchemaType::Struct(x), SchemaType::Struct(y)) => str_eq(x.name, y.name) && fields_eq(x.fields, y.fields)
            && x.sealed == y.sealed && x.type_selector == y.type_selector,
        (SchemaType::Enum(x), SchemaType::Enum(y)) => str_eq(x.name, y.name) && variants_eq(x.variants, y.variants)
            && x.numeric_kind == y.numeric_kind && x.sealed == y.sealed,
        _ => false,
    }
}

/// Two schema types count as the same exactly when they agree in everything: kind of type,
/// name, sealing, type selector and, field by field, each field's name, kind, nullability,
/// element kind and referenced type; for enums, variant by variant, each variant's name,
/// discriminant and value field in all those attributes, and the numeric kind.
pub proof fn lemma_same_schema_type_is_identity(a: SchemaType, b: SchemaType)
    ensures
        same_schema_type(a, b) <==> match (a, b) {
            (SchemaType::Invalid, SchemaType::Invalid) => true,
            (SchemaType::Struct(x), SchemaType::Struct(y)) => {
                &&& x.name@ == y.name@
                &&& x.sealed == y.sealed
                &&& x.type_selector == y.type_selector
                &&& x.fields@.len() == y.fields@.len()
                &&& forall|i: int| 0 <= i < x.fields@.len() ==> {
                    let (f, g) = (#[trigger] x.fields@[i], y.fields@[i]);
                    &&& f.name@ == g.name@
                    &&& f.kind == g.kind
                    &&& f.nullable == g.nullable
                    &&& f.element_kind == g.element_kind
                    &&& match (f.referenced_type, g.referenced_type) {
                        (None, None) => true,
                        (Some(p), Some(q)) => p@ == q@,
                        _ => false,
                    }
                }
            },
            (SchemaType::Enum(x), SchemaType::Enum(y)) => {
                &&& x.name@ == y.name@
                &&& x.sealed == y.sealed
                &&& x.numeric_kind == y.numeric_kind
                &&& x.variants@.len() == y.variants@.len()
                &&& forall|i: int| 0 <= i < x.variants@.len() ==> {
                    let (v, w) = (#[trigger] x.variants@[i], y.variants@[i]);
                    &&& v.name@ == w.name@
                    &&& v.discriminant == w.discriminant
                    &&& match (v.value, w.value) {
                        (None, None) => true,
                        (Some(f), Some(g)) => {
                            &&& f.name@ == g.name@
                            &&& f.kind == g.kind
                            &&& f.nullable == g.nullable
                            &&& f.element_kind == g.element_kind
                            &&& match (f.referenced_type, g.referenced_type) {
                                (None, None) => true,
                                (Some(p), Some(q)) => p@ == q@,
                                _ => false,
                            }
                        },
                        _ => false,
                    }
                }
            },
            _ => false,
        },
{
}

/// The index of the type named `name` among `kept`, if there is one.
pub open spec fn named_index(kept: Seq<SchemaType<'static>>, name: Seq<char>) -> Option<int>
    decreases kept.len(),
{
    if kept.len() == 0 {
        None
    } else if schema_type_name(kept.last())@ == name {
        Some(kept.len() - 1)
    } else {
        named_index(kept.drop_last(), name)
    }
}

/// Collecting the schema types `ts`, met in this order: the first type met under each name is
/// kept; a later type under the same name that is not the same type is a conflict, recorded
/// by its name.
pub open spec fn collected(ts: Seq<SchemaType<'static>>) -> (Seq<SchemaType<'static>>, Seq<&'static str>)
    decreases ts.len(),
{
    if ts.len() == 0 {
        (Seq::empty(), Seq::empty())
    } else {
        let (kept, errors) = collected(ts.drop_last());
        let t = ts.last();
        match named_index(kept, schema_type_name(t)@) {
            Some(i) => if same_schema_type(kept[i], t) {
                (kept, errors)
            } else {
                (kept, errors.push(schema_type_name(t)))
            },
            None => (kept.push(t), errors),
        }
    }
}

proof fn lemma_named_index(kept: Seq<SchemaType<'static>>, name: Seq<char>)
    ensures
        named_index(kept, name) matches Some(i) ==> 0 <= i < kept.len() && schema_type_name(kept[i])@ == name,
        named_index(kept, name) is None ==> forall|i: int| 0 <= i < kept.len() ==> schema_type_name(kept[i])@ != name,
    decreases kept.len(),
{
    if kept.len() > 0 {
        lemma_named_index(kept.drop_last(), name);
        assert forall|i: int| 0 <= i < kept.len() - 1 implies kept[i] == kept.drop_last()[i] by {}
    }
}

/// The index of the type named `name` among `kept`, searching from the last.
fn find_named(kept: &Vec<SchemaType<'static>>, name: &str) -> (r: Option<usize>)
    ensures
        match (r, named_index(kept@, name@)) {
            (Some(i), Some(j)) => i == j,
            (None, None) => true,
            _ => false,
        },
{
    let mut i = kept.len();
    proof {
        assert(kept@.take(i as int) =~= kept@);
    }
    while i > 0
        invariant
            i <= kept@.len(),
            named_index(kept@, name@) == named_index(kept@.take(i as int), name@),
        decreases i,
    {
        proof {
            assert(kept@.take(i as int).drop_last() =~= kept@.take(i - 1));
            assert(kept@.take(i as int).last() == kept@[i - 1]);
        }
        if str_eq(kept[i - 1].name(), name) {
            return Some(i - 1);
        }
        i = i - 1;
    }
    None
}

/// The schema types met, in order, one per name, or the names of the types that conflict
/// with a type met before under the same name.
pub fn collect_types(types: &Vec<SchemaType<'static>>) -> (r: Result<Vec<SchemaType<'static>>, Vec<&'static str>>)
    ensures
        ({
            let (kept, errors) = collected(types@);
            match r {
                Ok(ts) => errors.len() == 0 && ts@ == kept,
                Err(es) => errors.len() > 0 && es@ == errors,
            }
        }),
{
    let mut kept: Vec<SchemaType<'static>> = Vec::new();
    let mut errors: Vec<&'static str> = Vec::new();
    let mut i: usize = 0;
    proof {
        assert(types@.take(0) =~= Seq::<SchemaType<'static>>::empty());
    }
    while i < types.len()
        invariant
            i <= types@.len(),
            collected(types@.take(i as int)) == (kept@, errors@),
        decreases types@.len() - i,
    {
        proof {
            assert(types@.take(i + 1).drop_last() =~= types@.take(i as int));
            assert(types@.take(i + 1).last() == types@[i as int]);
        }
        let t = &types[i];
        let name = t.name();
        match find_named(&kept, name) {
            Some(k) => {
                proof {
                    lemma_named_index(kept@, name@);
                }
                if !schema_type_eq(&kept[k], t) {
                    errors.push(name);
                }
            },
            None => {
                kept.push(*t);
            },
        }
        i = i + 1;
    }
    proof {
        assert(types@.take(i as int) =~= types@);
    }
    if errors.len() == 0 {
        Ok(kept)
    } else {
        Err(errors)
    }
}

} // verus!
