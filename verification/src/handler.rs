//! Account handler schemas, and where to find them.
use crate::message::MessageDescriptor;
use crate::schema::{schema_type_name, SchemaType};
use crate::structs::StructType;
use crate::table::Table;
use vstd::bytes::{spec_u64_to_le_bytes, u64_to_le_bytes};
use vstd::prelude::*;
use vstd::utf8::encode_utf8;

verus! {

/// An account handler schema.
pub struct HandlerSchema<'a> {
    /// The fully qualified identifier of the handler.
    pub id: &'a str,
    /// The types used by the account in its public API or to interact with other accounts.
    pub types: Vec<SchemaType<'a>>,
    /// The messages that the account handles.
    pub messages: Vec<MessageDescriptor<'a>>,
    /// The clients the account uses to talk to other accounts.
    pub clients: Vec<ClientDescriptor<'a>>,
}

/// Describes a client that an account uses to talk to another account.
pub struct ClientDescriptor<'a> {
    /// The name of the client, meaningful locally.
    pub name: &'a str,
    /// The account the client talks to.
    pub account_id: u128,
    /// The messages the client can send.
    pub messages: Vec<MessageDescriptor<'a>>,
}

impl<'a> ClientDescriptor<'a> {
    /// A client with a name and an account but no messages.
    pub fn new(name: &'a str, account_id: u128) -> (r: Self)
        ensures
            r.name == name,
            r.account_id == account_id,
            r.messages@.len() == 0,
    {
        ClientDescriptor { name, account_id, messages: Vec::new() }
    }
}

/// The key under which a type is found by name: the name's UTF-8 bytes.
pub open spec fn name_key(name: Seq<char>) -> Seq<u8> {
    encode_utf8(name)
}

/// The key under which a struct type is found by type selector: its little-endian bytes.
pub open spec fn selector_key(selector: u64) -> Seq<u8> {
    spec_u64_to_le_bytes(selector)
}

/// The types of `ts` by name; a later type of a name replaces an earlier one.
pub open spec fn types_by_name<'a>(ts: Seq<SchemaType<'a>>) -> Map<Seq<u8>, SchemaType<'a>>
    decreases ts.len(),
{
    if ts.len() == 0 {
        Map::empty()
    } else {
        types_by_name(ts.drop_last()).insert(name_key(schema_type_name(ts.last())@), ts.last())
    }
}

/// The struct types of `ts` by type selector; a later struct type of a selector replaces an
/// earlier one.
pub open spec fn structs_by_selector<'a>(ts: Seq<SchemaType<'a>>) -> Map<Seq<u8>, StructType<'a>>
    decreases ts.len(),
{
    if ts.len() == 0 {
        Map::empty()
    } else {
        let m = structs_by_selector(ts.drop_last());
        match ts.last() {
            SchemaType::Struct(st) => m.insert(selector_key(st.type_selector), st),
            _ => m,
        }
    }
}

/// The types of a handler by name, and its struct types by type selector.
pub struct TypeMap<'a> {
    name_to_type: Table<SchemaType<'a>>,
    selector_to_type: Table<StructType<'a>>,
}

impl<'a> TypeMap<'a> {
    /// The types by [`name_key`].
    pub closed spec fn names(&self) -> Map<Seq<u8>, SchemaType<'a>> {
        self.name_to_type@
    }

    /// The struct types by [`selector_key`].
    pub closed spec fn selectors(&self) -> Map<Seq<u8>, StructType<'a>> {
        self.selector_to_type@
    }

    /// The tables are well formed.
    pub closed spec fn wf(&self) -> bool {
        self.name_to_type.wf() && self.selector_to_type.wf()
    }

    /// The type named `name`, if any.
    pub fn type_named(&self, name: &str) -> (r: Option<SchemaType<'a>>)
        requires
            self.wf(),
        ensures
            r == (if self.names().contains_key(name_key(name@)) {
                Some(self.names()[name_key(name@)])
            } else {
                None::<SchemaType<'a>>
            }),
    {
        self.name_to_type.get(name.as_bytes())
    }

    /// The struct type with type selector `selector`, if any.
    pub fn struct_with_selector(&self, selector: u64) -> (r: Option<StructType<'a>>)
        requires
            self.wf(),
        ensures
            r == (if self.selectors().contains_key(selector_key(selector)) {
                Some(self.selectors()[selector_key(selector)])
            } else {
                None::<StructType<'a>>
            }),
    {
        let key = u64_to_le_bytes(selector);
        self.selector_to_type.get(key.as_slice())
    }
}

/// The type map of a handler schema: each of its types by name, and each of its struct types
/// by type selector.
pub fn type_map_from_schema<'a>(schema: &HandlerSchema<'a>) -> (r: TypeMap<'a>)
    ensures
        r.wf(),
        r.names() == types_by_name(schema.types@),
        r.selectors() == structs_by_selector(schema.types@),
{
    let mut type_map = TypeMap { name_to_type: Table::new(), selector_to_type: Table::new() };
    let mut i: usize = 0;
    while i < schema.types.len()
        invariant
            i <= schema.types@.len(),
            type_map.wf(),
            type_map.names() == types_by_name(schema.types@.take(i as int)),
            type_map.selectors() == structs_by_selector(schema.types@.take(i as int)),
        decreases schema.types@.len() - i,
    {
        let typ = schema.types[i];
        proof {
            let p = schema.types@.take(i + 1);
            assert(p.drop_last() =~= schema.types@.take(i as int));
            assert(p.last() == typ);
        }
        let name = typ.name();
        type_map.name_to_type.set(name.as_bytes(), typ);
        match typ {
            SchemaType::Struct(struct_type) => {
                let key = u64_to_le_bytes(struct_type.type_selector);
                type_map.selector_to_type.set(key.as_slice(), struct_type);
            },
            _ => {},
        }
        i = i + 1;
    }
    proof {
        assert(schema.types@.take(schema.types@.len() as int) =~= schema.types@);
    }
    type_map
}

/// A handler schema with its type map.
pub struct HandlerSchemaInfo<'a> {
    /// The handler schema.
    pub schema: HandlerSchema<'a>,
    /// The type map of the handler's types.
    pub type_map: TypeMap<'a>,
}

/// Finds the schema of an account's handler.
pub trait HandlerSchemaResolver {
    /// The schema of the handler of the account `account_id`, if known.
    fn schema_for_account<'a>(&self, account_id: &u128) -> Option<HandlerSchemaInfo<'a>>;

    /// The schema of the handler `handler_id`, if known.
    fn schema_for_handler<'a>(&self, handler_id: &str) -> Option<HandlerSchemaInfo<'a>>;
}

/// A resolver that knows no schema.
pub struct EmptyHandlerSchemaResolver;

impl HandlerSchemaResolver for EmptyHandlerSchemaResolver {
    /// No schema, whatever the account.
    fn schema_for_account<'a>(&self, account_id: &u128) -> (r: Option<HandlerSchemaInfo<'a>>)
        ensures
            r is None,
    {
        None
    }

    /// No schema, whatever the handler.
    fn schema_for_handler<'a>(&self, handler_id: &str) -> (r: Option<HandlerSchemaInfo<'a>>)
        ensures
            r is None,
    {
        None
    }
}

} // verus!
