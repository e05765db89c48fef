//! Field kinds.
use vstd::prelude::*;

verus! {

/// The basic type of a field.
#[derive(Debug, Clone, Copy, PartialEq, Eq, Structural)]
pub enum Kind {
    /// An unknown and invalid kind.
    Invalid,
    /// A string.
    String,
    /// A byte array.
    Bytes,
    /// A signed 8-bit integer.
    Int8,
    /// An unsigned 8-bit integer.
    Uint8,
    /// A signed 16-bit integer.
    Int16,
    /// An unsigned 16-bit integer.
    Uint16,
    /// A signed 32-bit integer.
    Int32,
    /// An unsigned 32-bit integer.
    Uint32,
    /// A signed 64-bit integer.
    Int64,
    /// An unsigned 64-bit integer.
    Uint64,
    /// A signed 128-bit integer.
    Int128,
    /// An unsigned 128-bit integer.
    UInt128,
    /// A boolean.
    Bool,
    /// A timestamp with nano-second precision.
    Time,
    /// A duration with nano-second precision.
    Duration,
    /// An account ID.
    AccountID,
    /// An enumeration value.
    Enum,
    /// A struct value.
    Struct,
    /// A list value.
    List,
    /// Any message.
    AnyMessage,
}

/// The numeric code of each kind, in declaration order starting at zero.
pub open spec fn kind_code(k: Kind) -> i32 {
    match k {
        Kind::Invalid => 0,
        Kind::String => 1,
        Kind::Bytes => 2,
        Kind::Int8 => 3,
        Kind::Uint8 => 4,
        Kind::Int16 => 5,
        Kind::Uint16 => 6,
        Kind::Int32 => 7,
        Kind::Uint32 => 8,
        Kind::Int64 => 9,
        Kind::Uint64 => 10,
        Kind::Int128 => 11,
        Kind::UInt128 => 12,
        Kind::Bool => 13,
        Kind::Time => 14,
        Kind::Duration => 15,
        Kind::AccountID => 16,
        Kind::Enum => 17,
        Kind::Struct => 18,
        Kind::List => 19,
        Kind::AnyMessage => 20,
    }
}

impl Default for Kind {
    fn default() -> (k: Kind)
        ensures
            k == Kind::Invalid,
    {
        Kind::Invalid
    }
}

impl Kind {
    /// The primitive `i32` representation of the kind.
    pub fn to_i32(self) -> (r: i32)
        ensures
            r == kind_code(self),
    {
        match self {
            Kind::Invalid => 0,
            Kind::String => 1,
            Kind::Bytes => 2,
            Kind::Int8 => 3,
            Kind::Uint8 => 4,
            Kind::Int16 => 5,
            Kind::Uint16 => 6,
            Kind::Int32 => 7,
            Kind::Uint32 => 8,
            Kind::Int64 => 9,
            Kind::Uint64 => 10,
            Kind::Int128 => 11,
            Kind::UInt128 => 12,
            Kind::Bool => 13,
            Kind::Time => 14,
            Kind::Duration => 15,
            Kind::AccountID => 16,
            Kind::Enum => 17,
            Kind::Struct => 18,
            Kind::List => 19,
            Kind::AnyMessage => 20,
        }
    }

    /// The kind whose primitive representation is `code`, if there is one.
    pub fn try_from_i32(code: i32) -> (r: Option<Kind>)
        ensures
            match r {
                Some(k) => kind_code(k) == code,
                None => forall|k: Kind| kind_code(k) != code,
            },
    {
        let r = match code {
            0 => Some(Kind::Invalid),
            1 => Some(Kind::String),
            2 => Some(Kind::Bytes),
            3 => Some(Kind::Int8),
            4 => Some(Kind::Uint8),
            5 => Some(Kind::Int16),
            6 => Some(Kind::Uint16),
            7 => Some(Kind::Int32),
            8 => Some(Kind::Uint32),
            9 => Some(Kind::Int64),
            10 => Some(Kind::Uint64),
            11 => Some(Kind::Int128),
            12 => Some(Kind::UInt128),
            13 => Some(Kind::Bool),
            14 => Some(Kind::Time),
            15 => Some(Kind::Duration),
            16 => Some(Kind::AccountID),
            17 => Some(Kind::Enum),
            18 => Some(Kind::Struct),
            19 => Some(Kind::List),
            20 => Some(Kind::AnyMessage),
            _ => None,
        };
        proof {
            if r.is_none() {
                assert forall|k: Kind| kind_code(k) != code by {
                    assert(0 <= kind_code(k) <= 20);
                }
            }
        }
        r
    }
}

/// Converting a kind to its code and back gives the same kind.
pub proof fn lemma_kind_code_injective(a: Kind, b: Kind)
    ensures
        kind_code(a) == kind_code(b) ==> a == b,
{
}

} // verus!
