//! The binary codec and typed decoding.
use crate::binary::decode::{agrees, decode_out};
use crate::binary::encode::{encode_out, size_out};
use crate::binary::format::{dec_out, enc_out};
use crate::errors::{DecodeError, EncodeError};
use crate::mem::MemoryManager;
use crate::text::str_from_utf8;
use crate::value::{DynamicValue, ValueModel, ValueType};
use vstd::prelude::*;
use vstd::utf8::{decode_utf8, valid_utf8};

verus! {

/// A codec for encoding and decoding values using the native binary format.
pub struct NativeBinaryCodec;

/// Encode a value in the native binary format.
pub fn encode_value(value: &DynamicValue) -> (r: Vec<u8>)
    requires
        enc_out(value@).len() <= usize::MAX,
    ensures
        r@ == enc_out(value@),
{
    let size = size_out(value);
    let mut out: Vec<u8> = Vec::with_capacity(size);
    encode_out(value, &mut out);
    proof {
        assert(out@ =~= enc_out(value@));
    }
    out
}

/// Decode a value of type `t` from the native binary format.
pub fn decode_dynamic(t: &ValueType, input: &[u8]) -> (r: Result<DynamicValue, DecodeError>)
    ensures
        match (r, dec_out(*t, input@)) {
            (Ok(v), Ok((m, _))) => v@ == m,
            (Err(e), Err(se)) => e == se,
            _ => false,
        },
{
    proof {
        assert(input@.subrange(0, input@.len() as int) =~= input@);
    }
    match decode_out(t, input, 0, input.len()) {
        Ok((v, _)) => Ok(v),
        Err(e) => Err(e),
    }
}

impl NativeBinaryCodec {
    /// Encode a value.
    pub fn encode_value(&self, value: &DynamicValue) -> (r: Vec<u8>)
        requires
            enc_out(value@).len() <= usize::MAX,
        ensures
            r@ == enc_out(value@),
    {
        encode_value(value)
    }

    /// Decode a value of type `t`.
    pub fn decode_value(&self, t: &ValueType, input: &[u8]) -> (r: Result<DynamicValue, DecodeError>)
        ensures
            match (r, dec_out(*t, input@)) {
                (Ok(v), Ok((m, _))) => v@ == m,
                (Err(e), Err(se)) => e == se,
                _ => false,
            },
    {
        decode_dynamic(t, input)
    }
}

/// A type whose values can be decoded from the native binary format.
pub trait SchemaValue<'a>: Sized {
    /// The schema type of values of this type.
    spec fn schema_type() -> ValueType;

    /// Whether `self` is the value that `m` describes.
    spec fn models(&self, m: ValueModel) -> bool;

    /// Decode a value from the whole of `input`.
    fn decode_binary(input: &'a [u8]) -> (r: Result<Self, DecodeError>)
        ensures
            match (r, dec_out(Self::schema_type(), input@)) {
                (Ok(x), Ok((m, _))) => x.models(m),
                (Err(e), Err(se)) => e == se,
                _ => false,
            },
    ;
}

/// A value type that can be an element of a list.
pub trait ListElementValue<'a>: SchemaValue<'a> {}

impl<'a> ListElementValue<'a> for u16 {}

impl<'a> ListElementValue<'a> for u32 {}

impl<'a> ListElementValue<'a> for u64 {}

impl<'a> ListElementValue<'a> for u128 {}

impl<'a> ListElementValue<'a> for i8 {}

impl<'a> ListElementValue<'a> for i16 {}

impl<'a> ListElementValue<'a> for i32 {}

impl<'a> ListElementValue<'a> for i64 {}

impl<'a> ListElementValue<'a> for i128 {}

impl<'a> ListElementValue<'a> for bool {}

impl<'a> ListElementValue<'a> for &'a str {}

impl<'a> ListElementValue<'a> for String {}

impl<'a> ListElementValue<'a> for Vec<u8> {}

/// Decode a value of type `V`.
pub fn decode_value<'a, V: SchemaValue<'a>>(codec: &NativeBinaryCodec, input: &'a [u8], mem: &'a MemoryManager) -> (r: Result<V, DecodeError>)
    ensures
        match (r, dec_out(V::schema_type(), input@)) {
            (Ok(x), Ok((m, _))) => x.models(m),
            (Err(e), Err(se)) => e == se,
            _ => false,
        },
{
    V::decode_binary(input)
}

impl<'a> SchemaValue<'a> for u8 {
    open spec fn schema_type() -> ValueType {
        ValueType::U8
    }

    open spec fn models(&self, m: ValueModel) -> bool {
        m == ValueModel::U8(*self)
    }

    fn decode_binary(input: &'a [u8]) -> (r: Result<Self, DecodeError>) {
        match decode_dynamic(&ValueType::U8, input) {
            Ok(DynamicValue::U8(x)) => Ok(x),
            Ok(_) => Err(DecodeError::InvalidData),
            Err(e) => Err(e),
        }
    }
}

impl<'a> SchemaValue<'a> for u16 {
    open spec fn schema_type() -> ValueType {
        ValueType::U16
    }

    open spec fn models(&self, m: ValueModel) -> bool {
        m == ValueModel::U16(*self)
    }

    fn decode_binary(input: &'a [u8]) -> (r: Result<Self, DecodeError>) {
        match decode_dynamic(&ValueType::U16, input) {
            Ok(DynamicValue::U16(x)) => Ok(x),
            Ok(_) => Err(DecodeError::InvalidData),
            Err(e) => Err(e),
        }
    }
}

impl<'a> SchemaValue<'a> for u32 {
    open spec fn schema_type() -> ValueType {
        ValueType::U32
    }

    open spec fn models(&self, m: ValueModel) -> bool {
        m == ValueModel::U32(*self)
    }

    fn decode_binary(input: &'a [u8]) -> (r: Result<Self, DecodeError>) {
        match decode_dynamic(&ValueType::U32, input) {
            Ok(DynamicValue::U32(x)) => Ok(x),
            Ok(_) => Err(DecodeError::InvalidData),
            Err(e) => Err(e),
        }
    }
}

impl<'a> SchemaValue<'a> for u64 {
    open spec fn schema_type() -> ValueType {
        ValueType::U64
    }

    open spec fn models(&self, m: ValueModel) -> bool {
        m == ValueModel::U64(*self)
    }

    fn decode_binary(input: &'a [u8]) -> (r: Result<Self, DecodeError>) {
        match decode_dynamic(&ValueType::U64, input) {
            Ok(DynamicValue::U64(x)) => Ok(x),
            Ok(_) => Err(DecodeError::InvalidData),
            Err(e) => Err(e),
        }
    }
}

impl<'a> SchemaValue<'a> for u128 {
    open spec fn schema_type() -> ValueType {
        ValueType::U128
    }

    open spec fn models(&self, m: ValueModel) -> bool {
        m == ValueModel::U128(*self)
    }

    fn decode_binary(input: &'a [u8]) -> (r: Result<Self, DecodeError>) {
        match decode_dynamic(&ValueType::U128, input) {
            Ok(DynamicValue::U128(x)) => Ok(x),
            Ok(_) => Err(DecodeError::InvalidData),
            Err(e) => Err(e),
        }
    }
}

impl<'a> SchemaValue<'a> for i8 {
    open spec fn schema_type() -> ValueType {
        ValueType::I8
    }

    open spec fn models(&self, m: ValueModel) -> bool {
        m == ValueModel::I8(*self)
    }

    fn decode_binary(input: &'a [u8]) -> (r: Result<Self, DecodeError>) {
        match decode_dynamic(&ValueType::I8, input) {
            Ok(DynamicValue::I8(x)) => Ok(x),
            Ok(_) => Err(DecodeError::InvalidData),
            Err(e) => Err(e),
        }
    }
}

impl<'a> SchemaValue<'a> for i16 {
    open spec fn schema_type() -> ValueType {
        ValueType::I16
    }

    open spec fn models(&self, m: ValueModel) -> bool {
        m == ValueModel::I16(*self)
    }

    fn decode_binary(input: &'a [u8]) -> (r: Result<Self, DecodeError>) {
        match decode_dynamic(&ValueType::I16, input) {
            Ok(DynamicValue::I16(x)) => Ok(x),
            Ok(_) => Err(DecodeError::InvalidData),
            Err(e) => Err(e),
        }
    }
}

impl<'a> SchemaValue<'a> for i32 {
    open spec fn schema_type() -> ValueType {
        ValueType::I32
    }

    open spec fn models(&self, m: ValueModel) -> bool {
        m == ValueModel::I32(*self)
    }

    fn decode_binary(input: &'a [u8]) -> (r: Result<Self, DecodeError>) {
        match decode_dynamic(&ValueType::I32, input) {
            Ok(DynamicValue::I32(x)) => Ok(x),
            Ok(_) => Err(DecodeError::InvalidData),
            Err(e) => Err(e),
        }
    }
}

impl<'a> SchemaValue<'a> for i64 {
    open spec fn schema_type() -> ValueType {
        ValueType::I64
    }

    open spec fn models(&self, m: ValueModel) -> bool {
        m == ValueModel::I64(*self)
    }

    fn decode_binary(input: &'a [u8]) -> (r: Result<Self, DecodeError>) {
        match decode_dynamic(&ValueType::I64, input) {
            Ok(DynamicValue::I64(x)) => Ok(x),
            Ok(_) => Err(DecodeError::InvalidData),
            Err(e) => Err(e),
        }
    }
}

impl<'a> SchemaValue<'a> for i128 {
    open spec fn schema_type() -> ValueType {
        ValueType::I128
    }

    open spec fn models(&self, m: ValueModel) -> bool {
        m == ValueModel::I128(*self)
    }

    fn decode_binary(input: &'a [u8]) -> (r: Result<Self, DecodeError>) {
        match decode_dynamic(&ValueType::I128, input) {
            Ok(DynamicValue::I128(x)) => Ok(x),
            Ok(_) => Err(DecodeError::InvalidData),
            Err(e) => Err(e),
        }
    }
}

impl<'a> SchemaValue<'a> for bool {
    open spec fn schema_type() -> ValueType {
        ValueType::Bool
    }

    open spec fn models(&self, m: ValueModel) -> bool {
        m == ValueModel::Bool(*self)
    }

    fn decode_binary(input: &'a [u8]) -> (r: Result<Self, DecodeError>) {
        match decode_dynamic(&ValueType::Bool, input) {
            Ok(DynamicValue::Bool(x)) => Ok(x),
            Ok(_) => Err(DecodeError::InvalidData),
            Err(e) => Err(e),
        }
    }
}

impl<'a> SchemaValue<'a> for String {
    open spec fn schema_type() -> ValueType {
        ValueType::Str
    }

    open spec fn models(&self, m: ValueModel) -> bool {
        m == ValueModel::Str(self@)
    }

    fn decode_binary(input: &'a [u8]) -> (r: Result<Self, DecodeError>) {
        match decode_dynamic(&ValueType::Str, input) {
            Ok(DynamicValue::Str(x)) => Ok(x),
            Ok(_) => Err(DecodeError::InvalidData),
            Err(e) => Err(e),
        }
    }
}

impl<'a> SchemaValue<'a> for &'a str {
    open spec fn schema_type() -> ValueType {
        ValueType::Str
    }

    open spec fn models(&self, m: ValueModel) -> bool {
        m == ValueModel::Str((*self)@)
    }

    fn decode_binary(input: &'a [u8]) -> (r: Result<Self, DecodeError>) {
        proof {
            assert(input@.subrange(0, input@.len() as int) =~= input@);
        }
        match str_from_utf8(input) {
            Some(s) => Ok(s),
            None => Err(DecodeError::InvalidData),
        }
    }
}

impl<'a> SchemaValue<'a> for Vec<u8> {
    open spec fn schema_type() -> ValueType {
        ValueType::Bytes
    }

    open spec fn models(&self, m: ValueModel) -> bool {
        m == ValueModel::Bytes(self@)
    }

    fn decode_binary(input: &'a [u8]) -> (r: Result<Self, DecodeError>) {
        match decode_dynamic(&ValueType::Bytes, input) {
            Ok(DynamicValue::Bytes(x)) => Ok(x),
            Ok(_) => Err(DecodeError::InvalidData),
            Err(e) => Err(e),
        }
    }
}

/// Computes the size of binary encodings without writing them.
pub struct EncodeSizer {
    /// The number of bytes counted so far.
    pub size: usize,
}

impl EncodeSizer {
    /// Counts the encoding of a `u8`.
    pub fn encode_u8(&mut self, x: u8) -> (r: Result<(), EncodeError>)
        requires
            old(self).size + 1 <= usize::MAX,
        ensures
            r is Ok,
            final(self).size == old(self).size + enc_out(ValueModel::U8(x)).len(),
    {
        self.size = self.size + 1;
        Ok(())
    }

    /// Counts the encoding of a `u16`.
    pub fn encode_u16(&mut self, x: u16) -> (r: Result<(), EncodeError>)
        requires
            old(self).size + 2 <= usize::MAX,
        ensures
            r is Ok,
            final(self).size == old(self).size + enc_out(ValueModel::U16(x)).len(),
    {
        proof { vstd::bytes::lemma_auto_spec_u16_to_from_le_bytes(); }
        self.size = self.size + 2;
        Ok(())
    }

    /// Counts the encoding of a `u32`.
    pub fn encode_u32(&mut self, x: u32) -> (r: Result<(), EncodeError>)
        requires
            old(self).size + 4 <= usize::MAX,
        ensures
            r is Ok,
            final(self).size == old(self).size + enc_out(ValueModel::U32(x)).len(),
    {
        proof { vstd::bytes::lemma_auto_spec_u32_to_from_le_bytes(); }
        self.size = self.size + 4;
        Ok(())
    }

    /// Counts the encoding of a `u64`.
    pub fn encode_u64(&mut self, x: u64) -> (r: Result<(), EncodeError>)
        requires
            old(self).size + 8 <= usize::MAX,
        ensures
            r is Ok,
            final(self).size == old(self).size + enc_out(ValueModel::U64(x)).len(),
    {
        proof { vstd::bytes::lemma_auto_spec_u64_to_from_le_bytes(); }
        self.size = self.size + 8;
        Ok(())
    }

    /// Counts the encoding of a `u128`.
    pub fn encode_u128(&mut self, x: u128) -> (r: Result<(), EncodeError>)
        requires
            old(self).size + 16 <= usize::MAX,
        ensures
            r is Ok,
            final(self).size == old(self).size + enc_out(ValueModel::U128(x)).len(),
    {
        proof { vstd::bytes::lemma_auto_spec_u128_to_from_le_bytes(); }
        self.size = self.size + 16;
        Ok(())
    }

    /// Counts the encoding of an `i8`.
    pub fn encode_i8(&mut self, x: i8) -> (r: Result<(), EncodeError>)
        requires
            old(self).size + 1 <= usize::MAX,
        ensures
            r is Ok,
            final(self).size == old(self).size + enc_out(ValueModel::I8(x)).len(),
    {
        self.size = self.size + 1;
        Ok(())
    }

    /// Counts the encoding of an `i16`.
    pub fn encode_i16(&mut self, x: i16) -> (r: Result<(), EncodeError>)
        requires
            old(self).size + 2 <= usize::MAX,
        ensures
            r is Ok,
            final(self).size == old(self).size + enc_out(ValueModel::I16(x)).len(),
    {
        proof { vstd::bytes::lemma_auto_spec_u16_to_from_le_bytes(); }
        self.size = self.size + 2;
        Ok(())
    }

    /// Counts the encoding of an `i32`.
    pub fn encode_i32(&mut self, x: i32) -> (r: Result<(), EncodeError>)
        requires
            old(self).size + 4 <= usize::MAX,
        ensures
            r is Ok,
            final(self).size == old(self).size + enc_out(ValueModel::I32(x)).len(),
    {
        proof { vstd::bytes::lemma_auto_spec_u32_to_from_le_bytes(); }
        self.size = self.size + 4;
        Ok(())
    }

    /// Counts the encoding of an `i64`.
    pub fn encode_i64(&mut self, x: i64) -> (r: Result<(), EncodeError>)
        requires
            old(self).size + 8 <= usize::MAX,
        ensures
            r is Ok,
            final(self).size == old(self).size + enc_out(ValueModel::I64(x)).len(),
    {
        proof { vstd::bytes::lemma_auto_spec_u64_to_from_le_bytes(); }
        self.size = self.size + 8;
        Ok(())
    }

    /// Counts the encoding of an `i128`.
    pub fn encode_i128(&mut self, x: i128) -> (r: Result<(), EncodeError>)
        requires
            old(self).size + 16 <= usize::MAX,
        ensures
            r is Ok,
            final(self).size == old(self).size + enc_out(ValueModel::I128(x)).len(),
    {
        proof { vstd::bytes::lemma_auto_spec_u128_to_from_le_bytes(); }
        self.size = self.size + 16;
        Ok(())
    }

    /// Counts the encoding of a `bool`.
    pub fn encode_bool(&mut self, x: bool) -> (r: Result<(), EncodeError>)
        requires
            old(self).size + 1 <= usize::MAX,
        ensures
            r is Ok,
            final(self).size == old(self).size + enc_out(ValueModel::Bool(x)).len(),
    {
        self.size = self.size + 1;
        Ok(())
    }

    /// Counts the encoding of a string at the top level.
    pub fn encode_str(&mut self, x: &str) -> (r: Result<(), EncodeError>)
        requires
            old(self).size + enc_out(ValueModel::Str(x@)).len() <= usize::MAX,
        ensures
            r is Ok,
            final(self).size == old(self).size + enc_out(ValueModel::Str(x@)).len(),
    {
        self.size = self.size + x.as_bytes().len();
        Ok(())
    }

    /// Counts the encoding of bytes at the top level.
    pub fn encode_bytes(&mut self, x: &[u8]) -> (r: Result<(), EncodeError>)
        requires
            old(self).size + x@.len() <= usize::MAX,
        ensures
            r is Ok,
            final(self).size == old(self).size + enc_out(ValueModel::Bytes(x@)).len(),
    {
        self.size = self.size + x.len();
        Ok(())
    }

    /// Counts the top-level encoding of any value.
    pub fn encode_value(&mut self, v: &DynamicValue) -> (r: Result<(), EncodeError>)
        requires
            old(self).size + enc_out(v@).len() <= usize::MAX,
        ensures
            r is Ok,
            final(self).size == old(self).size + enc_out(v@).len(),
    {
        let n = size_out(v);
        self.size = self.size + n;
        Ok(())
    }
}

} // verus!
