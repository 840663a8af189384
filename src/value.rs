//! Decoded field values and their mathematical view.

use vstd::prelude::*;

verus! {

/// The wire width and signedness of a decoded number.
#[derive(Clone, Copy, Debug, PartialEq, Eq, Structural)]
pub enum ValueKind {
    S8,
    U8,
    S16,
    U16,
    S32,
    U32,
    S64,
    U64,
    /// A 32-bit float, held as its bit pattern.
    F32,
    /// A 64-bit float, held as its bit pattern.
    F64,
}

/// What a [`Value`] holds, as mathematical values.
pub enum ValueView {
    Invalid,
    Text(Seq<char>),
    Enum(Seq<u8>),
    Scalar(ValueKind, int),
    Array(ValueKind, Seq<int>),
}

/// A decoded field value. Floating-point values are kept as their raw bit patterns,
/// which is also how the format marks them invalid.
#[derive(Clone, Debug, PartialEq)]
pub enum Value {
    EnumValue(Vec<u8>),
    NumberValueS8(i8),
    NumberValueU8(u8),
    NumberValueS16(i16),
    NumberValueU16(u16),
    NumberValueS32(i32),
    NumberValueU32(u32),
    StringValue(String),
    NumberValueS64(i64),
    NumberValueU64(u64),
    NumberValueF32(u32),
    NumberValueF64(u64),
    NumberValueVecS8(Vec<i8>),
    NumberValueVecU8(Vec<u8>),
    NumberValueVecS16(Vec<i16>),
    NumberValueVecU16(Vec<u16>),
    NumberValueVecS32(Vec<i32>),
    NumberValueVecU32(Vec<u32>),
    NumberValueVecS64(Vec<i64>),
    NumberValueVecU64(Vec<u64>),
    NumberValueVecF32(Vec<u32>),
    NumberValueVecF64(Vec<u64>),
    Invalid,
}

impl View for Value {
    type V = ValueView;

    open spec fn view(&self) -> ValueView {
        match self {
            Value::EnumValue(v) => ValueView::Enum(v@),
            Value::NumberValueS8(x) => ValueView::Scalar(ValueKind::S8, *x as int),
            Value::NumberValueU8(x) => ValueView::Scalar(ValueKind::U8, *x as int),
            Value::NumberValueS16(x) => ValueView::Scalar(ValueKind::S16, *x as int),
            Value::NumberValueU16(x) => ValueView::Scalar(ValueKind::U16, *x as int),
            Value::NumberValueS32(x) => ValueView::Scalar(ValueKind::S32, *x as int),
            Value::NumberValueU32(x) => ValueView::Scalar(ValueKind::U32, *x as int),
            Value::StringValue(s) => ValueView::Text(s@),
            Value::NumberValueS64(x) => ValueView::Scalar(ValueKind::S64, *x as int),
            Value::NumberValueU64(x) => ValueView::Scalar(ValueKind::U64, *x as int),
            Value::NumberValueF32(x) => ValueView::Scalar(ValueKind::F32, *x as int),
            Value::NumberValueF64(x) => ValueView::Scalar(ValueKind::F64, *x as int),
            Value::NumberValueVecS8(v) => ValueView::Array(ValueKind::S8, v@.map_values(|x: i8| x as int)),
            Value::NumberValueVecU8(v) => ValueView::Array(ValueKind::U8, v@.map_values(|x: u8| x as int)),
            Value::NumberValueVecS16(v) => ValueView::Array(ValueKind::S16, v@.map_values(|x: i16| x as int)),
            Value::NumberValueVecU16(v) => ValueView::Array(ValueKind::U16, v@.map_values(|x: u16| x as int)),
            Value::NumberValueVecS32(v) => ValueView::Array(ValueKind::S32, v@.map_values(|x: i32| x as int)),
            Value::NumberValueVecU32(v) => ValueView::Array(ValueKind::U32, v@.map_values(|x: u32| x as int)),
            Value::NumberValueVecS64(v) => ValueView::Array(ValueKind::S64, v@.map_values(|x: i64| x as int)),
            Value::NumberValueVecU64(v) => ValueView::Array(ValueKind::U64, v@.map_values(|x: u64| x as int)),
            Value::NumberValueVecF32(v) => ValueView::Array(ValueKind::F32, v@.map_values(|x: u32| x as int)),
            Value::NumberValueVecF64(v) => ValueView::Array(ValueKind::F64, v@.map_values(|x: u64| x as int)),
            Value::Invalid => ValueView::Invalid,
        }
    }
}

impl Value {
    /// Whether this is the marker for a field whose bytes held the invalid sentinel.
    pub fn is_invalid(&self) -> (r: bool)
        ensures
            r == (self@ == ValueView::Invalid),
    {
        match self {
            Value::Invalid => true,
            _ => false,
        }
    }
}

} // verus!
