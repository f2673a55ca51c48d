//! Metadata value types and parsed metadata values.
use vstd::prelude::*;

verus! {

/// Metadata value type ids from the GGUF spec.
#[derive(Debug, Clone, Copy, PartialEq, Eq, Structural)]
pub enum GgufValueType {
    U8,
    I8,
    U16,
    I16,
    U32,
    I32,
    F32,
    Bool,
    Str,
    Array,
    U64,
    I64,
    F64,
}

/// The value type that an id names, if any.
pub open spec fn value_type_of_id(id: u32) -> Option<GgufValueType> {
    if id == 0 { Some(GgufValueType::U8) }
    else if id == 1 { Some(GgufValueType::I8) }
    else if id == 2 { Some(GgufValueType::U16) }
    else if id == 3 { Some(GgufValueType::I16) }
    else if id == 4 { Some(GgufValueType::U32) }
    else if id == 5 { Some(GgufValueType::I32) }
    else if id == 6 { Some(GgufValueType::F32) }
    else if id == 7 { Some(GgufValueType::Bool) }
    else if id == 8 { Some(GgufValueType::Str) }
    else if id == 9 { Some(GgufValueType::Array) }
    else if id == 10 { Some(GgufValueType::U64) }
    else if id == 11 { Some(GgufValueType::I64) }
    else if id == 12 { Some(GgufValueType::F64) }
    else { None }
}

/// Width in bytes of one element of a fixed-width value type.
pub open spec fn fixed_width_of(t: GgufValueType) -> Option<u64> {
    match t {
        GgufValueType::U8 | GgufValueType::I8 | GgufValueType::Bool => Some(1),
        GgufValueType::U16 | GgufValueType::I16 => Some(2),
        GgufValueType::U32 | GgufValueType::I32 | GgufValueType::F32 => Some(4),
        GgufValueType::U64 | GgufValueType::I64 | GgufValueType::F64 => Some(8),
        GgufValueType::Str | GgufValueType::Array => None,
    }
}

impl GgufValueType {
    /// The value type named by `id`; `None` for ids outside the spec.
    pub fn from_id(id: u32) -> (r: Option<Self>)
        ensures
            r == value_type_of_id(id),
    {
        match id {
            0 => Some(Self::U8),
            1 => Some(Self::I8),
            2 => Some(Self::U16),
            3 => Some(Self::I16),
            4 => Some(Self::U32),
            5 => Some(Self::I32),
            6 => Some(Self::F32),
            7 => Some(Self::Bool),
            8 => Some(Self::Str),
            9 => Some(Self::Array),
            10 => Some(Self::U64),
            11 => Some(Self::I64),
            12 => Some(Self::F64),
            _ => None,
        }
    }

    pub fn fixed_width(self) -> (r: Option<u64>)
        ensures
            r == fixed_width_of(self),
    {
        match self {
            Self::U8 | Self::I8 | Self::Bool => Some(1),
            Self::U16 | Self::I16 => Some(2),
            Self::U32 | Self::I32 | Self::F32 => Some(4),
            Self::U64 | Self::I64 | Self::F64 => Some(8),
            Self::Str | Self::Array => None,
        }
    }
}

/// A parsed metadata value. Array payloads are not materialized: only their
/// element type and length are kept. Floating-point values are kept as the
/// IEEE-754 bit patterns that the file stores.
#[derive(Debug, Clone, PartialEq)]
pub enum GgufValue {
    U8(u8),
    I8(i8),
    U16(u16),
    I16(i16),
    U32(u32),
    I32(i32),
    U64(u64),
    I64(i64),
    F32(u32),
    F64(u64),
    Bool(bool),
    Str(String),
    Array { elem_type: GgufValueType, len: u64 },
}

/// Mathematical view of a metadata value: strings become character sequences.
pub enum ValueView {
    U8(u8),
    I8(i8),
    U16(u16),
    I16(i16),
    U32(u32),
    I32(i32),
    U64(u64),
    I64(i64),
    F32(u32),
    F64(u64),
    Bool(bool),
    Str(Seq<char>),
    Array { elem_type: GgufValueType, len: u64 },
}

impl View for GgufValue {
    type V = ValueView;

    open spec fn view(&self) -> ValueView {
        match self {
            GgufValue::U8(v) => ValueView::U8(*v),
            GgufValue::I8(v) => ValueView::I8(*v),
            GgufValue::U16(v) => ValueView::U16(*v),
            GgufValue::I16(v) => ValueView::I16(*v),
            GgufValue::U32(v) => ValueView::U32(*v),
            GgufValue::I32(v) => ValueView::I32(*v),
            GgufValue::U64(v) => ValueView::U64(*v),
            GgufValue::I64(v) => ValueView::I64(*v),
            GgufValue::F32(v) => ValueView::F32(*v),
            GgufValue::F64(v) => ValueView::F64(*v),
            GgufValue::Bool(v) => ValueView::Bool(*v),
            GgufValue::Str(s) => ValueView::Str(s@),
            GgufValue::Array { elem_type, len } => ValueView::Array {
                elem_type: *elem_type,
                len: *len,
            },
        }
    }
}

/// Unsigned reading of a value: unsigned ints and booleans, and signed ints
/// that are not negative.
pub open spec fn value_as_u64(v: ValueView) -> Option<u64> {
    match v {
        ValueView::U8(x) => Some(x as u64),
        ValueView::U16(x) => Some(x as u64),
        ValueView::U32(x) => Some(x as u64),
        ValueView::U64(x) => Some(x),
        ValueView::Bool(x) => Some(if x { 1u64 } else { 0u64 }),
        ValueView::I8(x) => if x >= 0 { Some(x as u64) } else { None },
        ValueView::I16(x) => if x >= 0 { Some(x as u64) } else { None },
        ValueView::I32(x) => if x >= 0 { Some(x as u64) } else { None },
        ValueView::I64(x) => if x >= 0 { Some(x as u64) } else { None },
        _ => None,
    }
}

/// Signed reading of a value: signed ints, and unsigned ints up to `i64::MAX`.
pub open spec fn value_as_i64(v: ValueView) -> Option<i64> {
    match v {
        ValueView::I8(x) => Some(x as i64),
        ValueView::I16(x) => Some(x as i64),
        ValueView::I32(x) => Some(x as i64),
        ValueView::I64(x) => Some(x),
        ValueView::U8(x) => Some(x as i64),
        ValueView::U16(x) => Some(x as i64),
        ValueView::U32(x) => Some(x as i64),
        ValueView::U64(x) => if x <= i64::MAX { Some(x as i64) } else { None },
        _ => None,
    }
}

/// The characters of a string value.
pub open spec fn value_as_str(v: ValueView) -> Option<Seq<char>> {
    match v {
        ValueView::Str(s) => Some(s),
        _ => None,
    }
}

impl GgufValue {
    /// Unsigned view. Accepts non-negative signed ints too: some writers
    /// emit `attention.head_count` and friends as INT32.
    pub fn as_u64(&self) -> (r: Option<u64>)
        ensures
            r == value_as_u64(self@),
    {
        match self {
            Self::U8(v) => Some(*v as u64),
            Self::U16(v) => Some(*v as u64),
            Self::U32(v) => Some(*v as u64),
            Self::U64(v) => Some(*v),
            Self::Bool(v) => Some(if *v { 1 } else { 0 }),
            Self::I8(v) => if *v >= 0 { Some(*v as u64) } else { None },
            Self::I16(v) => if *v >= 0 { Some(*v as u64) } else { None },
            Self::I32(v) => if *v >= 0 { Some(*v as u64) } else { None },
            Self::I64(v) => if *v >= 0 { Some(*v as u64) } else { None },
            _ => None,
        }
    }

    pub fn as_i64(&self) -> (r: Option<i64>)
        ensures
            r == value_as_i64(self@),
    {
        match self {
            Self::I8(v) => Some(*v as i64),
            Self::I16(v) => Some(*v as i64),
            Self::I32(v) => Some(*v as i64),
            Self::I64(v) => Some(*v),
            Self::U8(v) => Some(*v as i64),
            Self::U16(v) => Some(*v as i64),
            Self::U32(v) => Some(*v as i64),
            Self::U64(v) => if *v <= 0x7fff_ffff_ffff_ffffu64 { Some(*v as i64) } else { None },
            _ => None,
        }
    }

    pub fn as_str(&self) -> (r: Option<&str>)
        ensures
            r matches Some(s) ==> value_as_str(self@) == Some(s@),
            r is None <==> value_as_str(self@) is None,
    {
        match self {
            Self::Str(s) => Some(s.as_str()),
            _ => None,
        }
    }
}

/// The stored bit pattern of a floating-point metadata value.
#[derive(Debug, Clone, Copy, PartialEq, Eq, Structural)]
pub enum FloatBits {
    F32(u32),
    F64(u64),
}

/// Floating-point reading of a value: only float values have one.
pub open spec fn value_as_float_bits(v: ValueView) -> Option<FloatBits> {
    match v {
        ValueView::F32(x) => Some(FloatBits::F32(x)),
        ValueView::F64(x) => Some(FloatBits::F64(x)),
        _ => None,
    }
}

impl GgufValue {
    /// Bit pattern of a floating-point value; `None` for every other type.
    pub fn float_bits(&self) -> (r: Option<FloatBits>)
        ensures
            r == value_as_float_bits(self@),
    {
        match self {
            Self::F32(v) => Some(FloatBits::F32(*v)),
            Self::F64(v) => Some(FloatBits::F64(*v)),
            _ => None,
        }
    }
}

} // verus!
