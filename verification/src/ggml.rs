//! ggml tensor element types, their ids and their block layouts.
use vstd::prelude::*;

use crate::text::{decimal, push_decimal};

verus! {

/// ggml tensor element types, with the ids the format assigns them.
#[derive(Debug, Clone, Copy, PartialEq, Eq, Structural, Hash, PartialOrd, Ord)]
pub enum GgmlType {
    F32,
    F16,
    Q4_0,
    Q4_1,
    Q5_0,
    Q5_1,
    Q8_0,
    Q8_1,
    Q2K,
    Q3K,
    Q4K,
    Q5K,
    Q6K,
    Q8K,
    IQ2Xxs,
    IQ2Xs,
    IQ3Xxs,
    IQ1S,
    IQ4Nl,
    IQ3S,
    IQ2S,
    IQ4Xs,
    I8,
    I16,
    I32,
    I64,
    F64,
    IQ1M,
    BF16,
    TQ1_0,
    TQ2_0,
    MxFp4,
    NvFp4,
    Q1_0,
    Q2_0,
    Unknown(u32),
}

/// The type that a ggml id names; ids without a known type stay `Unknown`.
pub open spec fn type_of_id(id: u32) -> GgmlType {
    if id == 0 { GgmlType::F32 }
    else if id == 1 { GgmlType::F16 }
    else if id == 2 { GgmlType::Q4_0 }
    else if id == 3 { GgmlType::Q4_1 }
    else if id == 6 { GgmlType::Q5_0 }
    else if id == 7 { GgmlType::Q5_1 }
    else if id == 8 { GgmlType::Q8_0 }
    else if id == 9 { GgmlType::Q8_1 }
    else if id == 10 { GgmlType::Q2K }
    else if id == 11 { GgmlType::Q3K }
    else if id == 12 { GgmlType::Q4K }
    else if id == 13 { GgmlType::Q5K }
    else if id == 14 { GgmlType::Q6K }
    else if id == 15 { GgmlType::Q8K }
    else if id == 16 { GgmlType::IQ2Xxs }
    else if id == 17 { GgmlType::IQ2Xs }
    else if id == 18 { GgmlType::IQ3Xxs }
    else if id == 19 { GgmlType::IQ1S }
    else if id == 20 { GgmlType::IQ4Nl }
    else if id == 21 { GgmlType::IQ3S }
    else if id == 22 { GgmlType::IQ2S }
    else if id == 23 { GgmlType::IQ4Xs }
    else if id == 24 { GgmlType::I8 }
    else if id == 25 { GgmlType::I16 }
    else if id == 26 { GgmlType::I32 }
    else if id == 27 { GgmlType::I64 }
    else if id == 28 { GgmlType::F64 }
    else if id == 29 { GgmlType::IQ1M }
    else if id == 30 { GgmlType::BF16 }
    else if id == 34 { GgmlType::TQ1_0 }
    else if id == 35 { GgmlType::TQ2_0 }
    else if id == 39 { GgmlType::MxFp4 }
    else if id == 40 { GgmlType::NvFp4 }
    else if id == 41 { GgmlType::Q1_0 }
    else if id == 42 { GgmlType::Q2_0 }
    else { GgmlType::Unknown(id) }
}

/// The ggml id of a type.
pub open spec fn id_of_type(t: GgmlType) -> u32 {
    match t {
        GgmlType::F32 => 0,
        GgmlType::F16 => 1,
        GgmlType::Q4_0 => 2,
        GgmlType::Q4_1 => 3,
        GgmlType::Q5_0 => 6,
        GgmlType::Q5_1 => 7,
        GgmlType::Q8_0 => 8,
        GgmlType::Q8_1 => 9,
        GgmlType::Q2K => 10,
        GgmlType::Q3K => 11,
        GgmlType::Q4K => 12,
        GgmlType::Q5K => 13,
        GgmlType::Q6K => 14,
        GgmlType::Q8K => 15,
        GgmlType::IQ2Xxs => 16,
        GgmlType::IQ2Xs => 17,
        GgmlType::IQ3Xxs => 18,
        GgmlType::IQ1S => 19,
        GgmlType::IQ4Nl => 20,
        GgmlType::IQ3S => 21,
        GgmlType::IQ2S => 22,
        GgmlType::IQ4Xs => 23,
        GgmlType::I8 => 24,
        GgmlType::I16 => 25,
        GgmlType::I32 => 26,
        GgmlType::I64 => 27,
        GgmlType::F64 => 28,
        GgmlType::IQ1M => 29,
        GgmlType::BF16 => 30,
        GgmlType::TQ1_0 => 34,
        GgmlType::TQ2_0 => 35,
        GgmlType::MxFp4 => 39,
        GgmlType::NvFp4 => 40,
        GgmlType::Q1_0 => 41,
        GgmlType::Q2_0 => 42,
        GgmlType::Unknown(id) => id,
    }
}


/// `(block_size, type_size_bytes)` for each type with a layout entry.
pub open spec fn layout_of(t: GgmlType) -> Option<(u64, u64)> {
    match t {
        GgmlType::F32 | GgmlType::I32 => Some((1, 4)),
        GgmlType::F64 | GgmlType::I64 => Some((1, 8)),
        GgmlType::I16 | GgmlType::F16 | GgmlType::BF16 => Some((1, 2)),
        GgmlType::I8 => Some((1, 1)),
        GgmlType::Q4_0 | GgmlType::IQ4Nl => Some((32, 18)),
        GgmlType::Q4_1 => Some((32, 20)),
        GgmlType::Q5_0 => Some((32, 22)),
        GgmlType::Q5_1 => Some((32, 24)),
        GgmlType::Q8_0 => Some((32, 34)),
        GgmlType::Q8_1 => Some((32, 36)),
        GgmlType::MxFp4 => Some((32, 17)),
        GgmlType::Q1_0 => Some((128, 18)),
        GgmlType::NvFp4 => Some((64, 36)),
        GgmlType::Q2_0 => Some((64, 18)),
        GgmlType::Q2K => Some((256, 84)),
        GgmlType::Q3K => Some((256, 110)),
        GgmlType::Q4K => Some((256, 144)),
        GgmlType::Q5K => Some((256, 176)),
        GgmlType::Q6K => Some((256, 210)),
        GgmlType::Q8K => Some((256, 292)),
        GgmlType::IQ2Xxs => Some((256, 66)),
        GgmlType::IQ2Xs => Some((256, 74)),
        GgmlType::IQ3Xxs => Some((256, 98)),
        GgmlType::IQ1S => Some((256, 50)),
        GgmlType::IQ3S => Some((256, 110)),
        GgmlType::IQ2S => Some((256, 82)),
        GgmlType::IQ4Xs => Some((256, 136)),
        GgmlType::IQ1M => Some((256, 56)),
        GgmlType::TQ1_0 => Some((256, 54)),
        GgmlType::TQ2_0 => Some((256, 66)),
        GgmlType::Unknown(_) => None,
    }
}

/// Number of blocks needed for `elements` elements (rounded up).
pub open spec fn blocks_for(elements: nat, block_size: nat) -> nat
    recommends
        block_size > 0,
{
    ((elements + block_size - 1) / (block_size as int)) as nat
}

/// Exact stored bytes of `elements` elements of type `t`, unbounded.
pub open spec fn nbytes_of(t: GgmlType, elements: nat) -> Option<nat> {
    match layout_of(t) {
        Some((bs, ts)) => Some(blocks_for(elements, bs as nat) * (ts as nat)),
        None => None,
    }
}

/// Canonical ggml name of a type.
pub open spec fn label_of(t: GgmlType) -> Seq<char> {
    match t {
        GgmlType::F32 => "F32"@,
        GgmlType::F16 => "F16"@,
        GgmlType::Q4_0 => "Q4_0"@,
        GgmlType::Q4_1 => "Q4_1"@,
        GgmlType::Q5_0 => "Q5_0"@,
        GgmlType::Q5_1 => "Q5_1"@,
        GgmlType::Q8_0 => "Q8_0"@,
        GgmlType::Q8_1 => "Q8_1"@,
        GgmlType::Q2K => "Q2_K"@,
        GgmlType::Q3K => "Q3_K"@,
        GgmlType::Q4K => "Q4_K"@,
        GgmlType::Q5K => "Q5_K"@,
        GgmlType::Q6K => "Q6_K"@,
        GgmlType::Q8K => "Q8_K"@,
        GgmlType::IQ2Xxs => "IQ2_XXS"@,
        GgmlType::IQ2Xs => "IQ2_XS"@,
        GgmlType::IQ3Xxs => "IQ3_XXS"@,
        GgmlType::IQ1S => "IQ1_S"@,
        GgmlType::IQ4Nl => "IQ4_NL"@,
        GgmlType::IQ3S => "IQ3_S"@,
        GgmlType::IQ2S => "IQ2_S"@,
        GgmlType::IQ4Xs => "IQ4_XS"@,
        GgmlType::I8 => "I8"@,
        GgmlType::I16 => "I16"@,
        GgmlType::I32 => "I32"@,
        GgmlType::I64 => "I64"@,
        GgmlType::F64 => "F64"@,
        GgmlType::IQ1M => "IQ1_M"@,
        GgmlType::BF16 => "BF16"@,
        GgmlType::TQ1_0 => "TQ1_0"@,
        GgmlType::TQ2_0 => "TQ2_0"@,
        GgmlType::MxFp4 => "MXFP4"@,
        GgmlType::NvFp4 => "NVFP4"@,
        GgmlType::Q1_0 => "Q1_0"@,
        GgmlType::Q2_0 => "Q2_0"@,
        GgmlType::Unknown(id) => "UNKNOWN("@ + decimal(id as nat) + ")"@,
    }
}

/// Position of a type in declaration order; the order in which a type map
/// keyed by `GgmlType` lists its entries.
pub open spec fn rank_of(t: GgmlType) -> int {
    match t {
        GgmlType::F32 => 0,
        GgmlType::F16 => 1,
        GgmlType::Q4_0 => 2,
        GgmlType::Q4_1 => 3,
        GgmlType::Q5_0 => 4,
        GgmlType::Q5_1 => 5,
        GgmlType::Q8_0 => 6,
        GgmlType::Q8_1 => 7,
        GgmlType::Q2K => 8,
        GgmlType::Q3K => 9,
        GgmlType::Q4K => 10,
        GgmlType::Q5K => 11,
        GgmlType::Q6K => 12,
        GgmlType::Q8K => 13,
        GgmlType::IQ2Xxs => 14,
        GgmlType::IQ2Xs => 15,
        GgmlType::IQ3Xxs => 16,
        GgmlType::IQ1S => 17,
        GgmlType::IQ4Nl => 18,
        GgmlType::IQ3S => 19,
        GgmlType::IQ2S => 20,
        GgmlType::IQ4Xs => 21,
        GgmlType::I8 => 22,
        GgmlType::I16 => 23,
        GgmlType::I32 => 24,
        GgmlType::I64 => 25,
        GgmlType::F64 => 26,
        GgmlType::IQ1M => 27,
        GgmlType::BF16 => 28,
        GgmlType::TQ1_0 => 29,
        GgmlType::TQ2_0 => 30,
        GgmlType::MxFp4 => 31,
        GgmlType::NvFp4 => 32,
        GgmlType::Q1_0 => 33,
        GgmlType::Q2_0 => 34,
        GgmlType::Unknown(id) => 35 + id,
    }
}

impl GgmlType {
    pub fn from_id(id: u32) -> (t: Self)
        ensures
            t == type_of_id(id),
    {
        match id {
            0 => Self::F32,
            1 => Self::F16,
            2 => Self::Q4_0,
            3 => Self::Q4_1,
            6 => Self::Q5_0,
            7 => Self::Q5_1,
            8 => Self::Q8_0,
            9 => Self::Q8_1,
            10 => Self::Q2K,
            11 => Self::Q3K,
            12 => Self::Q4K,
            13 => Self::Q5K,
            14 => Self::Q6K,
            15 => Self::Q8K,
            16 => Self::IQ2Xxs,
            17 => Self::IQ2Xs,
            18 => Self::IQ3Xxs,
            19 => Self::IQ1S,
            20 => Self::IQ4Nl,
            21 => Self::IQ3S,
            22 => Self::IQ2S,
            23 => Self::IQ4Xs,
            24 => Self::I8,
            25 => Self::I16,
            26 => Self::I32,
            27 => Self::I64,
            28 => Self::F64,
            29 => Self::IQ1M,
            30 => Self::BF16,
            34 => Self::TQ1_0,
            35 => Self::TQ2_0,
            39 => Self::MxFp4,
            40 => Self::NvFp4,
            41 => Self::Q1_0,
            42 => Self::Q2_0,
            other => Self::Unknown(other),
        }
    }

    pub fn id(self) -> (id: u32)
        ensures
            id == id_of_type(self),
    {
        match self {
            Self::F32 => 0,
            Self::F16 => 1,
            Self::Q4_0 => 2,
            Self::Q4_1 => 3,
            Self::Q5_0 => 6,
            Self::Q5_1 => 7,
            Self::Q8_0 => 8,
            Self::Q8_1 => 9,
            Self::Q2K => 10,
            Self::Q3K => 11,
            Self::Q4K => 12,
            Self::Q5K => 13,
            Self::Q6K => 14,
            Self::Q8K => 15,
            Self::IQ2Xxs => 16,
            Self::IQ2Xs => 17,
            Self::IQ3Xxs => 18,
            Self::IQ1S => 19,
            Self::IQ4Nl => 20,
            Self::IQ3S => 21,
            Self::IQ2S => 22,
            Self::IQ4Xs => 23,
            Self::I8 => 24,
            Self::I16 => 25,
            Self::I32 => 26,
            Self::I64 => 27,
            Self::F64 => 28,
            Self::IQ1M => 29,
            Self::BF16 => 30,
            Self::TQ1_0 => 34,
            Self::TQ2_0 => 35,
            Self::MxFp4 => 39,
            Self::NvFp4 => 40,
            Self::Q1_0 => 41,
            Self::Q2_0 => 42,
            Self::Unknown(id) => id,
        }
    }
    /// `(block_size, type_size_bytes)` from the ggml type traits table.
    /// `None` for ids unknown to this build.
    pub fn layout(self) -> (r: Option<(u64, u64)>)
        ensures
            r == layout_of(self),
    {
        match self {
            Self::F32 | Self::F16 | Self::BF16 | Self::I8 | Self::I16 | Self::I32 | Self::I64
            | Self::F64 => Some((1, Self::scalar_size(self))),
            Self::Q4_0 | Self::IQ4Nl => Some((32, 18)),
            Self::Q4_1 => Some((32, 20)),
            Self::Q5_0 => Some((32, 22)),
            Self::Q5_1 => Some((32, 24)),
            Self::Q8_0 => Some((32, 34)),
            Self::Q8_1 => Some((32, 36)),
            Self::MxFp4 => Some((32, 17)),
            Self::Q1_0 => Some((128, 18)),
            Self::NvFp4 => Some((64, 36)),
            Self::Q2_0 => Some((64, 18)),
            Self::Q2K => Some((256, 84)),
            Self::Q3K => Some((256, 110)),
            Self::Q4K => Some((256, 144)),
            Self::Q5K => Some((256, 176)),
            Self::Q6K => Some((256, 210)),
            Self::Q8K => Some((256, 292)),
            Self::IQ2Xxs => Some((256, 66)),
            Self::IQ2Xs => Some((256, 74)),
            Self::IQ3Xxs => Some((256, 98)),
            Self::IQ1S => Some((256, 50)),
            Self::IQ3S => Some((256, 110)),
            Self::IQ2S => Some((256, 82)),
            Self::IQ4Xs => Some((256, 136)),
            Self::IQ1M => Some((256, 56)),
            Self::TQ1_0 => Some((256, 54)),
            Self::TQ2_0 => Some((256, 66)),
            Self::Unknown(_) => None,
        }
    }

    fn scalar_size(self) -> (n: u64)
        ensures
            self == GgmlType::F32 || self == GgmlType::I32 ==> n == 4,
            self == GgmlType::F64 || self == GgmlType::I64 ==> n == 8,
            self == GgmlType::I16 ==> n == 2,
            self == GgmlType::I8 ==> n == 1,
            self == GgmlType::F16 || self == GgmlType::BF16 ==> n == 2,
    {
        match self {
            Self::F32 | Self::I32 => 4,
            Self::F64 | Self::I64 => 8,
            Self::I16 => 2,
            Self::I8 => 1,
            _ => 2,
        }
    }

    /// Exact stored bytes for `elements` logical elements, or `None` when the
    /// type has no layout entry in this build.
    pub fn nbytes_for(self, elements: u64) -> (r: Option<u64>)
        requires
            nbytes_of(self, elements as nat) matches Some(b) ==> b <= u64::MAX,
        ensures
            r matches Some(b) ==> nbytes_of(self, elements as nat) == Some(b as nat),
            r is None <==> nbytes_of(self, elements as nat) is None,
    {
        match self.layout() {
            Some((block_size, type_size)) => {
                let blocks = elements / block_size + if elements % block_size == 0 { 0 } else { 1 };
                proof {
                    lemma_blocks_for(elements as nat, block_size as nat);
                }
                Some(blocks * type_size)
            },
            None => None,
        }
    }

    /// Canonical ggml name ("Q4_K", "IQ2_XS", ...).
    pub fn label(self) -> (s: String)
        ensures
            s@ == label_of(self),
    {
        match self {
            Self::F32 => String::from_str("F32"),
            Self::F16 => String::from_str("F16"),
            Self::Q4_0 => String::from_str("Q4_0"),
            Self::Q4_1 => String::from_str("Q4_1"),
            Self::Q5_0 => String::from_str("Q5_0"),
            Self::Q5_1 => String::from_str("Q5_1"),
            Self::Q8_0 => String::from_str("Q8_0"),
            Self::Q8_1 => String::from_str("Q8_1"),
            Self::Q2K => String::from_str("Q2_K"),
            Self::Q3K => String::from_str("Q3_K"),
            Self::Q4K => String::from_str("Q4_K"),
            Self::Q5K => String::from_str("Q5_K"),
            Self::Q6K => String::from_str("Q6_K"),
            Self::Q8K => String::from_str("Q8_K"),
            Self::IQ2Xxs => String::from_str("IQ2_XXS"),
            Self::IQ2Xs => String::from_str("IQ2_XS"),
            Self::IQ3Xxs => String::from_str("IQ3_XXS"),
            Self::IQ1S => String::from_str("IQ1_S"),
            Self::IQ4Nl => String::from_str("IQ4_NL"),
            Self::IQ3S => String::from_str("IQ3_S"),
            Self::IQ2S => String::from_str("IQ2_S"),
            Self::IQ4Xs => String::from_str("IQ4_XS"),
            Self::I8 => String::from_str("I8"),
            Self::I16 => String::from_str("I16"),
            Self::I32 => String::from_str("I32"),
            Self::I64 => String::from_str("I64"),
            Self::F64 => String::from_str("F64"),
            Self::IQ1M => String::from_str("IQ1_M"),
            Self::BF16 => String::from_str("BF16"),
            Self::TQ1_0 => String::from_str("TQ1_0"),
            Self::TQ2_0 => String::from_str("TQ2_0"),
            Self::MxFp4 => String::from_str("MXFP4"),
            Self::NvFp4 => String::from_str("NVFP4"),
            Self::Q1_0 => String::from_str("Q1_0"),
            Self::Q2_0 => String::from_str("Q2_0"),
            Self::Unknown(id) => {
                let mut s = String::from_str("UNKNOWN(");
                push_decimal(&mut s, id as u64);
                s.append(")");
                s
            },
        }
    } 
}

/// Rounded-up block count, in the form the executable code computes it.
pub proof fn lemma_blocks_for(elements: nat, block_size: nat)
    requires
        block_size > 0,
    ensures
        blocks_for(elements, block_size) == elements / block_size + if elements % block_size == 0 {
            0nat
        } else {
            1nat
        },
{
    let q = elements / block_size;
    let r = elements % block_size;
    assert(elements == q * block_size + r) by (nonlinear_arith)
        requires block_size > 0, q == elements / block_size, r == elements % block_size;
    assert(0 <= r < block_size);
    let n = elements + block_size - 1;
    if r == 0 {
        assert(n == q * block_size + (block_size - 1));
        assert(n / (block_size as int) == q) by (nonlinear_arith)
            requires n == q * block_size + (block_size - 1), block_size > 0, q >= 0;
    } else {
        assert(n == (q + 1) * block_size + (r - 1)) by (nonlinear_arith)
            requires n == elements + block_size - 1, elements == q * block_size + r;
        assert(n / (block_size as int) == q + 1) by (nonlinear_arith)
            requires n == (q + 1) * block_size + (r - 1), block_size > 0, 0 <= r - 1 < block_size, q >= 0;
    }
}

/// Reading a type back from its id gives the id again, for every id.
pub proof fn lemma_id_of_type_of_id(id: u32)
    ensures
        id_of_type(type_of_id(id)) == id,
{
}

/// A type reads back from its id as itself, except an `Unknown` wrapping an
/// id that names a known type.
pub proof fn lemma_type_of_id_of_type(t: GgmlType)
    requires
        t matches GgmlType::Unknown(k) ==> type_of_id(k) == GgmlType::Unknown(k),
    ensures
        type_of_id(id_of_type(t)) == t,
{
}


/// The ggml type-traits table (gguf-py `GGML_QUANT_SIZES`): for each type,
/// the number of elements in one block and the bytes one block is stored in.
/// A K-quant block holds 256 weights, e.g. 176 bytes for Q5_K (5.5 bits a
/// weight) and 210 bytes for Q6_K (6.5625 bits a weight); unknown types have
/// no layout.
pub proof fn lemma_block_layout_table()
    ensures
        layout_of(GgmlType::F32) == Some((1u64, 4u64)),
        layout_of(GgmlType::I32) == Some((1u64, 4u64)),
        layout_of(GgmlType::F64) == Some((1u64, 8u64)),
        layout_of(GgmlType::I64) == Some((1u64, 8u64)),
        layout_of(GgmlType::I16) == Some((1u64, 2u64)),
        layout_of(GgmlType::F16) == Some((1u64, 2u64)),
        layout_of(GgmlType::BF16) == Some((1u64, 2u64)),
        layout_of(GgmlType::I8) == Some((1u64, 1u64)),
        layout_of(GgmlType::Q4_0) == Some((32u64, 18u64)),
        layout_of(GgmlType::IQ4Nl) == Some((32u64, 18u64)),
        layout_of(GgmlType::Q4_1) == Some((32u64, 20u64)),
        layout_of(GgmlType::Q5_0) == Some((32u64, 22u64)),
        layout_of(GgmlType::Q5_1) == Some((32u64, 24u64)),
        layout_of(GgmlType::Q8_0) == Some((32u64, 34u64)),
        layout_of(GgmlType::Q8_1) == Some((32u64, 36u64)),
        layout_of(GgmlType::MxFp4) == Some((32u64, 17u64)),
        layout_of(GgmlType::Q1_0) == Some((128u64, 18u64)),
        layout_of(GgmlType::NvFp4) == Some((64u64, 36u64)),
        layout_of(GgmlType::Q2_0) == Some((64u64, 18u64)),
        layout_of(GgmlType::Q2K) == Some((256u64, 84u64)),
        layout_of(GgmlType::Q3K) == Some((256u64, 110u64)),
        layout_of(GgmlType::Q4K) == Some((256u64, 144u64)),
        layout_of(GgmlType::Q5K) == Some((256u64, 176u64)),
        layout_of(GgmlType::Q6K) == Some((256u64, 210u64)),
        layout_of(GgmlType::Q8K) == Some((256u64, 292u64)),
        layout_of(GgmlType::IQ2Xxs) == Some((256u64, 66u64)),
        layout_of(GgmlType::IQ2Xs) == Some((256u64, 74u64)),
        layout_of(GgmlType::IQ3Xxs) == Some((256u64, 98u64)),
        layout_of(GgmlType::IQ1S) == Some((256u64, 50u64)),
        layout_of(GgmlType::IQ3S) == Some((256u64, 110u64)),
        layout_of(GgmlType::IQ2S) == Some((256u64, 82u64)),
        layout_of(GgmlType::IQ4Xs) == Some((256u64, 136u64)),
        layout_of(GgmlType::IQ1M) == Some((256u64, 56u64)),
        layout_of(GgmlType::TQ1_0) == Some((256u64, 54u64)),
        layout_of(GgmlType::TQ2_0) == Some((256u64, 66u64)),
        forall|id: u32| layout_of(GgmlType::Unknown(id)) is None,
{
}

/// Stored bytes grow block by block: `k` whole blocks of a type take `k`
/// times the bytes of one block, and one element more starts a new block.
pub proof fn lemma_bytes_per_whole_blocks(t: GgmlType, k: nat)
    requires
        layout_of(t) is Some,
        layout_of(t)->Some_0.0 > 0,
    ensures
        nbytes_of(t, k * (layout_of(t)->Some_0.0 as nat)) == Some(k * (layout_of(t)->Some_0.1 as nat)),
        nbytes_of(t, k * (layout_of(t)->Some_0.0 as nat) + 1) == Some((k + 1) * (layout_of(t)->Some_0.1 as nat)),
{
    let bs = layout_of(t)->Some_0.0 as nat;
    let n = k * bs + bs - 1;
    assert(n == k * bs + (bs - 1));
    assert(n / (bs as int) == k) by (nonlinear_arith)
        requires n == k * bs + (bs - 1), bs > 0;
    let m = k * bs + 1 + bs - 1;
    assert(m == (k + 1) * bs) by (nonlinear_arith)
        requires m == k * bs + 1 + bs - 1;
    assert(m / (bs as int) == k + 1) by (nonlinear_arith)
        requires m == (k + 1) * bs, bs > 0;
}

} // verus!
