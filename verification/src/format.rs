//! The GGUF header layout as a specification over bytes.
//!
//! Layout: magic `u32`, version `u32`, tensor and metadata counts
//! (`u64` since v2, `u32` in v1), typed metadata key/value pairs, then one
//! index record per tensor. All integers are little-endian; string lengths
//! follow the same width rule as the counts.
use vstd::prelude::*;

use crate::ggml::{GgmlType, type_of_id};
use crate::text::decimal;
use crate::value::{GgufValueType, ValueView, fixed_width_of, value_type_of_id};

verus! {

/// "GGUF" read as a little-endian `u32`.
pub const GGUF_MAGIC: u32 = 0x4655_4747;

/// Largest string payload (key, value or tensor name) the reader accepts.
pub const MAX_STRING_BYTES: u64 = 67108864;

/// Largest tensor rank the reader accepts.
pub const MAX_DIMS: u32 = 16;

/// Lossy UTF-8 decoding of a byte string (`String::from_utf8_lossy`).
pub uninterp spec fn utf8_lossy(bytes: Seq<u8>) -> Seq<char>;

/// Why a byte string is not a readable GGUF header.
pub enum ErrorView {
    /// The bytes end before the header does. When they end inside a payload
    /// that is passed over unread, `skip_to` is the offset where reading
    /// resumes after it (capped at `u64::MAX`).
    Truncated { skip_to: Option<u64> },
    BadMagic(u32),
    UnsupportedVersion(u32),
    StringTooLarge(u64),
    UnknownValueType(u32),
    ArraySizeOverflow(u64, u64),
    ArrayOfArrays,
    BadDimensionCount(Seq<char>, u32),
}

/// One tensor index record.
pub struct TensorView {
    pub name: Seq<char>,
    pub dims: Seq<u64>,
    pub dtype: GgmlType,
    pub offset: u64,
}

/// Everything a header holds, in file order.
pub struct HeaderView {
    pub version: u32,
    pub tensor_count: u64,
    pub kv_count: u64,
    pub kvs: Seq<(Seq<char>, ValueView)>,
    pub tensors: Seq<TensorView>,
}

pub type Parsed<T> = Result<(T, int), ErrorView>;

/// Little-endian value of `n` bytes starting at `p`.
pub open spec fn le_value(b: Seq<u8>, p: int, n: nat) -> nat
    decreases n,
{
    if n == 0 {
        0
    } else {
        b[p] as nat + 256 * le_value(b, p + 1, (n - 1) as nat)
    }
}

/// An `n`-byte little-endian unsigned integer at `p`.
pub open spec fn read_uint(b: Seq<u8>, p: int, n: nat) -> Parsed<nat> {
    if 0 <= p && p + n <= b.len() {
        Ok((le_value(b, p, n), p + n))
    } else {
        Err(ErrorView::Truncated { skip_to: None })
    }
}

/// `x` capped at `u64::MAX`.
pub open spec fn cap_u64(x: int) -> u64 {
    if x > u64::MAX {
        u64::MAX
    } else {
        x as u64
    }
}

/// Width of counts and length prefixes for a format version.
pub open spec fn len_width(version: u32) -> nat {
    if version >= 2 { 8 } else { 4 }
}

/// `n` bytes passed over without being interpreted.
pub open spec fn skip(b: Seq<u8>, p: int, n: nat) -> Result<int, ErrorView> {
    if 0 <= p && p + n <= b.len() {
        Ok(p + n)
    } else {
        Err(ErrorView::Truncated { skip_to: Some(cap_u64(p + n)) })
    }
}

/// A length-prefixed string.
pub open spec fn read_string(b: Seq<u8>, p: int, version: u32) -> Parsed<Seq<char>> {
    match read_uint(b, p, len_width(version)) {
        Err(e) => Err(e),
        Ok((len, q)) => if len > MAX_STRING_BYTES {
            Err(ErrorView::StringTooLarge(len as u64))
        } else if q + len > b.len() {
            Err(ErrorView::Truncated { skip_to: None })
        } else {
            Ok((utf8_lossy(b.subrange(q, q + len)), q + len))
        },
    }
}

/// The first `n` string elements of an array, passed over.
pub open spec fn skip_strings(b: Seq<u8>, p: int, version: u32, n: nat) -> Result<int, ErrorView>
    decreases n,
{
    if n == 0 {
        Ok(p)
    } else {
        match skip_strings(b, p, version, (n - 1) as nat) {
            Err(e) => Err(e),
            Ok(q) => match read_uint(b, q, len_width(version)) {
                Err(e) => Err(e),
                Ok((len, r)) => skip(b, r, len),
            },
        }
    }
}

/// An array value: element type, length, then a payload that is passed over.
pub open spec fn read_array(b: Seq<u8>, p: int, version: u32) -> Parsed<ValueView> {
    match read_uint(b, p, 4) {
        Err(e) => Err(e),
        Ok((tid, q)) => match value_type_of_id(tid as u32) {
            None => Err(ErrorView::UnknownValueType(tid as u32)),
            Some(elem_type) => match read_uint(b, q, len_width(version)) {
                Err(e) => Err(e),
                Ok((len, r)) => {
                    let v = ValueView::Array { elem_type, len: len as u64 };
                    match fixed_width_of(elem_type) {
                        Some(w) => if w * len > u64::MAX {
                            Err(ErrorView::ArraySizeOverflow(w, len as u64))
                        } else {
                            match skip(b, r, (w * len) as nat) {
                                Err(e) => Err(e),
                                Ok(end) => Ok((v, end)),
                            }
                        },
                        None => if elem_type == GgufValueType::Str {
                            match skip_strings(b, r, version, len) {
                                Err(e) => Err(e),
                                Ok(end) => Ok((v, end)),
                            }
                        } else {
                            Err(ErrorView::ArrayOfArrays)
                        },
                    }
                },
            },
        },
    }
}

/// A value of the given type.
pub open spec fn read_value(b: Seq<u8>, p: int, t: GgufValueType, version: u32) -> Parsed<
    ValueView,
> {
    match t {
        GgufValueType::U8 => match read_uint(b, p, 1) {
            Err(e) => Err(e),
            Ok((x, q)) => Ok((ValueView::U8(x as u8), q)),
        },
        GgufValueType::I8 => match read_uint(b, p, 1) {
            Err(e) => Err(e),
            Ok((x, q)) => Ok((ValueView::I8((x as u8) as i8), q)),
        },
        GgufValueType::U16 => match read_uint(b, p, 2) {
            Err(e) => Err(e),
            Ok((x, q)) => Ok((ValueView::U16(x as u16), q)),
        },
        GgufValueType::I16 => match read_uint(b, p, 2) {
            Err(e) => Err(e),
            Ok((x, q)) => Ok((ValueView::I16((x as u16) as i16), q)),
        },
        GgufValueType::U32 => match read_uint(b, p, 4) {
            Err(e) => Err(e),
            Ok((x, q)) => Ok((ValueView::U32(x as u32), q)),
        },
        GgufValueType::I32 => match read_uint(b, p, 4) {
            Err(e) => Err(e),
            Ok((x, q)) => Ok((ValueView::I32((x as u32) as i32), q)),
        },
        GgufValueType::U64 => match read_uint(b, p, 8) {
            Err(e) => Err(e),
            Ok((x, q)) => Ok((ValueView::U64(x as u64), q)),
        },
        GgufValueType::I64 => match read_uint(b, p, 8) {
            Err(e) => Err(e),
            Ok((x, q)) => Ok((ValueView::I64((x as u64) as i64), q)),
        },
        GgufValueType::F32 => match read_uint(b, p, 4) {
            Err(e) => Err(e),
            Ok((x, q)) => Ok((ValueView::F32(x as u32), q)),
        },
        GgufValueType::F64 => match read_uint(b, p, 8) {
            Err(e) => Err(e),
            Ok((x, q)) => Ok((ValueView::F64(x as u64), q)),
        },
        GgufValueType::Bool => match read_uint(b, p, 1) {
            Err(e) => Err(e),
            Ok((x, q)) => Ok((ValueView::Bool(x != 0), q)),
        },
        GgufValueType::Str => match read_string(b, p, version) {
            Err(e) => Err(e),
            Ok((s, q)) => Ok((ValueView::Str(s), q)),
        },
        GgufValueType::Array => read_array(b, p, version),
    }
}

/// One metadata pair: key, value type id, value.
pub open spec fn read_kv(b: Seq<u8>, p: int, version: u32) -> Parsed<(Seq<char>, ValueView)> {
    match read_string(b, p, version) {
        Err(e) => Err(e),
        Ok((key, q)) => match read_uint(b, q, 4) {
            Err(e) => Err(e),
            Ok((tid, r)) => match value_type_of_id(tid as u32) {
                None => Err(ErrorView::UnknownValueType(tid as u32)),
                Some(t) => match read_value(b, r, t, version) {
                    Err(e) => Err(e),
                    Ok((v, s)) => Ok(((key, v), s)),
                },
            },
        },
    }
}

/// The first `n` metadata pairs.
pub open spec fn read_kvs(b: Seq<u8>, p: int, version: u32, n: nat) -> Parsed<
    Seq<(Seq<char>, ValueView)>,
>
    decreases n,
{
    if n == 0 {
        Ok((Seq::empty(), p))
    } else {
        match read_kvs(b, p, version, (n - 1) as nat) {
            Err(e) => Err(e),
            Ok((kvs, q)) => match read_kv(b, q, version) {
                Err(e) => Err(e),
                Ok((kv, r)) => Ok((kvs.push(kv), r)),
            },
        }
    }
}

/// The first `n` dimensions of a tensor, each a `u64`.
pub open spec fn read_dims(b: Seq<u8>, p: int, n: nat) -> Parsed<Seq<u64>>
    decreases n,
{
    if n == 0 {
        Ok((Seq::empty(), p))
    } else {
        match read_dims(b, p, (n - 1) as nat) {
            Err(e) => Err(e),
            Ok((dims, q)) => match read_uint(b, q, 8) {
                Err(e) => Err(e),
                Ok((d, r)) => Ok((dims.push(d as u64), r)),
            },
        }
    }
}

/// One tensor record: name, rank, dimensions, type id, data offset.
pub open spec fn read_tensor(b: Seq<u8>, p: int, version: u32) -> Parsed<TensorView> {
    match read_string(b, p, version) {
        Err(e) => Err(e),
        Ok((name, q)) => match read_uint(b, q, 4) {
            Err(e) => Err(e),
            Ok((nd, r)) => if nd == 0 || nd > MAX_DIMS {
                Err(ErrorView::BadDimensionCount(name, nd as u32))
            } else {
                match read_dims(b, r, nd) {
                    Err(e) => Err(e),
                    Ok((dims, s)) => match read_uint(b, s, 4) {
                        Err(e) => Err(e),
                        Ok((tid, t)) => match read_uint(b, t, 8) {
                            Err(e) => Err(e),
                            Ok((off, u)) => Ok((
                                TensorView {
                                    name,
                                    dims,
                                    dtype: type_of_id(tid as u32),
                                    offset: off as u64,
                                },
                                u,
                            )),
                        },
                    },
                }
            },
        },
    }
}

/// The first `n` tensor records.
pub open spec fn read_tensors(b: Seq<u8>, p: int, version: u32, n: nat) -> Parsed<Seq<TensorView>>
    decreases n,
{
    if n == 0 {
        Ok((Seq::empty(), p))
    } else {
        match read_tensors(b, p, version, (n - 1) as nat) {
            Err(e) => Err(e),
            Ok((ts, q)) => match read_tensor(b, q, version) {
                Err(e) => Err(e),
                Ok((t, r)) => Ok((ts.push(t), r)),
            },
        }
    }
}

/// A whole header, and the number of bytes it spans.
pub open spec fn parse_header(b: Seq<u8>) -> Parsed<HeaderView> {
    match read_uint(b, 0, 4) {
        Err(e) => Err(e),
        Ok((magic, p)) => if magic != GGUF_MAGIC {
            Err(ErrorView::BadMagic(magic as u32))
        } else {
            match read_uint(b, p, 4) {
                Err(e) => Err(e),
                Ok((version, q)) => if version < 1 || version > 3 {
                    Err(ErrorView::UnsupportedVersion(version as u32))
                } else {
                    let w = len_width(version as u32);
                    match read_uint(b, q, w) {
                        Err(e) => Err(e),
                        Ok((n_tensors, r)) => match read_uint(b, r, w) {
                            Err(e) => Err(e),
                            Ok((n_kv, s)) => match read_kvs(b, s, version as u32, n_kv) {
                                Err(e) => Err(e),
                                Ok((kvs, t)) => match read_tensors(
                                    b,
                                    t,
                                    version as u32,
                                    n_tensors,
                                ) {
                                    Err(e) => Err(e),
                                    Ok((tensors, u)) => Ok((
                                        HeaderView {
                                            version: version as u32,
                                            tensor_count: n_tensors as u64,
                                            kv_count: n_kv as u64,
                                            kvs,
                                            tensors,
                                        },
                                        u,
                                    )),
                                },
                            },
                        },
                    }
                },
            }
        },
    }
}

/// The value a key ends up with when the pairs are stored in order, later
/// pairs replacing earlier ones with the same key.
pub open spec fn final_value(kvs: Seq<(Seq<char>, ValueView)>, key: Seq<char>) -> Option<ValueView>
    decreases kvs.len(),
{
    if kvs.len() == 0 {
        None
    } else if kvs.last().0 == key {
        Some(kvs.last().1)
    } else {
        final_value(kvs.drop_last(), key)
    }
}

/// Lowercase hex digits of the low `k` nibbles of `n`, most significant first.
pub open spec fn hex_digits(n: nat, k: nat) -> Seq<char>
    decreases k,
{
    if k == 0 {
        Seq::empty()
    } else {
        let d = n % 16;
        hex_digits(n / 16, (k - 1) as nat).push(
            if d < 10 { (48 + d) as char } else { (87 + d) as char },
        )
    }
}

/// The message each parse error is reported with.
pub open spec fn error_message(e: ErrorView) -> Seq<char> {
    match e {
        ErrorView::Truncated { .. } => "truncated GGUF header: failed to fill whole buffer"@,
        ErrorView::BadMagic(m) => "not a GGUF file (bad magic 0x"@ + hex_digits(m as nat, 8)
            + ", expected 0x46554747)"@,
        ErrorView::UnsupportedVersion(v) => "unsupported GGUF version "@ + decimal(v as nat),
        ErrorView::StringTooLarge(n) => "string of "@ + decimal(n as nat)
            + " bytes exceeds safety cap"@,
        ErrorView::UnknownValueType(id) => "unknown metadata value type "@ + decimal(id as nat),
        ErrorView::ArraySizeOverflow(w, len) => "array size "@ + decimal(w as nat) + "x"@
            + decimal(len as nat) + " overflows"@,
        ErrorView::ArrayOfArrays => "arrays of arrays in GGUF metadata are invalid"@,
        ErrorView::BadDimensionCount(name, n) => "tensor '"@ + name
            + "' has implausible dimension count "@ + decimal(n as nat),
    }
}

pub(crate) proof fn lemma_le_value_ext(b: Seq<u8>, e: Seq<u8>, p: int, n: nat)
    requires
        0 <= p,
        p + n <= b.len(),
    ensures
        le_value(b + e, p, n) == le_value(b, p, n),
    decreases n,
{
    if n > 0 {
        lemma_le_value_ext(b, e, p + 1, (n - 1) as nat);
        assert((b + e)[p] == b[p]);
    }
}

/// A result that did not stop for lack of bytes.
pub open spec fn settled<T>(r: Result<T, ErrorView>) -> bool {
    !(r matches Err(ErrorView::Truncated { .. }))
}

pub(crate) proof fn lemma_read_uint_ext(b: Seq<u8>, e: Seq<u8>, p: int, n: nat)
    requires
        settled(read_uint(b, p, n)),
    ensures
        read_uint(b + e, p, n) == read_uint(b, p, n),
{
    lemma_le_value_ext(b, e, p, n);
}

pub(crate) proof fn lemma_read_string_ext(b: Seq<u8>, e: Seq<u8>, p: int, version: u32)
    requires
        settled(read_string(b, p, version)),
    ensures
        read_string(b + e, p, version) == read_string(b, p, version),
{
    lemma_read_uint_ext(b, e, p, len_width(version));
    let (len, q) = read_uint(b, p, len_width(version))->Ok_0;
    if len <= MAX_STRING_BYTES {
        assert((b + e).subrange(q, q + len) =~= b.subrange(q, q + len));
    }
}

pub(crate) proof fn lemma_skip_strings_ext(b: Seq<u8>, e: Seq<u8>, p: int, version: u32, n: nat)
    requires
        settled(skip_strings(b, p, version, n)),
    ensures
        skip_strings(b + e, p, version, n) == skip_strings(b, p, version, n),
    decreases n,
{
    if n > 0 {
        lemma_skip_strings_ext(b, e, p, version, (n - 1) as nat);
        if skip_strings(b, p, version, (n - 1) as nat) is Ok {
            let q = skip_strings(b, p, version, (n - 1) as nat)->Ok_0;
            lemma_read_uint_ext(b, e, q, len_width(version));
        }
    }
}

pub(crate) proof fn lemma_read_array_ext(b: Seq<u8>, e: Seq<u8>, p: int, version: u32)
    requires
        settled(read_array(b, p, version)),
    ensures
        read_array(b + e, p, version) == read_array(b, p, version),
{
    lemma_read_uint_ext(b, e, p, 4);
    let (tid, q) = read_uint(b, p, 4)->Ok_0;
    if let Some(elem_type) = value_type_of_id(tid as u32) {
        lemma_read_uint_ext(b, e, q, len_width(version));
        let (len, r) = read_uint(b, q, len_width(version))->Ok_0;
        if fixed_width_of(elem_type) is None && elem_type == GgufValueType::Str {
            lemma_skip_strings_ext(b, e, r, version, len);
        }
    }
}

pub(crate) proof fn lemma_read_value_ext(b: Seq<u8>, e: Seq<u8>, p: int, t: GgufValueType, version: u32)
    requires
        settled(read_value(b, p, t, version)),
    ensures
        read_value(b + e, p, t, version) == read_value(b, p, t, version),
{
    match t {
        GgufValueType::U8 | GgufValueType::I8 | GgufValueType::Bool => lemma_read_uint_ext(b, e, p, 1),
        GgufValueType::U16 | GgufValueType::I16 => lemma_read_uint_ext(b, e, p, 2),
        GgufValueType::U32 | GgufValueType::I32 | GgufValueType::F32 => lemma_read_uint_ext(b, e, p, 4),
        GgufValueType::U64 | GgufValueType::I64 | GgufValueType::F64 => lemma_read_uint_ext(b, e, p, 8),
        GgufValueType::Str => lemma_read_string_ext(b, e, p, version),
        GgufValueType::Array => lemma_read_array_ext(b, e, p, version),
    }
}

pub(crate) proof fn lemma_read_kv_ext(b: Seq<u8>, e: Seq<u8>, p: int, version: u32)
    requires
        settled(read_kv(b, p, version)),
    ensures
        read_kv(b + e, p, version) == read_kv(b, p, version),
{
    lemma_read_string_ext(b, e, p, version);
    if read_string(b, p, version) is Ok {
        let (key, q) = read_string(b, p, version)->Ok_0;
        lemma_read_uint_ext(b, e, q, 4);
        let (tid, r) = read_uint(b, q, 4)->Ok_0;
        if let Some(t) = value_type_of_id(tid as u32) {
            lemma_read_value_ext(b, e, r, t, version);
        }
    }
}

pub(crate) proof fn lemma_read_kvs_ext(b: Seq<u8>, e: Seq<u8>, p: int, version: u32, n: nat)
    requires
        settled(read_kvs(b, p, version, n)),
    ensures
        read_kvs(b + e, p, version, n) == read_kvs(b, p, version, n),
    decreases n,
{
    if n > 0 {
        lemma_read_kvs_ext(b, e, p, version, (n - 1) as nat);
        if read_kvs(b, p, version, (n - 1) as nat) is Ok {
            let (_, q) = read_kvs(b, p, version, (n - 1) as nat)->Ok_0;
            lemma_read_kv_ext(b, e, q, version);
        }
    }
}

pub(crate) proof fn lemma_read_dims_ext(b: Seq<u8>, e: Seq<u8>, p: int, n: nat)
    requires
        settled(read_dims(b, p, n)),
    ensures
        read_dims(b + e, p, n) == read_dims(b, p, n),
    decreases n,
{
    if n > 0 {
        lemma_read_dims_ext(b, e, p, (n - 1) as nat);
        if read_dims(b, p, (n - 1) as nat) is Ok {
            let (_, q) = read_dims(b, p, (n - 1) as nat)->Ok_0;
            lemma_read_uint_ext(b, e, q, 8);
        }
    }
}

pub(crate) proof fn lemma_read_tensor_ext(b: Seq<u8>, e: Seq<u8>, p: int, version: u32)
    requires
        settled(read_tensor(b, p, version)),
    ensures
        read_tensor(b + e, p, version) == read_tensor(b, p, version),
{
    lemma_read_string_ext(b, e, p, version);
    if read_string(b, p, version) is Ok {
        let (_, q) = read_string(b, p, version)->Ok_0;
        lemma_read_uint_ext(b, e, q, 4);
        let (nd, r) = read_uint(b, q, 4)->Ok_0;
        if !(nd == 0 || nd > MAX_DIMS) {
            lemma_read_dims_ext(b, e, r, nd);
            if read_dims(b, r, nd) is Ok {
                let (_, s) = read_dims(b, r, nd)->Ok_0;
                lemma_read_uint_ext(b, e, s, 4);
                let (_, t) = read_uint(b, s, 4)->Ok_0;
                lemma_read_uint_ext(b, e, t, 8);
            }
        }
    }
}

pub(crate) proof fn lemma_read_tensors_ext(b: Seq<u8>, e: Seq<u8>, p: int, version: u32, n: nat)
    requires
        settled(read_tensors(b, p, version, n)),
    ensures
        read_tensors(b + e, p, version, n) == read_tensors(b, p, version, n),
    decreases n,
{
    if n > 0 {
        lemma_read_tensors_ext(b, e, p, version, (n - 1) as nat);
        if read_tensors(b, p, version, (n - 1) as nat) is Ok {
            let (_, q) = read_tensors(b, p, version, (n - 1) as nat)->Ok_0;
            lemma_read_tensor_ext(b, e, q, version);
        }
    }
}

/// Only the header is read, and it is read front to back: once a byte
/// string settles the outcome (a whole header, or an error other than running
/// out of bytes), any bytes after it (tensor data, or anything else) leave
/// the outcome, the header and its length unchanged.
pub proof fn lemma_header_ignores_trailing_bytes(b: Seq<u8>, extra: Seq<u8>)
    requires
        settled(parse_header(b)),
    ensures
        parse_header(b + extra) == parse_header(b),
{
    let e = extra;
    lemma_read_uint_ext(b, e, 0, 4);
    let (magic, _) = read_uint(b, 0, 4)->Ok_0;
    if magic == GGUF_MAGIC {
        lemma_read_uint_ext(b, e, 4, 4);
        let (version, _) = read_uint(b, 4, 4)->Ok_0;
        if 1 <= version <= 3 {
            let w = len_width(version as u32);
            lemma_read_uint_ext(b, e, 8, w);
            let (n_tensors, r) = read_uint(b, 8, w)->Ok_0;
            lemma_read_uint_ext(b, e, r, w);
            let (n_kv, s) = read_uint(b, r, w)->Ok_0;
            lemma_read_kvs_ext(b, e, s, version as u32, n_kv);
            if read_kvs(b, s, version as u32, n_kv) is Ok {
                let (_, t) = read_kvs(b, s, version as u32, n_kv)->Ok_0;
                lemma_read_tensors_ext(b, e, t, version as u32, n_tensors);
            }
        }
    }
}

/// The header ends within the bytes it was read from.
pub proof fn lemma_header_length_in_bounds(b: Seq<u8>)
    requires
        parse_header(b) is Ok,
    ensures
        0 < parse_header(b)->Ok_0.1 <= b.len(),
{
    let (version, _) = read_uint(b, 4, 4)->Ok_0;
    let w = len_width(version as u32);
    let (n_tensors, r) = read_uint(b, 8, w)->Ok_0;
    let (n_kv, s) = read_uint(b, r, w)->Ok_0;
    lemma_read_kvs_bound(b, s, version as u32, n_kv);
    let (_, t) = read_kvs(b, s, version as u32, n_kv)->Ok_0;
    lemma_read_tensors_bound(b, t, version as u32, n_tensors);
}

proof fn lemma_read_kvs_bound(b: Seq<u8>, p: int, version: u32, n: nat)
    requires
        0 <= p <= b.len(),
        read_kvs(b, p, version, n) is Ok,
    ensures
        p <= read_kvs(b, p, version, n)->Ok_0.1 <= b.len(),
    decreases n,
{
    if n > 0 {
        lemma_read_kvs_bound(b, p, version, (n - 1) as nat);
        let (_, q) = read_kvs(b, p, version, (n - 1) as nat)->Ok_0;
        lemma_read_kv_bound(b, q, version);
    }
}

proof fn lemma_read_kv_bound(b: Seq<u8>, p: int, version: u32)
    requires
        0 <= p <= b.len(),
        read_kv(b, p, version) is Ok,
    ensures
        p <= read_kv(b, p, version)->Ok_0.1 <= b.len(),
{
    let (_, q) = read_string(b, p, version)->Ok_0;
    let (tid, r) = read_uint(b, q, 4)->Ok_0;
    let t = value_type_of_id(tid as u32)->Some_0;
    if t == GgufValueType::Array {
        let (_, q2) = read_uint(b, r, 4)->Ok_0;
        let (len, r2) = read_uint(b, q2, len_width(version))->Ok_0;
        let et = value_type_of_id(read_uint(b, r, 4)->Ok_0.0 as u32)->Some_0;
        if fixed_width_of(et) is None {
            lemma_skip_strings_bound(b, r2, version, len);
        }
    }
}

proof fn lemma_skip_strings_bound(b: Seq<u8>, p: int, version: u32, n: nat)
    requires
        0 <= p <= b.len(),
        skip_strings(b, p, version, n) is Ok,
    ensures
        p <= skip_strings(b, p, version, n)->Ok_0 <= b.len(),
    decreases n,
{
    if n > 0 {
        lemma_skip_strings_bound(b, p, version, (n - 1) as nat);
    }
}

proof fn lemma_read_tensors_bound(b: Seq<u8>, p: int, version: u32, n: nat)
    requires
        0 <= p <= b.len(),
        read_tensors(b, p, version, n) is Ok,
    ensures
        p <= read_tensors(b, p, version, n)->Ok_0.1 <= b.len(),
    decreases n,
{
    if n > 0 {
        lemma_read_tensors_bound(b, p, version, (n - 1) as nat);
        let (_, q) = read_tensors(b, p, version, (n - 1) as nat)->Ok_0;
        let (_, q1) = read_string(b, q, version)->Ok_0;
        let (nd, r) = read_uint(b, q1, 4)->Ok_0;
        lemma_read_dims_bound(b, r, nd);
    }
}

proof fn lemma_read_dims_bound(b: Seq<u8>, p: int, n: nat)
    requires
        0 <= p <= b.len(),
        read_dims(b, p, n) is Ok,
    ensures
        p <= read_dims(b, p, n)->Ok_0.1 <= b.len(),
    decreases n,
{
    if n > 0 {
        lemma_read_dims_bound(b, p, (n - 1) as nat);
    }
}

} // verus!
