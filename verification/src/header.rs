//! Reading a GGUF header (metadata pairs and tensor index) from bytes.
//!
//! Only the header is read: tensor data is never touched, and array metadata
//! payloads are passed over after their element type and length are read.
use vstd::prelude::*;

use crate::format::{
    ErrorView, HeaderView, Parsed, TensorView, error_message, final_value, hex_digits, len_width,
    parse_header, read_array, read_dims, read_kv, read_kvs, read_string, read_tensor,
    read_tensors, read_uint, read_value, skip, skip_strings, utf8_lossy, le_value, GGUF_MAGIC,
    MAX_DIMS, MAX_STRING_BYTES,
};
use crate::ggml::{GgmlType, nbytes_of};
use crate::text::{
    chars_before, chars_less, chars_of, lemma_chars_before_irreflexive, lemma_chars_before_total,
    lemma_chars_before_trans, push_char, push_decimal,
};
use crate::value::{
    FloatBits, GgufValue, GgufValueType, ValueView, value_as_float_bits, value_as_i64, value_as_str,
    value_as_u64,
};

verus! {

/// Decodes bytes as UTF-8, replacing invalid sequences
/// (`String::from_utf8_lossy`). Claimed: the result is the named lossy
/// decoding of the bytes, and equals the plain decoding when the bytes are
/// valid UTF-8.
#[verifier::external_body]
fn string_from_utf8_lossy(bytes: &[u8]) -> (s: String)
    ensures
        s@ == utf8_lossy(bytes@),
        vstd::utf8::valid_utf8(bytes@) ==> s@ == vstd::utf8::decode_utf8(bytes@),
{
    String::from_utf8_lossy(bytes).into_owned()
}

/// Why bytes could not be read as a GGUF header.
#[derive(Debug, Clone, PartialEq)]
pub enum GgufError {
    /// The bytes end before the header does. When they end inside a payload
    /// that is passed over unread, `skip_to` is the offset where reading
    /// resumes after it (capped at `u64::MAX`): the bytes in between are
    /// never looked at.
    Truncated { skip_to: Option<u64> },
    BadMagic(u32),
    UnsupportedVersion(u32),
    /// A string claims more bytes than the safety cap.
    StringTooLarge(u64),
    UnknownValueType(u32),
    /// An array's element width times its length overflows `u64`.
    ArraySizeOverflow(u64, u64),
    ArrayOfArrays,
    /// A tensor record with a rank of 0 or above the maximum.
    BadDimensionCount(String, u32),
}

impl View for GgufError {
    type V = ErrorView;

    open spec fn view(&self) -> ErrorView {
        match self {
            GgufError::Truncated { skip_to } => ErrorView::Truncated { skip_to: *skip_to },
            GgufError::BadMagic(m) => ErrorView::BadMagic(*m),
            GgufError::UnsupportedVersion(v) => ErrorView::UnsupportedVersion(*v),
            GgufError::StringTooLarge(n) => ErrorView::StringTooLarge(*n),
            GgufError::UnknownValueType(t) => ErrorView::UnknownValueType(*t),
            GgufError::ArraySizeOverflow(w, n) => ErrorView::ArraySizeOverflow(*w, *n),
            GgufError::ArrayOfArrays => ErrorView::ArrayOfArrays,
            GgufError::BadDimensionCount(name, n) => ErrorView::BadDimensionCount(name@, *n),
        }
    }
}

fn push_hex8(s: &mut String, n: u32)
    ensures
        final(s)@ == old(s)@ + hex_digits(n as nat, 8),
{
    let mut k: u32 = 8;
    let mut digits: Vec<char> = Vec::new();
    let mut rest: u32 = n;
    assert(pow16(0) == 1);
    assert((n as nat) / 1 == n as nat);
    assert(reversed(digits@) =~= Seq::<char>::empty());
    assert(hex_digits(n as nat, 8) =~= hex_digits(n as nat, 8) + Seq::<char>::empty());
    // digits[j] is the digit of nibble j (least significant first)
    while k > 0
        invariant
            k <= 8,
            digits.len() == 8 - k,
            rest as nat == (n as nat) / pow16((8 - k) as nat),
            hex_digits(n as nat, 8) == hex_digits(rest as nat, k as nat) + reversed(digits@),
        decreases k,
    {
        let d = rest % 16;
        let c = if d < 10 { ((d as u8) + 48u8) as char } else { ((d as u8) + 87u8) as char };
        proof {
            let ghost old_digits = digits@;
            assert(hex_digits(rest as nat, k as nat) == hex_digits(rest as nat / 16, (k - 1) as nat).push(c));
            assert(reversed(old_digits.push(c)) =~= seq![c] + reversed(old_digits)) by {
                lemma_reversed_push(old_digits, c);
            }
            assert(hex_digits(rest as nat / 16, (k - 1) as nat).push(c) + reversed(old_digits)
                =~= hex_digits(rest as nat / 16, (k - 1) as nat) + (seq![c] + reversed(old_digits)));
            lemma_pow16_step((8 - k) as nat, n as nat);
        }
        digits.push(c);
        rest = rest / 16;
        k = k - 1;
    }
    assert(hex_digits(rest as nat, 0) =~= Seq::<char>::empty());
    assert(hex_digits(n as nat, 8) =~= reversed(digits@));
    let mut i: usize = 8;
    let ghost start = s@;
    while i > 0
        invariant
            i <= 8,
            digits.len() == 8,
            s@ == start + reversed(digits@).subrange(0, 8 - i as int),
        decreases i,
    {
        i = i - 1;
        push_char(s, digits[i]);
        assert(reversed(digits@).subrange(0, 8 - i as int) =~= reversed(digits@).subrange(
            0,
            8 - (i + 1) as int,
        ).push(digits@[i as int]));
    }
    assert(reversed(digits@).subrange(0, 8) =~= reversed(digits@));
}

/// `16^k`.
pub open spec fn pow16(k: nat) -> nat
    decreases k,
{
    if k == 0 { 1 } else { 16 * pow16((k - 1) as nat) }
}

/// A sequence in reverse order.
pub open spec fn reversed<T>(s: Seq<T>) -> Seq<T> {
    Seq::new(s.len(), |i: int| s[s.len() - 1 - i])
}

proof fn lemma_reversed_push<T>(s: Seq<T>, c: T)
    ensures
        reversed(s.push(c)) =~= seq![c] + reversed(s),
{
}

proof fn lemma_pow16_step(k: nat, n: nat)
    ensures
        n / pow16(k) / 16 == n / pow16(k + 1),
{
    assert(pow16(k + 1) == 16 * pow16(k));
    lemma_pow16_pos(k);
    vstd::arithmetic::div_mod::lemma_div_denominator(n as int, pow16(k) as int, 16);
    assert(pow16(k) * 16 == 16 * pow16(k)) by (nonlinear_arith);
}

proof fn lemma_pow16_pos(k: nat)
    ensures
        pow16(k) > 0,
    decreases k,
{
    if k > 0 {
        lemma_pow16_pos((k - 1) as nat);
    }
}

impl GgufError {
    /// Human-readable message for the error.
    pub fn message(&self) -> (s: String)
        ensures
            s@ == error_message(self@),
    {
        match self {
            GgufError::Truncated { .. } => String::from_str(
                "truncated GGUF header: failed to fill whole buffer",
            ),
            GgufError::BadMagic(m) => {
                let mut s = String::from_str("not a GGUF file (bad magic 0x");
                push_hex8(&mut s, *m);
                s.append(", expected 0x46554747)");
                s
            },
            GgufError::UnsupportedVersion(v) => {
                let mut s = String::from_str("unsupported GGUF version ");
                push_decimal(&mut s, *v as u64);
                s
            },
            GgufError::StringTooLarge(n) => {
                let mut s = String::from_str("string of ");
                push_decimal(&mut s, *n);
                s.append(" bytes exceeds safety cap");
                s
            },
            GgufError::UnknownValueType(t) => {
                let mut s = String::from_str("unknown metadata value type ");
                push_decimal(&mut s, *t as u64);
                s
            },
            GgufError::ArraySizeOverflow(w, n) => {
                let mut s = String::from_str("array size ");
                push_decimal(&mut s, *w);
                s.append("x");
                push_decimal(&mut s, *n);
                s.append(" overflows");
                s
            },
            GgufError::ArrayOfArrays => String::from_str(
                "arrays of arrays in GGUF metadata are invalid",
            ),
            GgufError::BadDimensionCount(name, n) => {
                let mut s = String::from_str("tensor '");
                s.append(name.as_str());
                s.append("' has implausible dimension count ");
                push_decimal(&mut s, *n as u64);
                s
            },
        }
    }
}

/// The executable result agrees with the specified one: same value read,
/// same position reached, or the same error.
pub open spec fn agrees_uint<T>(r: Result<(T, usize), GgufError>, s: Parsed<nat>, val: spec_fn(T) -> nat) -> bool {
    match s {
        Ok((v, q)) => r matches Ok((x, e)) && val(x) == v && e == q,
        Err(err) => r matches Err(e) && e@ == err,
    }
}

fn read_u8(b: &[u8], p: usize) -> (r: Result<(u8, usize), GgufError>)
    ensures
        agrees_uint(r, read_uint(b@, p as int, 1), |x: u8| x as nat),
{
    if p >= b.len() {
        return Err(GgufError::Truncated { skip_to: None });
    }
    proof {
        reveal_with_fuel(le_value, 2);
    }
    Ok((b[p], p + 1))
}

fn read_u16(b: &[u8], p: usize) -> (r: Result<(u16, usize), GgufError>)
    ensures
        agrees_uint(r, read_uint(b@, p as int, 2), |x: u16| x as nat),
{
    if p > b.len() || b.len() - p < 2 {
        return Err(GgufError::Truncated { skip_to: None });
    }
    proof {
        reveal_with_fuel(le_value, 3);
    }
    let v: u16 = b[p] as u16 + 256 * (b[p + 1] as u16);
    Ok((v, p + 2))
}

fn read_u32(b: &[u8], p: usize) -> (r: Result<(u32, usize), GgufError>)
    ensures
        agrees_uint(r, read_uint(b@, p as int, 4), |x: u32| x as nat),
{
    if p > b.len() || b.len() - p < 4 {
        return Err(GgufError::Truncated { skip_to: None });
    }
    proof {
        reveal_with_fuel(le_value, 5);
    }
    let v: u32 = b[p] as u32 + 256 * (b[p + 1] as u32 + 256 * (b[p + 2] as u32 + 256 * (
    b[p + 3] as u32)));
    Ok((v, p + 4))
}

fn read_u64(b: &[u8], p: usize) -> (r: Result<(u64, usize), GgufError>)
    ensures
        agrees_uint(r, read_uint(b@, p as int, 8), |x: u64| x as nat),
{
    if p > b.len() || b.len() - p < 8 {
        return Err(GgufError::Truncated { skip_to: None });
    }
    proof {
        reveal_with_fuel(le_value, 9);
    }
    let v: u64 = b[p] as u64 + 256 * (b[p + 1] as u64 + 256 * (b[p + 2] as u64 + 256 * (b[p
        + 3] as u64 + 256 * (b[p + 4] as u64 + 256 * (b[p + 5] as u64 + 256 * (b[p + 6] as u64
        + 256 * (b[p + 7] as u64)))))));
    Ok((v, p + 8))
}

/// A count or length prefix: `u64` since v2, `u32` in v1.
fn read_len(b: &[u8], p: usize, version: u32) -> (r: Result<(u64, usize), GgufError>)
    ensures
        agrees_uint(r, read_uint(b@, p as int, len_width(version)), |x: u64| x as nat),
{
    if version >= 2 {
        read_u64(b, p)
    } else {
        match read_u32(b, p) {
            Ok((v, q)) => Ok((v as u64, q)),
            Err(e) => Err(e),
        }
    }
}

/// Passes over `n` bytes.
fn skip_bytes(b: &[u8], p: usize, n: u64) -> (r: Result<usize, GgufError>)
    requires
        p <= b.len(),
    ensures
        match skip(b@, p as int, n as nat) {
            Ok(q) => r matches Ok(e) && e == q,
            Err(err) => r matches Err(e) && e@ == err,
        },
{
    if n > (b.len() - p) as u64 {
        let end: u64 = if n > u64::MAX - (p as u64) {
            u64::MAX
        } else {
            p as u64 + n
        };
        return Err(GgufError::Truncated { skip_to: Some(end) });
    }
    Ok(p + n as usize)
}

fn read_len_prefixed_string(b: &[u8], p: usize, version: u32) -> (r: Result<(String, usize), GgufError>)
    ensures
        match read_string(b@, p as int, version) {
            Ok((v, q)) => r matches Ok((x, e)) && x@ == v && e == q,
            Err(err) => r matches Err(e) && e@ == err,
        },
{
    let (len, q) = match read_len(b, p, version) {
        Ok(x) => x,
        Err(e) => return Err(e),
    };
    if len > MAX_STRING_BYTES {
        return Err(GgufError::StringTooLarge(len));
    }
    if len > (b.len() - q) as u64 {
        return Err(GgufError::Truncated { skip_to: None });
    }
    let end = q + len as usize;
    let s = string_from_utf8_lossy(&b[q..end]);
    Ok((s, end))
}

/// Once passing over string elements fails, passing over more fails the same way.
proof fn lemma_skip_strings_err(b: Seq<u8>, p: int, version: u32, i: nat, n: nat)
    requires
        i <= n,
        skip_strings(b, p, version, i) is Err,
    ensures
        skip_strings(b, p, version, n) == skip_strings(b, p, version, i),
    decreases n - i,
{
    if i < n {
        lemma_skip_strings_err(b, p, version, i, (n - 1) as nat);
    }
}

/// Passes over `n` length-prefixed string elements starting at `p`.
fn skip_string_elements(b: &[u8], p: usize, version: u32, n: u64) -> (r: Result<usize, GgufError>)
    requires
        p <= b.len(),
    ensures
        match skip_strings(b@, p as int, version, n as nat) {
            Ok(q) => r matches Ok(e) && e == q,
            Err(err) => r matches Err(e) && e@ == err,
        },
{
    let mut i: u64 = 0;
    let mut pos: usize = p;
    while i < n
        invariant
            i <= n,
            pos <= b.len(),
            p <= b.len(),
            skip_strings(b@, p as int, version, i as nat) == Ok::<int, ErrorView>(pos as int),
        decreases n - i,
    {
        let (len, q) = match read_len(b, pos, version) {
            Ok(x) => x,
            Err(e) => {
                proof {
                    lemma_skip_strings_err(b@, p as int, version, (i + 1) as nat, n as nat);
                }
                return Err(e);
            },
        };
        let next = match skip_bytes(b, q, len) {
            Ok(x) => x,
            Err(e) => {
                proof {
                    lemma_skip_strings_err(b@, p as int, version, (i + 1) as nat, n as nat);
                }
                return Err(e);
            },
        };
        pos = next;
        i = i + 1;
    }
    Ok(pos)
}

/// An array value: only its element type and length are kept.
fn read_array_value(b: &[u8], p: usize, version: u32) -> (r: Result<(GgufValue, usize), GgufError>)
    ensures
        match read_array(b@, p as int, version) {
            Ok((v, q)) => r matches Ok((x, e)) && x@ == v && e == q,
            Err(err) => r matches Err(e) && e@ == err,
        },
{
    let (tid, q) = match read_u32(b, p) {
        Ok(x) => x,
        Err(e) => return Err(e),
    };
    let elem_type = match GgufValueType::from_id(tid) {
        Some(t) => t,
        None => return Err(GgufError::UnknownValueType(tid)),
    };
    let (len, r) = match read_len(b, q, version) {
        Ok(x) => x,
        Err(e) => return Err(e),
    };
    let end = match elem_type.fixed_width() {
        Some(width) => {
            let total = match width.checked_mul(len) {
                Some(t) => t,
                None => return Err(GgufError::ArraySizeOverflow(width, len)),
            };
            match skip_bytes(b, r, total) {
                Ok(e) => e,
                Err(e) => return Err(e),
            }
        },
        None => {
            if elem_type == GgufValueType::Str {
                match skip_string_elements(b, r, version, len) {
                    Ok(e) => e,
                    Err(e) => return Err(e),
                }
            } else {
                return Err(GgufError::ArrayOfArrays);
            }
        },
    };
    Ok((GgufValue::Array { elem_type, len }, end))
}

/// A value of type `t` at `p`.
fn read_typed_value(b: &[u8], p: usize, t: GgufValueType, version: u32) -> (r: Result<(GgufValue, usize), GgufError>)
    ensures
        match read_value(b@, p as int, t, version) {
            Ok((v, q)) => r matches Ok((x, e)) && x@ == v && e == q,
            Err(err) => r matches Err(e) && e@ == err,
        },
{
    match t {
        GgufValueType::U8 => match read_u8(b, p) {
            Ok((x, q)) => Ok((GgufValue::U8(x), q)),
            Err(e) => Err(e),
        },
        GgufValueType::I8 => match read_u8(b, p) {
            Ok((x, q)) => Ok((GgufValue::I8(x as i8), q)),
            Err(e) => Err(e),
        },
        GgufValueType::U16 => match read_u16(b, p) {
            Ok((x, q)) => Ok((GgufValue::U16(x), q)),
            Err(e) => Err(e),
        },
        GgufValueType::I16 => match read_u16(b, p) {
            Ok((x, q)) => Ok((GgufValue::I16(x as i16), q)),
            Err(e) => Err(e),
        },
        GgufValueType::U32 => match read_u32(b, p) {
            Ok((x, q)) => Ok((GgufValue::U32(x), q)),
            Err(e) => Err(e),
        },
        GgufValueType::I32 => match read_u32(b, p) {
            Ok((x, q)) => Ok((GgufValue::I32(x as i32), q)),
            Err(e) => Err(e),
        },
        GgufValueType::U64 => match read_u64(b, p) {
            Ok((x, q)) => Ok((GgufValue::U64(x), q)),
            Err(e) => Err(e),
        },
        GgufValueType::I64 => match read_u64(b, p) {
            Ok((x, q)) => Ok((GgufValue::I64(x as i64), q)),
            Err(e) => Err(e),
        },
        GgufValueType::F32 => match read_u32(b, p) {
            Ok((x, q)) => Ok((GgufValue::F32(x), q)),
            Err(e) => Err(e),
        },
        GgufValueType::F64 => match read_u64(b, p) {
            Ok((x, q)) => Ok((GgufValue::F64(x), q)),
            Err(e) => Err(e),
        },
        GgufValueType::Bool => match read_u8(b, p) {
            Ok((x, q)) => Ok((GgufValue::Bool(x != 0), q)),
            Err(e) => Err(e),
        },
        GgufValueType::Str => match read_len_prefixed_string(b, p, version) {
            Ok((x, q)) => Ok((GgufValue::Str(x), q)),
            Err(e) => Err(e),
        },
        GgufValueType::Array => read_array_value(b, p, version),
    }
}

/// Index record of one tensor within the (unread) data section.
#[derive(Debug, Clone, PartialEq)]
pub struct GgufTensorInfo {
    pub name: String,
    pub dims: Vec<u64>,
    pub dtype: GgmlType,
    pub offset: u64,
}

impl View for GgufTensorInfo {
    type V = TensorView;

    open spec fn view(&self) -> TensorView {
        TensorView { name: self.name@, dims: self.dims@, dtype: self.dtype, offset: self.offset }
    }
}

/// Metadata pairs of a header, each key once and in ascending key order
/// (code point order, as `String` orders keys); a later pair with the same
/// key replaces the earlier value.
#[derive(Debug, PartialEq)]
pub struct Metadata {
    entries: Vec<(String, GgufValue)>,
}

impl View for Metadata {
    type V = Seq<(Seq<char>, ValueView)>;

    closed spec fn view(&self) -> Seq<(Seq<char>, ValueView)> {
        entries_view(self.entries@)
    }
}

impl Metadata {
    #[verifier::type_invariant]
    spec fn well_formed(self) -> bool {
        keys_ascending(entries_view(self.entries@))
    }

    /// Number of distinct keys.
    pub fn len(&self) -> (n: usize)
        ensures
            n == self@.len(),
    {
        self.entries.len()
    }

    /// Whether there are no pairs.
    pub fn is_empty(&self) -> (b: bool)
        ensures
            b <==> self@.len() == 0,
    {
        self.entries.len() == 0
    }

    /// The pairs, in ascending key order.
    pub fn entries(&self) -> (es: &[(String, GgufValue)])
        ensures
            entries_view(es@) == self@,
            keys_ascending(self@),
    {
        proof {
            use_type_invariant(self);
        }
        self.entries.as_slice()
    }

    /// The value stored under `key`.
    pub fn get(&self, key: &str) -> (r: Option<&GgufValue>)
        ensures
            r matches Some(v) ==> lookup(self@, key@) == Some(v@),
            r is None <==> lookup(self@, key@) is None,
    {
        let k = String::from_str(key);
        let ghost es = self@;
        let mut i: usize = 0;
        while i < self.entries.len()
            invariant
                i <= self.entries.len(),
                es == self@,
                k@ == key@,
                lookup(es.take(i as int), key@) is None,
            decreases self.entries.len() - i,
        {
            if self.entries[i].0 == k {
                proof {
                    assert(es.take(i + 1).drop_last() =~= es.take(i as int));
                    lemma_lookup_prefix(es, i + 1, key@);
                }
                return Some(&self.entries[i].1);
            }
            proof {
                assert(es.take(i + 1).drop_last() =~= es.take(i as int));
            }
            i = i + 1;
        }
        proof {
            assert(es.take(i as int) =~= es);
        }
        None
    }
}

impl Clone for Metadata {
    /// A copy with the same keys in the same order.
    fn clone(&self) -> (c: Self)
        ensures
            c@.len() == self@.len(),
            forall|i: int| 0 <= i < self@.len() ==> (#[trigger] c@[i]).0 == self@[i].0,
    {
        proof {
            use_type_invariant(self);
        }
        let mut entries: Vec<(String, GgufValue)> = Vec::new();
        let mut i: usize = 0;
        while i < self.entries.len()
            invariant
                i <= self.entries.len(),
                entries.len() == i,
                keys_ascending(entries_view(self.entries@)),
                forall|j: int| 0 <= j < i ==> (#[trigger] entries@[j]).0@ == self.entries@[j].0@,
            decreases self.entries.len() - i,
        {
            let k = self.entries[i].0.clone();
            let v = self.entries[i].1.clone();
            entries.push((k, v));
            i = i + 1;
        }
        let ghost a = entries_view(entries@);
        let ghost b = entries_view(self.entries@);
        assert forall|x: int, y: int| 0 <= x < y < a.len() implies chars_before(
            #[trigger] a[x].0,
            #[trigger] a[y].0,
        ) by {
            assert(a[x].0 == entries@[x].0@);
            assert(a[y].0 == entries@[y].0@);
            assert(chars_before(b[x].0, b[y].0));
        }
        Metadata { entries }
    }
}

/// Parsed GGUF header. Tensor data is never read.
#[derive(Debug, Clone)]
pub struct GgufHeader {
    pub version: u32,
    pub kv_count: u64,
    pub metadata: Metadata,
    pub tensors: Vec<GgufTensorInfo>,
}

/// Metadata entries as (key, value) views.
pub open spec fn entries_view(es: Seq<(String, GgufValue)>) -> Seq<(Seq<char>, ValueView)> {
    es.map_values(|e: (String, GgufValue)| (e.0@, e.1@))
}

/// Value stored under `key`: the first entry with that key.
pub open spec fn lookup(es: Seq<(Seq<char>, ValueView)>, key: Seq<char>) -> Option<ValueView>
    decreases es.len(),
{
    if es.len() == 0 {
        None
    } else {
        match lookup(es.drop_last(), key) {
            Some(v) => Some(v),
            None => if es.last().0 == key {
                Some(es.last().1)
            } else {
                None
            },
        }
    }
}

impl GgufHeader {
    /// The metadata entries as views.
    pub open spec fn entries(&self) -> Seq<(Seq<char>, ValueView)> {
        self.metadata@
    }

    /// The value stored under `key`, if any.
    pub open spec fn value_of(&self, key: Seq<char>) -> Option<ValueView> {
        lookup(self.entries(), key)
    }

    /// The tensor records as views.
    pub open spec fn tensor_views(&self) -> Seq<TensorView> {
        self.tensors@.map_values(|t: GgufTensorInfo| t@)
    }

    /// This header holds exactly what `h` describes.
    pub open spec fn represents(&self, h: HeaderView) -> bool {
        &&& self.version == h.version
        &&& self.kv_count == h.kv_count
        &&& self.tensor_views() == h.tensors
        &&& forall|k: Seq<char>| #[trigger] self.value_of(k) == final_value(h.kvs, k)
        &&& keys_ascending(self.entries())
    }
}

proof fn lemma_lookup_prefix(es: Seq<(Seq<char>, ValueView)>, i: int, key: Seq<char>)
    requires
        0 <= i <= es.len(),
        lookup(es.take(i), key) is Some,
    ensures
        lookup(es, key) == lookup(es.take(i), key),
    decreases es.len(),
{
    if i == es.len() {
        assert(es.take(i) =~= es);
    } else {
        assert(es.drop_last().take(i) =~= es.take(i));
        lemma_lookup_prefix(es.drop_last(), i, key);
    }
}

proof fn lemma_lookup_update(
    es: Seq<(Seq<char>, ValueView)>,
    i: int,
    key: Seq<char>,
    v: ValueView,
    k2: Seq<char>,
)
    requires
        0 <= i < es.len(),
        es[i].0 == key,
        lookup(es.take(i), key) is None,
    ensures
        lookup(es.update(i, (key, v)), k2) == if k2 == key {
            Some(v)
        } else {
            lookup(es, k2)
        },
    decreases es.len(),
{
    let u = es.update(i, (key, v));
    if i == es.len() - 1 {
        assert(u.drop_last() =~= es.take(i));
        assert(es.drop_last() =~= es.take(i));
    } else {
        assert(u.drop_last() =~= es.drop_last().update(i, (key, v)));
        assert(es.drop_last().take(i) =~= es.take(i));
        lemma_lookup_update(es.drop_last(), i, key, v, k2);
    }
}

/// Keys strictly ascending (code point order, as `String` orders them):
/// each key occurs once, and the entries are in key order.
pub open spec fn keys_ascending(es: Seq<(Seq<char>, ValueView)>) -> bool {
    forall|i: int, j: int| 0 <= i < j < es.len() ==> chars_before(#[trigger] es[i].0, #[trigger] es[j].0)
}

/// Looking a key up in two lists laid end to end.
proof fn lemma_lookup_concat(x: Seq<(Seq<char>, ValueView)>, y: Seq<(Seq<char>, ValueView)>, k: Seq<char>)
    ensures
        lookup(x + y, k) == if lookup(x, k) is Some {
            lookup(x, k)
        } else {
            lookup(y, k)
        },
    decreases y.len(),
{
    if y.len() == 0 {
        assert(x + y =~= x);
    } else {
        assert((x + y).drop_last() =~= x + y.drop_last());
        lemma_lookup_concat(x, y.drop_last(), k);
    }
}

/// A list none of whose keys is `k` has no entry for it.
proof fn lemma_lookup_absent(es: Seq<(Seq<char>, ValueView)>, k: Seq<char>)
    requires
        forall|i: int| 0 <= i < es.len() ==> (#[trigger] es[i]).0 != k,
    ensures
        lookup(es, k) is None,
    decreases es.len(),
{
    if es.len() > 0 {
        lemma_lookup_absent(es.drop_last(), k);
    }
}

/// Stores `value` under `key` in a key-ordered list, replacing the value
/// already stored under the same key.
fn insert_metadata(metadata: &mut Vec<(String, GgufValue)>, key: String, value: GgufValue)
    requires
        keys_ascending(entries_view(old(metadata)@)),
    ensures
        keys_ascending(entries_view(final(metadata)@)),
        forall|k: Seq<char>| #[trigger] lookup(entries_view(final(metadata)@), k) == if k == key@ {
            Some(value@)
        } else {
            lookup(entries_view(old(metadata)@), k)
        },
{
    let ghost es = entries_view(metadata@);
    let kc = chars_of(key.as_str());
    let mut i: usize = 0;
    while i < metadata.len()
        invariant
            i <= metadata.len(),
            metadata@ == old(metadata)@,
            es == entries_view(metadata@),
            keys_ascending(es),
            kc@ == key@,
            forall|j: int| 0 <= j < i ==> chars_before(#[trigger] es[j].0, key@),
        ensures
            i <= metadata.len(),
            metadata@ == old(metadata)@,
            forall|j: int| 0 <= j < i ==> chars_before(#[trigger] es[j].0, key@),
            i < metadata.len() ==> !chars_before(es[i as int].0, key@),
        decreases metadata.len() - i,
    {
        let ki = chars_of(metadata[i].0.as_str());
        assert(ki@ == es[i as int].0);
        if !chars_less(ki.as_slice(), kc.as_slice()) {
            break;
        }
        i = i + 1;
    }
    proof {
        assert forall|j: int| 0 <= j < i implies (#[trigger] es.take(i as int)[j]).0 != key@ by {
            lemma_chars_before_irreflexive(key@);
        }
        lemma_lookup_absent(es.take(i as int), key@);
    }
    if i < metadata.len() && metadata[i].0 == key {
        proof {
            assert forall|k: Seq<char>|
                #[trigger] lookup(entries_view(metadata@.update(i as int, (key, value))), k) == if k
                    == key@ {
                    Some(value@)
                } else {
                    lookup(es, k)
                } by {
                assert(entries_view(metadata@.update(i as int, (key, value))) =~= es.update(
                    i as int,
                    (key@, value@),
                ));
                lemma_lookup_update(es, i as int, key@, value@, k);
            }
            assert(entries_view(metadata@.update(i as int, (key, value))) =~= es.update(
                i as int,
                (key@, value@),
            ));
        }
        metadata.set(i, (key, value));
        return;
    }
    let ghost kv = key@;
    let ghost vv = value@;
    proof {
        // Every key from position `i` on sorts after the new key.
        if i < es.len() {
            lemma_chars_before_total(es[i as int].0, kv);
            assert(chars_before(kv, es[i as int].0));
        }
        assert forall|m: int| i <= m < es.len() implies chars_before(kv, #[trigger] es[m].0) by {
            if m > i {
                lemma_chars_before_trans(kv, es[i as int].0, es[m].0);
            }
        }
    }
    metadata.insert(i, (key, value));
    proof {
        let ns = entries_view(metadata@);
        assert(ns =~= es.take(i as int) + seq![(kv, vv)] + es.skip(i as int));
        assert forall|a: int, c: int| 0 <= a < c < ns.len() implies chars_before(
            #[trigger] ns[a].0,
            #[trigger] ns[c].0,
        ) by {
            if c < i {
            } else if c == i {
            } else if a < i {
                lemma_chars_before_trans(ns[a].0, kv, ns[c].0);
            } else if a == i {
            } else {
                assert(ns[a] == es[a - 1]);
                assert(ns[c] == es[c - 1]);
            }
        }
        assert forall|k: Seq<char>| #[trigger] lookup(ns, k) == if k == kv {
            Some(vv)
        } else {
            lookup(es, k)
        } by {
            let x = es.take(i as int);
            let y = es.skip(i as int);
            let one = seq![(kv, vv)];
            assert(ns =~= (x + one) + y);
            lemma_lookup_concat(x + one, y, k);
            lemma_lookup_concat(x, one, k);
            lemma_lookup_concat(x, y, k);
            assert(es =~= x + y);
            assert(one.drop_last() =~= Seq::<(Seq<char>, ValueView)>::empty());
            assert(one.last() == (kv, vv));
            assert(lookup(one.drop_last(), k) is None);
            assert(lookup(one, k) == if k == kv {
                Some(vv)
            } else {
                None::<ValueView>
            });
            if k == kv {
                lemma_lookup_absent(x, k);
            }
        }
    }
}

proof fn lemma_read_kvs_err(b: Seq<u8>, p: int, version: u32, i: nat, n: nat)
    requires
        i <= n,
        read_kvs(b, p, version, i) is Err,
    ensures
        read_kvs(b, p, version, n) == read_kvs(b, p, version, i),
    decreases n - i,
{
    if i < n {
        lemma_read_kvs_err(b, p, version, i, (n - 1) as nat);
    }
}

proof fn lemma_read_dims_err(b: Seq<u8>, p: int, i: nat, n: nat)
    requires
        i <= n,
        read_dims(b, p, i) is Err,
    ensures
        read_dims(b, p, n) == read_dims(b, p, i),
    decreases n - i,
{
    if i < n {
        lemma_read_dims_err(b, p, i, (n - 1) as nat);
    }
}

proof fn lemma_read_tensors_err(b: Seq<u8>, p: int, version: u32, i: nat, n: nat)
    requires
        i <= n,
        read_tensors(b, p, version, i) is Err,
    ensures
        read_tensors(b, p, version, n) == read_tensors(b, p, version, i),
    decreases n - i,
{
    if i < n {
        lemma_read_tensors_err(b, p, version, i, (n - 1) as nat);
    }
}

fn read_metadata_pair(b: &[u8], p: usize, version: u32) -> (r: Result<((String, GgufValue), usize), GgufError>)
    ensures
        match read_kv(b@, p as int, version) {
            Ok((kv, q)) => r matches Ok((x, e)) && x.0@ == kv.0 && x.1@ == kv.1 && e == q,
            Err(err) => r matches Err(e) && e@ == err,
        },
{
    let (key, q) = match read_len_prefixed_string(b, p, version) {
        Ok(x) => x,
        Err(e) => return Err(e),
    };
    let (tid, r) = match read_u32(b, q) {
        Ok(x) => x,
        Err(e) => return Err(e),
    };
    let t = match GgufValueType::from_id(tid) {
        Some(t) => t,
        None => return Err(GgufError::UnknownValueType(tid)),
    };
    let (value, s) = match read_typed_value(b, r, t, version) {
        Ok(x) => x,
        Err(e) => return Err(e),
    };
    Ok(((key, value), s))
}

fn read_tensor_info(b: &[u8], p: usize, version: u32) -> (r: Result<(GgufTensorInfo, usize), GgufError>)
    ensures
        match read_tensor(b@, p as int, version) {
            Ok((t, q)) => r matches Ok((x, e)) && x@ == t && e == q,
            Err(err) => r matches Err(e) && e@ == err,
        },
{
    let (name, q) = match read_len_prefixed_string(b, p, version) {
        Ok(x) => x,
        Err(e) => return Err(e),
    };
    let (n_dims, r) = match read_u32(b, q) {
        Ok(x) => x,
        Err(e) => return Err(e),
    };
    if n_dims == 0 || n_dims > MAX_DIMS {
        return Err(GgufError::BadDimensionCount(name, n_dims));
    }
    let mut dims: Vec<u64> = Vec::new();
    let mut i: u32 = 0;
    let mut pos: usize = r;
    while i < n_dims
        invariant
            i <= n_dims,
            0 < n_dims <= MAX_DIMS,
            read_string(b@, p as int, version) == Ok::<(Seq<char>, int), ErrorView>((name@, q as int)),
            read_uint(b@, q as int, 4) == Ok::<(nat, int), ErrorView>((n_dims as nat, r as int)),
            read_dims(b@, r as int, i as nat) == Ok::<(Seq<u64>, int), ErrorView>((dims@, pos as int)),
        decreases n_dims - i,
    {
        let (d, next) = match read_u64(b, pos) {
            Ok(x) => x,
            Err(e) => {
                proof {
                    lemma_read_dims_err(b@, r as int, (i + 1) as nat, n_dims as nat);
                }
                return Err(e);
            },
        };
        dims.push(d);
        pos = next;
        i = i + 1;
    }
    let (tid, s) = match read_u32(b, pos) {
        Ok(x) => x,
        Err(e) => return Err(e),
    };
    let (offset, t) = match read_u64(b, s) {
        Ok(x) => x,
        Err(e) => return Err(e),
    };
    Ok((GgufTensorInfo { name, dims, dtype: GgmlType::from_id(tid), offset }, t))
}

/// The fixed part of a header (magic, version, counts) reads as given and
/// ends at `s`.
spec fn pre_counts(b: Seq<u8>, version: u32, tensor_count: u64, kv_count: u64, s: int) -> bool {
    &&& read_uint(b, 0, 4) == Ok::<(nat, int), ErrorView>((GGUF_MAGIC as nat, 4))
    &&& read_uint(b, 4, 4) == Ok::<(nat, int), ErrorView>((version as nat, 8))
    &&& 1 <= version <= 3
    &&& read_uint(b, 8, len_width(version)) == Ok::<(nat, int), ErrorView>(
        (tensor_count as nat, 8 + len_width(version) as int),
    )
    &&& read_uint(b, 8 + len_width(version) as int, len_width(version)) == Ok::<(nat, int), ErrorView>(
        (kv_count as nat, s),
    )
}

/// After the fixed part, a header is its metadata pairs then its tensor records.
proof fn lemma_parse_header_body(b: Seq<u8>, version: u32, tensor_count: u64, kv_count: u64, s: int)
    requires
        pre_counts(b, version, tensor_count, kv_count, s),
    ensures
        parse_header(b) == match read_kvs(b, s, version, kv_count as nat) {
            Err(e) => Err(e),
            Ok((kvs, t)) => match read_tensors(b, t, version, tensor_count as nat) {
                Err(e) => Err(e),
                Ok((tensors, u)) => Ok((
                    HeaderView { version, tensor_count, kv_count, kvs, tensors },
                    u,
                )),
            },
        },
{
}

impl GgufHeader {
    /// Reads a header from the start of `bytes`, returning it together with
    /// the number of bytes it spans. Bytes after the header are never read.
    pub fn parse(bytes: &[u8]) -> (r: Result<(GgufHeader, usize), GgufError>)
        ensures
            match parse_header(bytes@) {
                Ok((h, q)) => r matches Ok((x, e)) && x.represents(h) && e == q,
                Err(err) => r matches Err(e) && e@ == err,
            },
    {
        let b = bytes;
        let (magic, p) = match read_u32(b, 0) {
            Ok(x) => x,
            Err(e) => return Err(e),
        };
        if magic != GGUF_MAGIC {
            return Err(GgufError::BadMagic(magic));
        }
        let (version, q) = match read_u32(b, p) {
            Ok(x) => x,
            Err(e) => return Err(e),
        };
        if version < 1 || version > 3 {
            return Err(GgufError::UnsupportedVersion(version));
        }
        let (tensor_count, r) = match read_len(b, q, version) {
            Ok(x) => x,
            Err(e) => return Err(e),
        };
        let (kv_count, s) = match read_len(b, r, version) {
            Ok(x) => x,
            Err(e) => return Err(e),
        };

        assert(pre_counts(b@, version, tensor_count, kv_count, s as int));
        let mut metadata: Vec<(String, GgufValue)> = Vec::new();
        let ghost mut kvs: Seq<(Seq<char>, ValueView)> = Seq::empty();
        let mut i: u64 = 0;
        let mut pos: usize = s;
        while i < kv_count
            invariant
                i <= kv_count,
                b@ == bytes@,
                pre_counts(b@, version, tensor_count, kv_count, s as int),
                read_kvs(b@, s as int, version, i as nat) == Ok::<
                    (Seq<(Seq<char>, ValueView)>, int),
                    ErrorView,
                >((kvs, pos as int)),
                forall|k: Seq<char>| #[trigger]
                    lookup(entries_view(metadata@), k) == final_value(kvs, k),
                keys_ascending(entries_view(metadata@)),
            decreases kv_count - i,
        {
            let (kv, next) = match read_metadata_pair(b, pos, version) {
                Ok(x) => x,
                Err(e) => {
                    proof {
                        lemma_read_kvs_err(b@, s as int, version, (i + 1) as nat, kv_count as nat);
                        lemma_parse_header_body(b@, version, tensor_count, kv_count, s as int);
                    }
                    return Err(e);
                },
            };
            let (key, value) = kv;
            proof {
                let new_kvs = kvs.push((key@, value@));
                assert(new_kvs.drop_last() =~= kvs);
                kvs = new_kvs;
            }
            insert_metadata(&mut metadata, key, value);
            pos = next;
            i = i + 1;
        }

        let mut tensors: Vec<GgufTensorInfo> = Vec::new();
        let ghost t0 = pos;
        assert(tensors@.map_values(|t: GgufTensorInfo| t@) =~= Seq::<TensorView>::empty());
        let mut j: u64 = 0;
        while j < tensor_count
            invariant
                j <= tensor_count,
                b@ == bytes@,
                pre_counts(b@, version, tensor_count, kv_count, s as int),
                read_kvs(b@, s as int, version, kv_count as nat) == Ok::<
                    (Seq<(Seq<char>, ValueView)>, int),
                    ErrorView,
                >((kvs, t0 as int)),
                forall|k: Seq<char>| #[trigger]
                    lookup(entries_view(metadata@), k) == final_value(kvs, k),
                keys_ascending(entries_view(metadata@)),
                read_tensors(b@, t0 as int, version, j as nat) == Ok::<(Seq<TensorView>, int), ErrorView>(
                    (tensors@.map_values(|t: GgufTensorInfo| t@), pos as int),
                ),
            decreases tensor_count - j,
        {
            let (t, next) = match read_tensor_info(b, pos, version) {
                Ok(x) => x,
                Err(e) => {
                    proof {
                        lemma_read_tensors_err(b@, t0 as int, version, (j + 1) as nat, tensor_count as nat);
                        lemma_parse_header_body(b@, version, tensor_count, kv_count, s as int);
                    }
                    return Err(e);
                },
            };
            let ghost old_views = tensors@.map_values(|t: GgufTensorInfo| t@);
            tensors.push(t);
            proof {
                assert(tensors@.map_values(|t: GgufTensorInfo| t@) =~= old_views.push(t@));
            }
            pos = next;
            j = j + 1;
        }
        proof {
            lemma_parse_header_body(b@, version, tensor_count, kv_count, s as int);
        }
        let metadata = Metadata { entries: metadata };
        let header = GgufHeader { version, kv_count, metadata, tensors };
        Ok((header, pos))
    }

    /// Parse a header from the bytes of a GGUF stream, starting at offset 0.
    pub fn read_from(bytes: &[u8]) -> (r: Result<GgufHeader, String>)
        ensures
            match parse_header(bytes@) {
                Ok((h, _)) => r matches Ok(x) && x.represents(h),
                Err(err) => r matches Err(msg) && msg@ == error_message(err),
            },
    {
        match Self::parse(bytes) {
            Ok((h, _)) => Ok(h),
            Err(e) => Err(e.message()),
        }
    }
}

/// Product of a sequence of dimensions.
pub open spec fn product(dims: Seq<u64>) -> nat
    decreases dims.len(),
{
    if dims.len() == 0 {
        1
    } else {
        product(dims.drop_last()) * (dims.last() as nat)
    }
}

/// `x` capped at `u64::MAX`.
pub open spec fn saturate(x: nat) -> nat {
    if x > u64::MAX { u64::MAX as nat } else { x }
}

proof fn lemma_saturate_mul(p: nat, d: nat)
    ensures
        saturate(saturate(p) * d) == saturate(p * d),
{
    if p > u64::MAX {
        if d > 0 {
            assert(saturate(p) * d >= u64::MAX) by (nonlinear_arith)
                requires saturate(p) == u64::MAX, d > 0;
            assert(p * d > u64::MAX) by (nonlinear_arith)
                requires p > u64::MAX, d > 0;
        }
    }
}

impl GgufTensorInfo {
    /// Logical element count (product of dimensions), saturating on overflow.
    pub fn n_elements(&self) -> (n: u64)
        ensures
            n as nat == saturate(product(self.dims@)),
    {
        let mut acc: u64 = 1;
        let mut i: usize = 0;
        while i < self.dims.len()
            invariant
                i <= self.dims.len(),
                acc as nat == saturate(product(self.dims@.take(i as int))),
            decreases self.dims.len() - i,
        {
            let d = self.dims[i];
            proof {
                assert(self.dims@.take(i + 1).drop_last() =~= self.dims@.take(i as int));
                lemma_saturate_mul(product(self.dims@.take(i as int)), d as nat);
            }
            acc = match acc.checked_mul(d) {
                Some(x) => x,
                None => u64::MAX,
            };
            i = i + 1;
        }
        proof {
            assert(self.dims@.take(i as int) =~= self.dims@);
        }
        acc
    }

    /// Exact bytes this tensor occupies in the data section.
    pub fn nbytes(&self) -> (r: Option<u64>)
        requires
            nbytes_of(self.dtype, saturate(product(self.dims@))) matches Some(b) ==> b <= u64::MAX,
        ensures
            r matches Some(b) ==> nbytes_of(self.dtype, saturate(product(self.dims@))) == Some(
                b as nat,
            ),
            r is None <==> nbytes_of(self.dtype, saturate(product(self.dims@))) is None,
    {
        self.dtype.nbytes_for(self.n_elements())
    }
}

impl GgufHeader {
    /// The value stored under `key`.
    pub fn get(&self, key: &str) -> (r: Option<&GgufValue>)
        ensures
            r matches Some(v) ==> self.value_of(key@) == Some(v@),
            r is None <==> self.value_of(key@) is None,
    {
        self.metadata.get(key)
    }

    pub fn get_u64(&self, key: &str) -> (r: Option<u64>)
        ensures
            r == (match self.value_of(key@) {
                Some(v) => value_as_u64(v),
                None => None,
            }),
    {
        match self.get(key) {
            Some(v) => v.as_u64(),
            None => None,
        }
    }

    pub fn get_str(&self, key: &str) -> (r: Option<&str>)
        ensures
            r matches Some(s) ==> (self.value_of(key@) matches Some(v) && value_as_str(v) == Some(
                s@,
            )),
            r is None <==> (match self.value_of(key@) {
                Some(v) => value_as_str(v) is None,
                None => true,
            }),
    {
        match self.get(key) {
            Some(v) => v.as_str(),
            None => None,
        }
    }

    /// Bit pattern of the floating-point value stored under `key`.
    pub fn get_float_bits(&self, key: &str) -> (r: Option<FloatBits>)
        ensures
            r == (match self.value_of(key@) {
                Some(v) => value_as_float_bits(v),
                None => None,
            }),
    {
        match self.get(key) {
            Some(v) => v.float_bits(),
            None => None,
        }
    }

    pub fn get_i64(&self, key: &str) -> (r: Option<i64>)
        ensures
            r == (match self.value_of(key@) {
                Some(v) => value_as_i64(v),
                None => None,
            }),
    {
        match self.get(key) {
            Some(v) => v.as_i64(),
            None => None,
        }
    }
}

} // verus!
