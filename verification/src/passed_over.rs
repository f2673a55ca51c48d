//! What the header reader looks at: every reading step depends only on the
//! bytes from its start position on, and payloads that are passed over are
//! never looked at, so a reader that stopped inside one may resume after it
//! with anything standing in for the bytes it skipped.
use vstd::prelude::*;

use crate::format::{
    ErrorView, MAX_STRING_BYTES, le_value, len_width, lemma_le_value_ext,
    lemma_read_kvs_ext, lemma_read_string_ext,
    lemma_read_uint_ext, lemma_skip_strings_ext, parse_header, read_array, read_dims, read_kv,
    read_kvs, read_string, read_tensor, read_tensors, read_uint, read_value, skip, skip_strings,
};
use crate::value::{GgufValueType, fixed_width_of, value_type_of_id};

verus! {

/// `s1` and `s2` have the same length and the same bytes from `p` on.
pub open spec fn agree_from(s1: Seq<u8>, s2: Seq<u8>, p: int) -> bool {
    s1.len() == s2.len() && forall|i: int| p <= i < s1.len() ==> s1[i] == s2[i]
}

proof fn lemma_agree_later(s1: Seq<u8>, s2: Seq<u8>, p: int, q: int)
    requires
        agree_from(s1, s2, p),
        p <= q,
    ensures
        agree_from(s1, s2, q),
{
}

proof fn lemma_le_value_from(s1: Seq<u8>, s2: Seq<u8>, p: int, n: nat)
    requires
        agree_from(s1, s2, p),
        0 <= p,
        p + n <= s1.len(),
    ensures
        le_value(s1, p, n) == le_value(s2, p, n),
    decreases n,
{
    if n > 0 {
        lemma_le_value_from(s1, s2, p + 1, (n - 1) as nat);
        assert(s1[p] == s2[p]);
    }
}

proof fn lemma_read_uint_from(s1: Seq<u8>, s2: Seq<u8>, p: int, n: nat)
    requires
        agree_from(s1, s2, p),
    ensures
        read_uint(s1, p, n) == read_uint(s2, p, n),
        read_uint(s1, p, n) matches Ok((_, q)) ==> q >= p,
{
    if 0 <= p && p + n <= s1.len() {
        lemma_le_value_from(s1, s2, p, n);
    }
}

proof fn lemma_read_string_from(s1: Seq<u8>, s2: Seq<u8>, p: int, version: u32)
    requires
        agree_from(s1, s2, p),
    ensures
        read_string(s1, p, version) == read_string(s2, p, version),
        read_string(s1, p, version) matches Ok((_, q)) ==> q >= p,
{
    lemma_read_uint_from(s1, s2, p, len_width(version));
    if let Ok((len, q)) = read_uint(s1, p, len_width(version)) {
        if len <= MAX_STRING_BYTES && q + len <= s1.len() {
            assert(s1.subrange(q, q + len) =~= s2.subrange(q, q + len));
        }
    }
}

proof fn lemma_skip_strings_from(s1: Seq<u8>, s2: Seq<u8>, p: int, version: u32, n: nat)
    requires
        agree_from(s1, s2, p),
    ensures
        skip_strings(s1, p, version, n) == skip_strings(s2, p, version, n),
        skip_strings(s1, p, version, n) matches Ok(q) ==> q >= p,
    decreases n,
{
    if n > 0 {
        lemma_skip_strings_from(s1, s2, p, version, (n - 1) as nat);
        if let Ok(q) = skip_strings(s1, p, version, (n - 1) as nat) {
            lemma_agree_later(s1, s2, p, q);
            lemma_read_uint_from(s1, s2, q, len_width(version));
        }
    }
}

proof fn lemma_read_array_from(s1: Seq<u8>, s2: Seq<u8>, p: int, version: u32)
    requires
        agree_from(s1, s2, p),
    ensures
        read_array(s1, p, version) == read_array(s2, p, version),
        read_array(s1, p, version) matches Ok((_, q)) ==> q >= p,
{
    lemma_read_uint_from(s1, s2, p, 4);
    if let Ok((tid, q)) = read_uint(s1, p, 4) {
        lemma_agree_later(s1, s2, p, q);
        lemma_read_uint_from(s1, s2, q, len_width(version));
        if let Ok((len, r)) = read_uint(s1, q, len_width(version)) {
            lemma_agree_later(s1, s2, q, r);
            lemma_skip_strings_from(s1, s2, r, version, len);
        }
    }
}

proof fn lemma_read_value_from(s1: Seq<u8>, s2: Seq<u8>, p: int, t: GgufValueType, version: u32)
    requires
        agree_from(s1, s2, p),
    ensures
        read_value(s1, p, t, version) == read_value(s2, p, t, version),
        read_value(s1, p, t, version) matches Ok((_, q)) ==> q >= p,
{
    match t {
        GgufValueType::U8 | GgufValueType::I8 | GgufValueType::Bool => lemma_read_uint_from(s1, s2, p, 1),
        GgufValueType::U16 | GgufValueType::I16 => lemma_read_uint_from(s1, s2, p, 2),
        GgufValueType::U32 | GgufValueType::I32 | GgufValueType::F32 => lemma_read_uint_from(s1, s2, p, 4),
        GgufValueType::U64 | GgufValueType::I64 | GgufValueType::F64 => lemma_read_uint_from(s1, s2, p, 8),
        GgufValueType::Str => lemma_read_string_from(s1, s2, p, version),
        GgufValueType::Array => lemma_read_array_from(s1, s2, p, version),
    }
}

proof fn lemma_read_kv_from(s1: Seq<u8>, s2: Seq<u8>, p: int, version: u32)
    requires
        agree_from(s1, s2, p),
    ensures
        read_kv(s1, p, version) == read_kv(s2, p, version),
        read_kv(s1, p, version) matches Ok((_, q)) ==> q >= p,
{
    lemma_read_string_from(s1, s2, p, version);
    if let Ok((_, q)) = read_string(s1, p, version) {
        lemma_agree_later(s1, s2, p, q);
        lemma_read_uint_from(s1, s2, q, 4);
        if let Ok((tid, r)) = read_uint(s1, q, 4) {
            lemma_agree_later(s1, s2, q, r);
            if let Some(t) = value_type_of_id(tid as u32) {
                lemma_read_value_from(s1, s2, r, t, version);
            }
        }
    }
}

proof fn lemma_read_kvs_from(s1: Seq<u8>, s2: Seq<u8>, p: int, version: u32, n: nat)
    requires
        agree_from(s1, s2, p),
    ensures
        read_kvs(s1, p, version, n) == read_kvs(s2, p, version, n),
        read_kvs(s1, p, version, n) matches Ok((_, q)) ==> q >= p,
    decreases n,
{
    if n > 0 {
        lemma_read_kvs_from(s1, s2, p, version, (n - 1) as nat);
        if let Ok((_, q)) = read_kvs(s1, p, version, (n - 1) as nat) {
            lemma_agree_later(s1, s2, p, q);
            lemma_read_kv_from(s1, s2, q, version);
        }
    }
}

proof fn lemma_read_dims_from(s1: Seq<u8>, s2: Seq<u8>, p: int, n: nat)
    requires
        agree_from(s1, s2, p),
    ensures
        read_dims(s1, p, n) == read_dims(s2, p, n),
        read_dims(s1, p, n) matches Ok((_, q)) ==> q >= p,
    decreases n,
{
    if n > 0 {
        lemma_read_dims_from(s1, s2, p, (n - 1) as nat);
        if let Ok((_, q)) = read_dims(s1, p, (n - 1) as nat) {
            lemma_agree_later(s1, s2, p, q);
            lemma_read_uint_from(s1, s2, q, 8);
        }
    }
}

proof fn lemma_read_tensor_from(s1: Seq<u8>, s2: Seq<u8>, p: int, version: u32)
    requires
        agree_from(s1, s2, p),
    ensures
        read_tensor(s1, p, version) == read_tensor(s2, p, version),
        read_tensor(s1, p, version) matches Ok((_, q)) ==> q >= p,
{
    lemma_read_string_from(s1, s2, p, version);
    if let Ok((_, q)) = read_string(s1, p, version) {
        lemma_agree_later(s1, s2, p, q);
        lemma_read_uint_from(s1, s2, q, 4);
        if let Ok((nd, r)) = read_uint(s1, q, 4) {
            lemma_agree_later(s1, s2, q, r);
            lemma_read_dims_from(s1, s2, r, nd);
            if let Ok((_, s)) = read_dims(s1, r, nd) {
                lemma_agree_later(s1, s2, r, s);
                lemma_read_uint_from(s1, s2, s, 4);
                if let Ok((_, t)) = read_uint(s1, s, 4) {
                    lemma_agree_later(s1, s2, s, t);
                    lemma_read_uint_from(s1, s2, t, 8);
                }
            }
        }
    }
}

proof fn lemma_read_tensors_from(s1: Seq<u8>, s2: Seq<u8>, p: int, version: u32, n: nat)
    requires
        agree_from(s1, s2, p),
    ensures
        read_tensors(s1, p, version, n) == read_tensors(s2, p, version, n),
        read_tensors(s1, p, version, n) matches Ok((_, q)) ==> q >= p,
    decreases n,
{
    if n > 0 {
        lemma_read_tensors_from(s1, s2, p, version, (n - 1) as nat);
        if let Ok((_, q)) = read_tensors(s1, p, version, (n - 1) as nat) {
            lemma_agree_later(s1, s2, p, q);
            lemma_read_tensor_from(s1, s2, q, version);
        }
    }
}

/// A result that stopped inside a payload that is passed over, reading to
/// resume at `e`.
pub open spec fn stops_to_skip<T>(r: Result<T, ErrorView>, e: int) -> bool {
    r matches Err(ErrorView::Truncated { skip_to: Some(x) }) && x == e
}

/// `s1` and `s2` both begin with `b`, are equally long, reach at least to
/// `e`, and agree from `e` on: they can differ only between the end of `b`
/// and `e`.
pub open spec fn differ_only_before(b: Seq<u8>, e: int, s1: Seq<u8>, s2: Seq<u8>) -> bool {
    &&& b.len() <= e <= s1.len()
    &&& s1.take(b.len() as int) == b
    &&& s2.take(b.len() as int) == b
    &&& agree_from(s1, s2, e)
}

proof fn lemma_split(b: Seq<u8>, s: Seq<u8>)
    requires
        b.len() <= s.len(),
        s.take(b.len() as int) == b,
    ensures
        s == b + s.skip(b.len() as int),
{
    assert(s =~= b + s.skip(b.len() as int));
}

proof fn lemma_skip_hole(b: Seq<u8>, p: int, n: nat, e: int, s1: Seq<u8>, s2: Seq<u8>)
    requires
        stops_to_skip(skip(b, p, n), e),
        differ_only_before(b, e, s1, s2),
    ensures
        skip(s1, p, n) == skip(s2, p, n),
        skip(s1, p, n) matches Ok(q) ==> q >= e,
{
}

proof fn lemma_skip_strings_hole(
    b: Seq<u8>,
    p: int,
    version: u32,
    n: nat,
    e: int,
    s1: Seq<u8>,
    s2: Seq<u8>,
)
    requires
        stops_to_skip(skip_strings(b, p, version, n), e),
        differ_only_before(b, e, s1, s2),
    ensures
        skip_strings(s1, p, version, n) == skip_strings(s2, p, version, n),
        skip_strings(s1, p, version, n) matches Ok(q) ==> q >= e,
    decreases n,
{
    lemma_split(b, s1);
    lemma_split(b, s2);
    let w = len_width(version);
    if n > 0 {
        let prev = skip_strings(b, p, version, (n - 1) as nat);
        if let Ok(q) = prev {
            lemma_skip_strings_ext(b, s1.skip(b.len() as int), p, version, (n - 1) as nat);
            lemma_skip_strings_ext(b, s2.skip(b.len() as int), p, version, (n - 1) as nat);
            lemma_read_uint_ext(b, s1.skip(b.len() as int), q, w);
            lemma_read_uint_ext(b, s2.skip(b.len() as int), q, w);
            let (len, r) = read_uint(b, q, w)->Ok_0;
            lemma_skip_hole(b, r, len, e, s1, s2);
        } else {
            lemma_skip_strings_hole(b, p, version, (n - 1) as nat, e, s1, s2);
            if let Ok(q) = skip_strings(s1, p, version, (n - 1) as nat) {
                lemma_agree_later(s1, s2, e, q);
                lemma_read_uint_from(s1, s2, q, w);
            }
        }
    }
}

proof fn lemma_read_array_hole(b: Seq<u8>, p: int, version: u32, e: int, s1: Seq<u8>, s2: Seq<u8>)
    requires
        stops_to_skip(read_array(b, p, version), e),
        differ_only_before(b, e, s1, s2),
    ensures
        read_array(s1, p, version) == read_array(s2, p, version),
        read_array(s1, p, version) matches Ok((_, q)) ==> q >= e,
{
    lemma_split(b, s1);
    lemma_split(b, s2);
    let x1 = s1.skip(b.len() as int);
    let x2 = s2.skip(b.len() as int);
    lemma_read_uint_ext(b, x1, p, 4);
    lemma_read_uint_ext(b, x2, p, 4);
    let (tid, q) = read_uint(b, p, 4)->Ok_0;
    let elem_type = value_type_of_id(tid as u32)->Some_0;
    lemma_read_uint_ext(b, x1, q, len_width(version));
    lemma_read_uint_ext(b, x2, q, len_width(version));
    let (len, r) = read_uint(b, q, len_width(version))->Ok_0;
    match fixed_width_of(elem_type) {
        Some(w) => {
            lemma_skip_hole(b, r, (w * len) as nat, e, s1, s2);
        },
        None => {
            lemma_skip_strings_hole(b, r, version, len, e, s1, s2);
        },
    }
}

proof fn lemma_read_value_hole(
    b: Seq<u8>,
    p: int,
    t: GgufValueType,
    version: u32,
    e: int,
    s1: Seq<u8>,
    s2: Seq<u8>,
)
    requires
        stops_to_skip(read_value(b, p, t, version), e),
        differ_only_before(b, e, s1, s2),
    ensures
        read_value(s1, p, t, version) == read_value(s2, p, t, version),
        read_value(s1, p, t, version) matches Ok((_, q)) ==> q >= e,
{
    if t == GgufValueType::Array {
        lemma_read_array_hole(b, p, version, e, s1, s2);
    }
}

proof fn lemma_read_kv_hole(b: Seq<u8>, p: int, version: u32, e: int, s1: Seq<u8>, s2: Seq<u8>)
    requires
        stops_to_skip(read_kv(b, p, version), e),
        differ_only_before(b, e, s1, s2),
    ensures
        read_kv(s1, p, version) == read_kv(s2, p, version),
        read_kv(s1, p, version) matches Ok((_, q)) ==> q >= e,
{
    lemma_split(b, s1);
    lemma_split(b, s2);
    let x1 = s1.skip(b.len() as int);
    let x2 = s2.skip(b.len() as int);
    lemma_read_string_ext(b, x1, p, version);
    lemma_read_string_ext(b, x2, p, version);
    let (_, q) = read_string(b, p, version)->Ok_0;
    lemma_read_uint_ext(b, x1, q, 4);
    lemma_read_uint_ext(b, x2, q, 4);
    let (tid, r) = read_uint(b, q, 4)->Ok_0;
    let t = value_type_of_id(tid as u32)->Some_0;
    lemma_read_value_hole(b, r, t, version, e, s1, s2);
}

proof fn lemma_read_kvs_hole(
    b: Seq<u8>,
    p: int,
    version: u32,
    n: nat,
    e: int,
    s1: Seq<u8>,
    s2: Seq<u8>,
)
    requires
        stops_to_skip(read_kvs(b, p, version, n), e),
        differ_only_before(b, e, s1, s2),
    ensures
        read_kvs(s1, p, version, n) == read_kvs(s2, p, version, n),
        read_kvs(s1, p, version, n) matches Ok((_, q)) ==> q >= e,
    decreases n,
{
    lemma_split(b, s1);
    lemma_split(b, s2);
    if n > 0 {
        let prev = read_kvs(b, p, version, (n - 1) as nat);
        if let Ok((_, q)) = prev {
            lemma_read_kvs_ext(b, s1.skip(b.len() as int), p, version, (n - 1) as nat);
            lemma_read_kvs_ext(b, s2.skip(b.len() as int), p, version, (n - 1) as nat);
            lemma_read_kv_hole(b, q, version, e, s1, s2);
        } else {
            lemma_read_kvs_hole(b, p, version, (n - 1) as nat, e, s1, s2);
            if let Ok((_, q)) = read_kvs(s1, p, version, (n - 1) as nat) {
                lemma_agree_later(s1, s2, e, q);
                lemma_read_kv_from(s1, s2, q, version);
            }
        }
    }
}

proof fn lemma_read_dims_never_skip(b: Seq<u8>, p: int, n: nat)
    ensures
        !(read_dims(b, p, n) matches Err(ErrorView::Truncated { skip_to: Some(_) })),
    decreases n,
{
    if n > 0 {
        lemma_read_dims_never_skip(b, p, (n - 1) as nat);
    }
}

proof fn lemma_read_tensors_never_skip(b: Seq<u8>, p: int, version: u32, n: nat)
    ensures
        !(read_tensors(b, p, version, n) matches Err(ErrorView::Truncated { skip_to: Some(_) })),
    decreases n,
{
    if n > 0 {
        lemma_read_tensors_never_skip(b, p, version, (n - 1) as nat);
        if let Ok((_, q)) = read_tensors(b, p, version, (n - 1) as nat) {
            if let Ok((_, q1)) = read_string(b, q, version) {
                if let Ok((nd, r)) = read_uint(b, q1, 4) {
                    lemma_read_dims_never_skip(b, r, nd);
                }
            }
        }
    }
}

/// Payloads that are passed over are never looked at. When the bytes `b`
/// end inside such a payload (reading would resume at `e`), the outcome on
/// any longer input that begins with `b` does not depend on what stands
/// between the end of `b` and `e`: zeros there parse exactly like the real
/// bytes.
pub proof fn lemma_passed_over_bytes_are_not_read(b: Seq<u8>, e: int, s1: Seq<u8>, s2: Seq<u8>)
    requires
        stops_to_skip(parse_header(b), e),
        differ_only_before(b, e, s1, s2),
    ensures
        parse_header(s1) == parse_header(s2),
{
    lemma_split(b, s1);
    lemma_split(b, s2);
    let x1 = s1.skip(b.len() as int);
    let x2 = s2.skip(b.len() as int);
    lemma_read_uint_ext(b, x1, 0, 4);
    lemma_read_uint_ext(b, x2, 0, 4);
    lemma_read_uint_ext(b, x1, 4, 4);
    lemma_read_uint_ext(b, x2, 4, 4);
    let (version, _) = read_uint(b, 4, 4)->Ok_0;
    let w = len_width(version as u32);
    lemma_read_uint_ext(b, x1, 8, w);
    lemma_read_uint_ext(b, x2, 8, w);
    let (n_tensors, r) = read_uint(b, 8, w)->Ok_0;
    lemma_read_uint_ext(b, x1, r, w);
    lemma_read_uint_ext(b, x2, r, w);
    let (n_kv, s) = read_uint(b, r, w)->Ok_0;
    let kvs = read_kvs(b, s, version as u32, n_kv);
    if let Ok((_, t)) = kvs {
        lemma_read_tensors_never_skip(b, t, version as u32, n_tensors);
    } else {
        lemma_read_kvs_hole(b, s, version as u32, n_kv, e, s1, s2);
        if let Ok((_, t)) = read_kvs(s1, s, version as u32, n_kv) {
            lemma_agree_later(s1, s2, e, t);
            lemma_read_tensors_from(s1, s2, t, version as u32, n_tensors);
        }
    }
}

/// A result that stopped for lack of bytes.
pub open spec fn truncated<T>(r: Result<T, ErrorView>) -> bool {
    r matches Err(ErrorView::Truncated { .. })
}

proof fn lemma_read_uint_prefix(b: Seq<u8>, p: int, n: nat, k: int)
    requires
        read_uint(b, p, n) is Ok,
        0 <= p <= k <= b.len(),
    ensures
        k >= read_uint(b, p, n)->Ok_0.1 ==> read_uint(b.take(k), p, n) == read_uint(b, p, n),
        k < read_uint(b, p, n)->Ok_0.1 ==> truncated(read_uint(b.take(k), p, n)),
{
    if k >= p + n {
        assert(b =~= b.take(k) + b.skip(k));
        lemma_le_value_ext(b.take(k), b.skip(k), p, n);
    }
}

proof fn lemma_read_string_prefix(b: Seq<u8>, p: int, version: u32, k: int)
    requires
        read_string(b, p, version) is Ok,
        0 <= p <= k <= b.len(),
    ensures
        k >= read_string(b, p, version)->Ok_0.1 ==> read_string(b.take(k), p, version)
            == read_string(b, p, version),
        k < read_string(b, p, version)->Ok_0.1 ==> truncated(read_string(b.take(k), p, version)),
{
    let w = len_width(version);
    lemma_read_uint_prefix(b, p, w, k);
    let (len, q) = read_uint(b, p, w)->Ok_0;
    if k >= q + len && q + len >= q {
        assert(b.take(k).subrange(q, q + len) =~= b.subrange(q, q + len));
    }
}

proof fn lemma_skip_prefix(b: Seq<u8>, p: int, n: nat, k: int)
    requires
        skip(b, p, n) is Ok,
        0 <= p <= k <= b.len(),
    ensures
        k >= skip(b, p, n)->Ok_0 ==> skip(b.take(k), p, n) == skip(b, p, n),
        k < skip(b, p, n)->Ok_0 ==> truncated(skip(b.take(k), p, n)),
{
}

proof fn lemma_skip_strings_prefix(b: Seq<u8>, p: int, version: u32, n: nat, k: int)
    requires
        skip_strings(b, p, version, n) is Ok,
        0 <= p <= k <= b.len(),
    ensures
        k >= skip_strings(b, p, version, n)->Ok_0 ==> skip_strings(b.take(k), p, version, n)
            == skip_strings(b, p, version, n),
        k < skip_strings(b, p, version, n)->Ok_0 ==> truncated(
            skip_strings(b.take(k), p, version, n),
        ),
    decreases n,
{
    if n > 0 {
        let w = len_width(version);
        lemma_skip_strings_prefix(b, p, version, (n - 1) as nat, k);
        lemma_skip_strings_from(b, b, p, version, (n - 1) as nat);
        let q = skip_strings(b, p, version, (n - 1) as nat)->Ok_0;
        let (len, r) = read_uint(b, q, w)->Ok_0;
        if k >= q {
            lemma_read_uint_prefix(b, q, w, k);
            if k >= r {
                lemma_skip_prefix(b, r, len, k);
            }
        }
    }
}

proof fn lemma_read_array_prefix(b: Seq<u8>, p: int, version: u32, k: int)
    requires
        read_array(b, p, version) is Ok,
        0 <= p <= k <= b.len(),
    ensures
        k >= read_array(b, p, version)->Ok_0.1 ==> read_array(b.take(k), p, version)
            == read_array(b, p, version),
        k < read_array(b, p, version)->Ok_0.1 ==> truncated(read_array(b.take(k), p, version)),
{
    lemma_read_uint_prefix(b, p, 4, k);
    let (tid, q) = read_uint(b, p, 4)->Ok_0;
    let elem_type = value_type_of_id(tid as u32)->Some_0;
    let (len, r) = read_uint(b, q, len_width(version))->Ok_0;
    if k >= q {
        lemma_read_uint_prefix(b, q, len_width(version), k);
        if k >= r {
            match fixed_width_of(elem_type) {
                Some(w) => {
                    lemma_skip_prefix(b, r, (w * len) as nat, k);
                },
                None => {
                    lemma_skip_strings_prefix(b, r, version, len, k);
                },
            }
        }
    }
    if fixed_width_of(elem_type) is None {
        lemma_skip_strings_from(b, b, r, version, len);
    }
}

proof fn lemma_read_value_prefix(b: Seq<u8>, p: int, t: GgufValueType, version: u32, k: int)
    requires
        read_value(b, p, t, version) is Ok,
        0 <= p <= k <= b.len(),
    ensures
        k >= read_value(b, p, t, version)->Ok_0.1 ==> read_value(b.take(k), p, t, version)
            == read_value(b, p, t, version),
        k < read_value(b, p, t, version)->Ok_0.1 ==> truncated(
            read_value(b.take(k), p, t, version),
        ),
{
    match t {
        GgufValueType::U8 | GgufValueType::I8 | GgufValueType::Bool => lemma_read_uint_prefix(b, p, 1, k),
        GgufValueType::U16 | GgufValueType::I16 => lemma_read_uint_prefix(b, p, 2, k),
        GgufValueType::U32 | GgufValueType::I32 | GgufValueType::F32 => lemma_read_uint_prefix(b, p, 4, k),
        GgufValueType::U64 | GgufValueType::I64 | GgufValueType::F64 => lemma_read_uint_prefix(b, p, 8, k),
        GgufValueType::Str => lemma_read_string_prefix(b, p, version, k),
        GgufValueType::Array => lemma_read_array_prefix(b, p, version, k),
    }
}

proof fn lemma_read_kv_prefix(b: Seq<u8>, p: int, version: u32, k: int)
    requires
        read_kv(b, p, version) is Ok,
        0 <= p <= k <= b.len(),
    ensures
        k >= read_kv(b, p, version)->Ok_0.1 ==> read_kv(b.take(k), p, version) == read_kv(
            b,
            p,
            version,
        ),
        k < read_kv(b, p, version)->Ok_0.1 ==> truncated(read_kv(b.take(k), p, version)),
{
    lemma_read_string_prefix(b, p, version, k);
    lemma_read_string_from(b, b, p, version);
    let (_, q) = read_string(b, p, version)->Ok_0;
    let (tid, r) = read_uint(b, q, 4)->Ok_0;
    let t = value_type_of_id(tid as u32)->Some_0;
    if k >= q {
        lemma_read_uint_prefix(b, q, 4, k);
        if k >= r {
            lemma_read_value_prefix(b, r, t, version, k);
        }
    }
    lemma_read_value_from(b, b, r, t, version);
}

proof fn lemma_read_kvs_prefix(b: Seq<u8>, p: int, version: u32, n: nat, k: int)
    requires
        read_kvs(b, p, version, n) is Ok,
        0 <= p <= k <= b.len(),
    ensures
        k >= read_kvs(b, p, version, n)->Ok_0.1 ==> read_kvs(b.take(k), p, version, n)
            == read_kvs(b, p, version, n),
        k < read_kvs(b, p, version, n)->Ok_0.1 ==> truncated(read_kvs(b.take(k), p, version, n)),
    decreases n,
{
    if n > 0 {
        lemma_read_kvs_prefix(b, p, version, (n - 1) as nat, k);
        lemma_read_kvs_from(b, b, p, version, (n - 1) as nat);
        let (_, q) = read_kvs(b, p, version, (n - 1) as nat)->Ok_0;
        if k >= q {
            lemma_read_kv_prefix(b, q, version, k);
        }
        lemma_read_kv_from(b, b, q, version);
    }
}

proof fn lemma_read_dims_prefix(b: Seq<u8>, p: int, n: nat, k: int)
    requires
        read_dims(b, p, n) is Ok,
        0 <= p <= k <= b.len(),
    ensures
        k >= read_dims(b, p, n)->Ok_0.1 ==> read_dims(b.take(k), p, n) == read_dims(b, p, n),
        k < read_dims(b, p, n)->Ok_0.1 ==> truncated(read_dims(b.take(k), p, n)),
    decreases n,
{
    if n > 0 {
        lemma_read_dims_prefix(b, p, (n - 1) as nat, k);
        lemma_read_dims_from(b, b, p, (n - 1) as nat);
        let (_, q) = read_dims(b, p, (n - 1) as nat)->Ok_0;
        if k >= q {
            lemma_read_uint_prefix(b, q, 8, k);
        }
    }
}

proof fn lemma_read_tensor_prefix(b: Seq<u8>, p: int, version: u32, k: int)
    requires
        read_tensor(b, p, version) is Ok,
        0 <= p <= k <= b.len(),
    ensures
        k >= read_tensor(b, p, version)->Ok_0.1 ==> read_tensor(b.take(k), p, version)
            == read_tensor(b, p, version),
        k < read_tensor(b, p, version)->Ok_0.1 ==> truncated(read_tensor(b.take(k), p, version)),
{
    lemma_read_string_prefix(b, p, version, k);
    lemma_read_string_from(b, b, p, version);
    let (_, q) = read_string(b, p, version)->Ok_0;
    let (nd, r) = read_uint(b, q, 4)->Ok_0;
    lemma_read_dims_from(b, b, r, nd);
    let (_, s) = read_dims(b, r, nd)->Ok_0;
    let (_, t) = read_uint(b, s, 4)->Ok_0;
    if k >= q {
        lemma_read_uint_prefix(b, q, 4, k);
        if k >= r {
            lemma_read_dims_prefix(b, r, nd, k);
            if k >= s {
                lemma_read_uint_prefix(b, s, 4, k);
                if k >= t {
                    lemma_read_uint_prefix(b, t, 8, k);
                }
            }
        }
    }
}

proof fn lemma_read_tensors_prefix(b: Seq<u8>, p: int, version: u32, n: nat, k: int)
    requires
        read_tensors(b, p, version, n) is Ok,
        0 <= p <= k <= b.len(),
    ensures
        k >= read_tensors(b, p, version, n)->Ok_0.1 ==> read_tensors(b.take(k), p, version, n)
            == read_tensors(b, p, version, n),
        k < read_tensors(b, p, version, n)->Ok_0.1 ==> truncated(
            read_tensors(b.take(k), p, version, n),
        ),
    decreases n,
{
    if n > 0 {
        lemma_read_tensors_prefix(b, p, version, (n - 1) as nat, k);
        lemma_read_tensors_from(b, b, p, version, (n - 1) as nat);
        let (_, q) = read_tensors(b, p, version, (n - 1) as nat)->Ok_0;
        if k >= q {
            lemma_read_tensor_prefix(b, q, version, k);
        }
        lemma_read_tensor_from(b, b, q, version);
    }
}

/// A header's length is exact: the bytes up to its end parse to the same
/// header, and every shorter prefix stops for lack of bytes.
pub proof fn lemma_header_prefixes(b: Seq<u8>, k: int)
    requires
        parse_header(b) is Ok,
        0 <= k <= b.len(),
    ensures
        k >= parse_header(b)->Ok_0.1 ==> parse_header(b.take(k)) == parse_header(b),
        k < parse_header(b)->Ok_0.1 ==> truncated(parse_header(b.take(k))),
{
    let (version, _) = read_uint(b, 4, 4)->Ok_0;
    let w = len_width(version as u32);
    let (n_tensors, r) = read_uint(b, 8, w)->Ok_0;
    let (n_kv, s) = read_uint(b, r, w)->Ok_0;
    lemma_read_kvs_from(b, b, s, version as u32, n_kv);
    let (_, t) = read_kvs(b, s, version as u32, n_kv)->Ok_0;
    lemma_read_tensors_from(b, b, t, version as u32, n_tensors);
    lemma_read_uint_prefix(b, 0, 4, k);
    if k >= 4 {
        lemma_read_uint_prefix(b, 4, 4, k);
        if k >= 8 {
            lemma_read_uint_prefix(b, 8, w, k);
            if k >= r {
                lemma_read_uint_prefix(b, r, w, k);
                if k >= s {
                    lemma_read_kvs_prefix(b, s, version as u32, n_kv, k);
                    if k >= t {
                        lemma_read_tensors_prefix(b, t, version as u32, n_tensors, k);
                    }
                }
            }
        }
    }
}

} // verus!
