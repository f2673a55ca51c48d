//! Architecture view derived from GGUF metadata and the tensor index.
use vstd::prelude::*;

use crate::format::TensorView;
use crate::ggml::{GgmlType, label_of, layout_of, lemma_blocks_for, rank_of};
use crate::header::{GgufHeader, GgufTensorInfo, product};
use crate::summary_spec::{
    Component, RunView, any_routed, block_index_of, block_list, block_slot, bytes_where,
    component_of_name, component_total, dominant_upto, insert_desc, insert_sorted, is_routed,
    known_bytes, known_type, merge_runs, mix_upto, param_total, routed_total, slot_type_present,
    slot_type_total, tensor_bytes, type_present, type_total, unknown_tensors, weights_total,
};
use crate::value::{FloatBits, value_as_float_bits, value_as_str, value_as_u64};
use crate::text::{chars_of, has_prefix, has_substring, parse_u32_chars, same_chars};

verus! {

/// Byte split by component role derived from tensor names.
#[derive(Debug, Clone, Copy, Default, PartialEq, Eq, Structural)]
pub struct ComponentBytes {
    pub embeddings: u64,
    pub output_head: u64,
    pub attention: u64,
    pub dense_ffn: u64,
    pub routed_experts: u64,
    pub other: u64,
}

/// A tensor whose ggml type id has no layout in this build.
#[derive(Debug, Clone, PartialEq)]
pub struct UnknownTypeTensor {
    pub name: String,
    pub type_id: u32,
}

/// The type at position `r` of the declaration order.
fn known_type_at(r: usize) -> (t: GgmlType)
    requires
        r < 35,
    ensures
        t == known_type(r as int),
{
    match r {
        0 => GgmlType::F32,
        1 => GgmlType::F16,
        2 => GgmlType::Q4_0,
        3 => GgmlType::Q4_1,
        4 => GgmlType::Q5_0,
        5 => GgmlType::Q5_1,
        6 => GgmlType::Q8_0,
        7 => GgmlType::Q8_1,
        8 => GgmlType::Q2K,
        9 => GgmlType::Q3K,
        10 => GgmlType::Q4K,
        11 => GgmlType::Q5K,
        12 => GgmlType::Q6K,
        13 => GgmlType::Q8K,
        14 => GgmlType::IQ2Xxs,
        15 => GgmlType::IQ2Xs,
        16 => GgmlType::IQ3Xxs,
        17 => GgmlType::IQ1S,
        18 => GgmlType::IQ4Nl,
        19 => GgmlType::IQ3S,
        20 => GgmlType::IQ2S,
        21 => GgmlType::IQ4Xs,
        22 => GgmlType::I8,
        23 => GgmlType::I16,
        24 => GgmlType::I32,
        25 => GgmlType::I64,
        26 => GgmlType::F64,
        27 => GgmlType::IQ1M,
        28 => GgmlType::BF16,
        29 => GgmlType::TQ1_0,
        30 => GgmlType::TQ2_0,
        31 => GgmlType::MxFp4,
        32 => GgmlType::NvFp4,
        33 => GgmlType::Q1_0,
        _ => GgmlType::Q2_0,
    }
}

/// Each position of the declaration order holds a different type, and each
/// type with a layout is at the position `rank_of` gives.
proof fn lemma_known_type_rank(r: int)
    requires
        0 <= r < 35,
    ensures
        rank_of(known_type(r)) == r,
        !(known_type(r) is Unknown),
{
}

/// Position of a type in the declaration order; `None` for unknown types.
fn type_rank(t: GgmlType) -> (r: Option<usize>)
    ensures
        t is Unknown <==> r is None,
        r matches Some(k) ==> k < 35 && k == rank_of(t) && known_type(k as int) == t,
{
    match t {
        GgmlType::F32 => Some(0),
        GgmlType::F16 => Some(1),
        GgmlType::Q4_0 => Some(2),
        GgmlType::Q4_1 => Some(3),
        GgmlType::Q5_0 => Some(4),
        GgmlType::Q5_1 => Some(5),
        GgmlType::Q8_0 => Some(6),
        GgmlType::Q8_1 => Some(7),
        GgmlType::Q2K => Some(8),
        GgmlType::Q3K => Some(9),
        GgmlType::Q4K => Some(10),
        GgmlType::Q5K => Some(11),
        GgmlType::Q6K => Some(12),
        GgmlType::Q8K => Some(13),
        GgmlType::IQ2Xxs => Some(14),
        GgmlType::IQ2Xs => Some(15),
        GgmlType::IQ3Xxs => Some(16),
        GgmlType::IQ1S => Some(17),
        GgmlType::IQ4Nl => Some(18),
        GgmlType::IQ3S => Some(19),
        GgmlType::IQ2S => Some(20),
        GgmlType::IQ4Xs => Some(21),
        GgmlType::I8 => Some(22),
        GgmlType::I16 => Some(23),
        GgmlType::I32 => Some(24),
        GgmlType::I64 => Some(25),
        GgmlType::F64 => Some(26),
        GgmlType::IQ1M => Some(27),
        GgmlType::BF16 => Some(28),
        GgmlType::TQ1_0 => Some(29),
        GgmlType::TQ2_0 => Some(30),
        GgmlType::MxFp4 => Some(31),
        GgmlType::NvFp4 => Some(32),
        GgmlType::Q1_0 => Some(33),
        GgmlType::Q2_0 => Some(34),
        GgmlType::Unknown(_) => None,
    }
}

/// Component role inferred from standard llama.cpp tensor names.
fn component_of(name: &[char]) -> (c: Component)
    ensures
        c == component_of_name(name@),
{
    let token_embd = chars_of("token_embd");
    let pos_embd = chars_of("pos_embd");
    let output_prefix = chars_of("output.");
    let output_weight = chars_of("output.weight");
    let ffn = chars_of(".ffn_");
    let exps = chars_of("_exps.");
    let attn = chars_of(".attn_");
    if has_prefix(name, token_embd.as_slice()) || has_prefix(name, pos_embd.as_slice()) {
        Component::Embeddings
    } else if has_prefix(name, output_prefix.as_slice()) || same_chars(name, output_weight.as_slice()) {
        Component::OutputHead
    } else if has_substring(name, ffn.as_slice()) && has_substring(name, exps.as_slice()) {
        Component::RoutedExperts
    } else if has_substring(name, attn.as_slice()) {
        Component::Attention
    } else if has_substring(name, ffn.as_slice()) {
        Component::DenseFfn
    } else {
        Component::Other
    }
}

/// Layer index parsed from the `blk.N.` prefix llama.cpp mandates.
fn block_index(name: &[char]) -> (r: Option<u32>)
    ensures
        r == block_index_of(name@),
{
    let blk = chars_of("blk.");
    proof {
        reveal_strlit("blk.");
    }
    if !has_prefix(name, blk.as_slice()) {
        return None;
    }
    let ghost rest = name@.subrange(4, name@.len() as int);
    let mut j: usize = 4;
    while j < name.len()
        invariant
            4 <= j <= name.len(),
            crate::text::starts_with(name@, "blk."@),
            rest == name@.subrange(4, name@.len() as int),
            crate::text::first_index_of(rest.take(j - 4), '.') is None,
        decreases name.len() - j,
    {
        if name[j] == '.' {
            let idx_chars = crate::text::slice_range(name, 4, j);
            proof {
                assert(rest.take(j - 4 + 1).drop_last() =~= rest.take(j - 4));
                assert(rest.take(j - 4 + 1).last() == name@[j as int]);
                assert(crate::text::first_index_of(rest.take(j - 4 + 1), '.') == Some(j - 4));
                crate::text::lemma_first_index_prefix(rest, '.', j - 4 + 1);
                assert(idx_chars@ =~= rest.take(j - 4));
            }
            return parse_u32_chars(idx_chars.as_slice());
        }
        proof {
            assert(rest.take(j - 4 + 1).drop_last() =~= rest.take(j - 4));
        }
        j = j + 1;
    }
    proof {
        assert(rest.take(j - 4) =~= rest);
    }
    None
}

/// Views of a list of tensor records.
pub open spec fn tensor_seq(v: Seq<GgufTensorInfo>) -> Seq<TensorView> {
    v.map_values(|t: GgufTensorInfo| t@)
}

proof fn lemma_take_step<T>(ts: Seq<T>, i: int)
    requires
        0 <= i < ts.len(),
    ensures
        ts.take(i + 1).drop_last() == ts.take(i),
        ts.take(i + 1).last() == ts[i],
        ts.take(i + 1).len() == i + 1,
{
    assert(ts.take(i + 1).drop_last() =~= ts.take(i));
}

proof fn lemma_bytes_where_step(ts: Seq<TensorView>, i: int, f: spec_fn(TensorView) -> bool)
    requires
        0 <= i < ts.len(),
    ensures
        bytes_where(ts.take(i + 1), f) == bytes_where(ts.take(i), f) + if f(ts[i]) {
            known_bytes(ts[i])
        } else {
            0
        },
{
    lemma_take_step(ts, i);
}

/// A filtered byte sum never exceeds the total.
pub proof fn lemma_bytes_where_le_weights(ts: Seq<TensorView>, f: spec_fn(TensorView) -> bool)
    ensures
        bytes_where(ts, f) <= weights_total(ts),
    decreases ts.len(),
{
    if ts.len() > 0 {
        lemma_bytes_where_le_weights(ts.drop_last(), f);
    }
}

/// The weights of a prefix never exceed the weights of the whole list.
pub proof fn lemma_weights_prefix(ts: Seq<TensorView>, i: int)
    requires
        0 <= i <= ts.len(),
    ensures
        weights_total(ts.take(i)) <= weights_total(ts),
    decreases ts.len(),
{
    if i < ts.len() {
        assert(ts.drop_last().take(i) =~= ts.take(i));
        lemma_weights_prefix(ts.drop_last(), i);
    } else {
        assert(ts.take(i) =~= ts);
    }
}

proof fn lemma_present_step(ts: Seq<TensorView>, i: int, ty: GgmlType)
    requires
        0 <= i < ts.len(),
    ensures
        type_present(ts.take(i + 1), ty) == (type_present(ts.take(i), ty) || (ts[i].dtype == ty
            && tensor_bytes(ts[i]) is Some)),
{
    let a = ts.take(i + 1);
    let b = ts.take(i);
    if type_present(b, ty) {
        let k = choose|k: int| 0 <= k < b.len() && #[trigger] b[k].dtype == ty && tensor_bytes(b[k]) is Some;
        assert(a[k] == b[k]);
    }
    if type_present(a, ty) {
        let k = choose|k: int| 0 <= k < a.len() && #[trigger] a[k].dtype == ty && tensor_bytes(a[k]) is Some;
        if k < i {
            assert(a[k] == b[k]);
        }
    }
    if ts[i].dtype == ty && tensor_bytes(ts[i]) is Some {
        assert(a[i] == ts[i]);
    }
}

proof fn lemma_routed_step(ts: Seq<TensorView>, i: int)
    requires
        0 <= i < ts.len(),
    ensures
        any_routed(ts.take(i + 1)) == (any_routed(ts.take(i)) || is_routed(ts[i])),
{
    let a = ts.take(i + 1);
    let b = ts.take(i);
    if any_routed(b) {
        let k = choose|k: int| 0 <= k < b.len() && is_routed(#[trigger] b[k]);
        assert(a[k] == b[k]);
    }
    if any_routed(a) {
        let k = choose|k: int| 0 <= k < a.len() && is_routed(#[trigger] a[k]);
        if k < i {
            assert(a[k] == b[k]);
        }
    }
    if is_routed(ts[i]) {
        assert(a[i] == ts[i]);
    }
}

/// Per-tensor totals gathered in one pass over the tensor index.
struct TensorStats {
    total_parameters: u64,
    weights_bytes: u64,
    components: ComponentBytes,
    routed_elements: u64,
    has_routed: bool,
    unknown: Vec<UnknownTypeTensor>,
    type_bytes: Vec<u64>,
    type_seen: Vec<bool>,
}

/// Views of the unknown-type list.
pub open spec fn unknown_seq(v: Seq<UnknownTypeTensor>) -> Seq<(Seq<char>, u32)> {
    v.map_values(|u: UnknownTypeTensor| (u.name@, u.type_id))
}

/// The component totals of `ts`.
pub open spec fn components_of(ts: Seq<TensorView>) -> ComponentBytes {
    ComponentBytes {
        embeddings: component_total(ts, Component::Embeddings) as u64,
        output_head: component_total(ts, Component::OutputHead) as u64,
        attention: component_total(ts, Component::Attention) as u64,
        dense_ffn: component_total(ts, Component::DenseFfn) as u64,
        routed_experts: component_total(ts, Component::RoutedExperts) as u64,
        other: component_total(ts, Component::Other) as u64,
    }
}

spec fn stats_hold(st: TensorStats, ts: Seq<TensorView>) -> bool {
    &&& st.total_parameters == param_total(ts)
    &&& st.weights_bytes == weights_total(ts)
    &&& st.components == components_of(ts)
    &&& st.routed_elements == routed_total(ts)
    &&& st.has_routed == any_routed(ts)
    &&& unknown_seq(st.unknown@) == unknown_tensors(ts)
    &&& st.type_bytes@.len() == 35
    &&& st.type_seen@.len() == 35
    &&& forall|r: int|
        0 <= r < 35 ==> #[trigger] st.type_bytes@[r] == type_total(ts, known_type(r))
    &&& forall|r: int|
        0 <= r < 35 ==> #[trigger] st.type_seen@[r] == type_present(ts, known_type(r))
}

#[verifier::spinoff_prover]
#[verifier::rlimit(60)]
fn tensor_stats(tensors: &Vec<GgufTensorInfo>) -> (st: TensorStats)
    requires
        weights_total(tensor_seq(tensors@)) <= u64::MAX,
    ensures
        stats_hold(st, tensor_seq(tensors@)),
{
    let ghost ts = tensor_seq(tensors@);
    let mut type_bytes: Vec<u64> = Vec::new();
    let mut type_seen: Vec<bool> = Vec::new();
    let mut r: usize = 0;
    while r < 35
        invariant
            r <= 35,
            type_bytes@.len() == r,
            type_seen@.len() == r,
            forall|k: int| 0 <= k < r ==> #[trigger] type_bytes@[k] == 0,
            forall|k: int| 0 <= k < r ==> !#[trigger] type_seen@[k],
        decreases 35 - r,
    {
        type_bytes.push(0);
        type_seen.push(false);
        r = r + 1;
    }
    let mut st = TensorStats {
        total_parameters: 0,
        weights_bytes: 0,
        components: ComponentBytes {
            embeddings: 0,
            output_head: 0,
            attention: 0,
            dense_ffn: 0,
            routed_experts: 0,
            other: 0,
        },
        routed_elements: 0,
        has_routed: false,
        unknown: Vec::new(),
        type_bytes,
        type_seen,
    };
    proof {
        assert(ts.take(0) =~= Seq::<TensorView>::empty());
        assert(unknown_seq(st.unknown@) =~= Seq::<(Seq<char>, u32)>::empty());
    }
    let mut i: usize = 0;
    while i < tensors.len()
        invariant
            i <= tensors.len(),
            ts == tensor_seq(tensors@),
            weights_total(ts) <= u64::MAX,
            stats_hold(st, ts.take(i as int)),
        decreases tensors.len() - i,
    {
        let t = &tensors[i];
        let ghost tv = ts[i as int];
        assert(tv == t@);
        let name = chars_of(t.name.as_str());
        let elements = t.n_elements();
        proof {
            lemma_take_step(ts, i as int);
            lemma_weights_prefix(ts, i + 1);
            lemma_bytes_where_step(ts, i as int, |t: TensorView| true);
        }
        let bytes = t.nbytes();
        let comp = component_of(name.as_slice());
        let routed = has_substring(name.as_slice(), chars_of("_exps.").as_slice());
        let ghost prev = st;
        st.total_parameters = match st.total_parameters.checked_add(elements) {
            Some(x) => x,
            None => u64::MAX,
        };
        match bytes {
            Some(b) => {
                proof {
                    lemma_bytes_where_step(ts, i as int, |t: TensorView| component_of_name(t.name) == Component::Embeddings);
                    lemma_bytes_where_step(ts, i as int, |t: TensorView| component_of_name(t.name) == Component::OutputHead);
                    lemma_bytes_where_step(ts, i as int, |t: TensorView| component_of_name(t.name) == Component::Attention);
                    lemma_bytes_where_step(ts, i as int, |t: TensorView| component_of_name(t.name) == Component::DenseFfn);
                    lemma_bytes_where_step(ts, i as int, |t: TensorView| component_of_name(t.name) == Component::RoutedExperts);
                    lemma_bytes_where_step(ts, i as int, |t: TensorView| component_of_name(t.name) == Component::Other);
                    lemma_bytes_where_le_weights(ts.take(i + 1), |t: TensorView| component_of_name(t.name) == Component::Embeddings);
                    lemma_bytes_where_le_weights(ts.take(i + 1), |t: TensorView| component_of_name(t.name) == Component::OutputHead);
                    lemma_bytes_where_le_weights(ts.take(i + 1), |t: TensorView| component_of_name(t.name) == Component::Attention);
                    lemma_bytes_where_le_weights(ts.take(i + 1), |t: TensorView| component_of_name(t.name) == Component::DenseFfn);
                    lemma_bytes_where_le_weights(ts.take(i + 1), |t: TensorView| component_of_name(t.name) == Component::RoutedExperts);
                    lemma_bytes_where_le_weights(ts.take(i + 1), |t: TensorView| component_of_name(t.name) == Component::Other);
                }
                st.weights_bytes = st.weights_bytes + b;
                match comp {
                    Component::Embeddings => st.components.embeddings = st.components.embeddings + b,
                    Component::OutputHead => st.components.output_head = st.components.output_head + b,
                    Component::RoutedExperts => st.components.routed_experts = st.components.routed_experts + b,
                    Component::Attention => st.components.attention = st.components.attention + b,
                    Component::DenseFfn => st.components.dense_ffn = st.components.dense_ffn + b,
                    Component::Other => st.components.other = st.components.other + b,
                }
            },
            None => {
                proof {
                    lemma_bytes_where_step(ts, i as int, |t: TensorView| component_of_name(t.name) == Component::Embeddings);
                    lemma_bytes_where_step(ts, i as int, |t: TensorView| component_of_name(t.name) == Component::OutputHead);
                    lemma_bytes_where_step(ts, i as int, |t: TensorView| component_of_name(t.name) == Component::Attention);
                    lemma_bytes_where_step(ts, i as int, |t: TensorView| component_of_name(t.name) == Component::DenseFfn);
                    lemma_bytes_where_step(ts, i as int, |t: TensorView| component_of_name(t.name) == Component::RoutedExperts);
                    lemma_bytes_where_step(ts, i as int, |t: TensorView| component_of_name(t.name) == Component::Other);
                }
                if let GgmlType::Unknown(id) = t.dtype {
                    let ghost old_u = unknown_seq(st.unknown@);
                    st.unknown.push(UnknownTypeTensor { name: t.name.clone(), type_id: id });
                    proof {
                        assert(unknown_seq(st.unknown@) =~= old_u.push((tv.name, id)));
                    }
                }
            },
        }
        match type_rank(t.dtype) {
            Some(rk) => {
                match bytes {
                    Some(b) => {
                        proof {
                            lemma_bytes_where_step(ts, i as int, |t: TensorView| t.dtype == tv.dtype);
                            lemma_bytes_where_le_weights(ts.take(i + 1), |t: TensorView| t.dtype == tv.dtype);
                        }
                        let cur = st.type_bytes[rk];
                        st.type_bytes.set(rk, cur + b);
                        st.type_seen.set(rk, true);
                    },
                    None => {},
                }
            },
            None => {},
        }
        if routed {
            st.has_routed = true;
            st.routed_elements = match st.routed_elements.checked_add(elements) {
                Some(x) => x,
                None => u64::MAX,
            };
        }
        proof {
            let a = ts.take(i + 1);
            let p = ts.take(i as int);
            lemma_routed_step(ts, i as int);
            assert forall|r: int| 0 <= r < 35 implies #[trigger] st.type_bytes@[r] == type_total(a, known_type(r)) by {
                lemma_bytes_where_step(ts, i as int, |t: TensorView| t.dtype == known_type(r));
                lemma_known_type_rank(r);
            }
            assert forall|r: int| 0 <= r < 35 implies #[trigger] st.type_seen@[r] == type_present(a, known_type(r)) by {
                lemma_present_step(ts, i as int, known_type(r));
                lemma_known_type_rank(r);
            }
        }
        i = i + 1;
    }
    proof {
        assert(ts.take(i as int) =~= ts);
    }
    st
}

/// Share of the weights stored as one ggml type.
#[derive(Debug, Clone, PartialEq)]
pub struct QuantShare {
    pub label: String,
    pub bytes: u64,
}

/// Merged run of consecutive blocks sharing the same attn+ffn quant pair.
#[derive(Debug, Clone, PartialEq)]
pub struct LayerQuantRun {
    pub first_block: u32,
    pub last_block: u32,
    /// Dominant (by bytes) type among attention tensors of each block.
    pub attention: String,
    /// Dominant (by bytes) type among FFN tensors of each block, routed
    /// experts included.
    pub ffn: String,
}

impl View for LayerQuantRun {
    type V = RunView;

    open spec fn view(&self) -> RunView {
        RunView {
            first_block: self.first_block,
            last_block: self.last_block,
            attention: self.attention@,
            ffn: self.ffn@,
        }
    }
}

/// Views of a mix list.
pub open spec fn mix_view(v: Seq<(GgmlType, u64)>) -> Seq<(GgmlType, nat)> {
    v.map_values(|e: (GgmlType, u64)| (e.0, e.1 as nat))
}

proof fn lemma_insert_desc(s: Seq<(GgmlType, nat)>, x: (GgmlType, nat), j: int)
    requires
        0 <= j <= s.len(),
        forall|k: int| j <= k < s.len() ==> #[trigger] s[k].1 < x.1,
        j == 0 || s[j - 1].1 >= x.1,
    ensures
        insert_desc(s, x) == s.insert(j, x),
    decreases s.len(),
{
    if j == s.len() {
        if s.len() == 0 {
            assert(s.insert(j, x) =~= seq![x]);
        } else {
            assert(s.insert(j, x) =~= s.push(x));
        }
    } else {
        lemma_insert_desc(s.drop_last(), x, j);
        assert(s.insert(j, x) =~= s.drop_last().insert(j, x).push(s.last()));
    }
}

/// Inserts `(t, b)` into a list kept in descending byte order, after every
/// entry with at least as many bytes.
fn insert_by_bytes(v: &mut Vec<(GgmlType, u64)>, t: GgmlType, b: u64)
    ensures
        mix_view(final(v)@) == insert_desc(mix_view(old(v)@), (t, b as nat)),
{
    let mut j: usize = v.len();
    while j > 0 && v[j - 1].1 < b
        invariant
            j <= v.len(),
            v@ == old(v)@,
            forall|k: int| j <= k < v.len() ==> #[trigger] v@[k].1 < b,
        decreases j,
    {
        j = j - 1;
    }
    proof {
        lemma_insert_desc(mix_view(v@), (t, b as nat), j as int);
    }
    v.insert(j, (t, b));
    proof {
        assert(mix_view(v@) =~= mix_view(old(v)@).insert(j as int, (t, b as nat)));
    }
}

/// The per-type byte totals, stably sorted by bytes, largest first.
fn sorted_mix(type_bytes: &Vec<u64>, type_seen: &Vec<bool>, Ghost(ts): Ghost<Seq<TensorView>>) -> (v: Vec<(GgmlType, u64)>)
    requires
        type_bytes@.len() == 35,
        type_seen@.len() == 35,
        forall|r: int| 0 <= r < 35 ==> #[trigger] type_bytes@[r] == type_total(ts, known_type(r)),
        forall|r: int| 0 <= r < 35 ==> #[trigger] type_seen@[r] == type_present(ts, known_type(r)),
    ensures
        mix_view(v@) == mix_upto(ts, 35),
{
    let mut v: Vec<(GgmlType, u64)> = Vec::new();
    let mut r: usize = 0;
    proof {
        assert(mix_view(v@) =~= mix_upto(ts, 0));
    }
    while r < 35
        invariant
            r <= 35,
            type_bytes@.len() == 35,
            type_seen@.len() == 35,
            forall|k: int| 0 <= k < 35 ==> #[trigger] type_bytes@[k] == type_total(ts, known_type(k)),
            forall|k: int| 0 <= k < 35 ==> #[trigger] type_seen@[k] == type_present(ts, known_type(k)),
            mix_view(v@) == mix_upto(ts, r as int),
        decreases 35 - r,
    {
        if type_seen[r] {
            let t = known_type_at(r);
            insert_by_bytes(&mut v, t, type_bytes[r]);
        }
        r = r + 1;
    }
    v
}

proof fn lemma_insert_sorted(s: Seq<u32>, x: u32, j: int)
    requires
        0 <= j <= s.len(),
        forall|k: int| j <= k < s.len() ==> #[trigger] s[k] > x,
        j == 0 || s[j - 1] <= x,
    ensures
        insert_sorted(s, x) == if j > 0 && s[j - 1] == x {
            s
        } else {
            s.insert(j, x)
        },
    decreases s.len(),
{
    if j == s.len() {
        if s.len() == 0 {
            assert(s.insert(j, x) =~= seq![x]);
        } else {
            assert(s.insert(j, x) =~= s.push(x));
        }
    } else {
        lemma_insert_sorted(s.drop_last(), x, j);
        if j > 0 && s[j - 1] == x {
            assert(s.drop_last().push(s.last()) =~= s);
        } else {
            assert(s.insert(j, x) =~= s.drop_last().insert(j, x).push(s.last()));
        }
    }
}

/// Adds `x` to an ascending list of distinct values, unless present.
fn insert_block(v: &mut Vec<u32>, x: u32)
    ensures
        final(v)@ == insert_sorted(old(v)@, x),
{
    let mut j: usize = v.len();
    while j > 0 && v[j - 1] > x
        invariant
            j <= v.len(),
            v@ == old(v)@,
            forall|k: int| j <= k < v.len() ==> #[trigger] v@[k] > x,
        decreases j,
    {
        j = j - 1;
    }
    proof {
        lemma_insert_sorted(v@, x, j as int);
    }
    if j > 0 && v[j - 1] == x {
        return;
    }
    v.insert(j, x);
}

/// Which per-block map a tensor contributes to.
fn slot_of(t: &GgufTensorInfo) -> (r: Option<(u32, bool)>)
    ensures
        r == block_slot(t@),
{
    let name = chars_of(t.name.as_str());
    match block_index(name.as_slice()) {
        Some(idx) => {
            if type_rank(t.dtype).is_none() {
                return None;
            }
            if has_substring(name.as_slice(), chars_of(".attn_").as_slice()) {
                Some((idx, true))
            } else if has_substring(name.as_slice(), chars_of(".ffn_").as_slice()) {
                Some((idx, false))
            } else {
                None
            }
        },
        None => None,
    }
}

/// Slot and exact byte count of every tensor.
fn tensor_slots(tensors: &Vec<GgufTensorInfo>) -> (r: (Vec<Option<(u32, bool)>>, Vec<u64>))
    requires
        weights_total(tensor_seq(tensors@)) <= u64::MAX,
    ensures
        r.0@.len() == tensors@.len(),
        r.1@.len() == tensors@.len(),
        forall|i: int| 0 <= i < tensors@.len() ==> #[trigger] r.0@[i] == block_slot(tensors@[i]@),
        forall|i: int| 0 <= i < tensors@.len() ==> #[trigger] r.1@[i] == known_bytes(tensors@[i]@),
{
    let ghost ts = tensor_seq(tensors@);
    let mut slots: Vec<Option<(u32, bool)>> = Vec::new();
    let mut bytes: Vec<u64> = Vec::new();
    let mut i: usize = 0;
    while i < tensors.len()
        invariant
            i <= tensors.len(),
            ts == tensor_seq(tensors@),
            weights_total(ts) <= u64::MAX,
            slots@.len() == i,
            bytes@.len() == i,
            forall|k: int| 0 <= k < i ==> #[trigger] slots@[k] == block_slot(tensors@[k]@),
            forall|k: int| 0 <= k < i ==> #[trigger] bytes@[k] == known_bytes(tensors@[k]@),
        decreases tensors.len() - i,
    {
        proof {
            lemma_take_step(ts, i as int);
            lemma_weights_prefix(ts, i + 1);
            lemma_bytes_where_step(ts, i as int, |t: TensorView| true);
            assert(ts[i as int] == tensors@[i as int]@);
        }
        slots.push(slot_of(&tensors[i]));
        let b = match tensors[i].nbytes() {
            Some(b) => b,
            None => 0,
        };
        bytes.push(b);
        i = i + 1;
    }
    (slots, bytes)
}

/// Block indices with attention or FFN tensors, ascending and distinct.
fn collect_blocks(slots: &Vec<Option<(u32, bool)>>, Ghost(ts): Ghost<Seq<TensorView>>) -> (v: Vec<u32>)
    requires
        slots@.len() == ts.len(),
        forall|i: int| 0 <= i < ts.len() ==> #[trigger] slots@[i] == block_slot(ts[i]),
    ensures
        v@ == block_list(ts),
{
    let mut v: Vec<u32> = Vec::new();
    let mut i: usize = 0;
    proof {
        assert(ts.take(0) =~= Seq::<TensorView>::empty());
    }
    while i < slots.len()
        invariant
            i <= slots.len(),
            slots@.len() == ts.len(),
            forall|k: int| 0 <= k < ts.len() ==> #[trigger] slots@[k] == block_slot(ts[k]),
            v@ == block_list(ts.take(i as int)),
        decreases slots.len() - i,
    {
        proof {
            lemma_take_step(ts, i as int);
        }
        match slots[i] {
            Some((idx, _)) => insert_block(&mut v, idx),
            None => {},
        }
        i = i + 1;
    }
    proof {
        assert(ts.take(i as int) =~= ts);
    }
    v
}

proof fn lemma_slot_present_step(ts: Seq<TensorView>, i: int, idx: u32, attn: bool, ty: GgmlType)
    requires
        0 <= i < ts.len(),
    ensures
        slot_type_present(ts.take(i + 1), idx, attn, ty) == (slot_type_present(ts.take(i), idx, attn, ty)
            || (block_slot(ts[i]) == Some((idx, attn)) && ts[i].dtype == ty)),
{
    let a = ts.take(i + 1);
    let b = ts.take(i);
    if slot_type_present(b, idx, attn, ty) {
        let k = choose|k: int|
            0 <= k < b.len() && #[trigger] block_slot(b[k]) == Some((idx, attn)) && b[k].dtype == ty;
        assert(a[k] == b[k]);
    }
    if slot_type_present(a, idx, attn, ty) {
        let k = choose|k: int|
            0 <= k < a.len() && #[trigger] block_slot(a[k]) == Some((idx, attn)) && a[k].dtype == ty;
        if k < i {
            assert(a[k] == b[k]);
        }
    }
    if block_slot(ts[i]) == Some((idx, attn)) && ts[i].dtype == ty {
        assert(a[i] == ts[i]);
    }
}

/// Per-type byte totals and presence in slot `(idx, attn)`.
fn slot_totals(
    tensors: &Vec<GgufTensorInfo>,
    slots: &Vec<Option<(u32, bool)>>,
    bytes: &Vec<u64>,
    idx: u32,
    attn: bool,
) -> (r: (Vec<u64>, Vec<bool>))
    requires
        weights_total(tensor_seq(tensors@)) <= u64::MAX,
        slots@.len() == tensors@.len(),
        bytes@.len() == tensors@.len(),
        forall|i: int| 0 <= i < tensors@.len() ==> #[trigger] slots@[i] == block_slot(tensors@[i]@),
        forall|i: int| 0 <= i < tensors@.len() ==> #[trigger] bytes@[i] == known_bytes(tensors@[i]@),
    ensures
        r.0@.len() == 35,
        r.1@.len() == 35,
        forall|k: int|
            0 <= k < 35 ==> #[trigger] r.0@[k] == slot_type_total(
                tensor_seq(tensors@),
                idx,
                attn,
                known_type(k),
            ),
        forall|k: int|
            0 <= k < 35 ==> #[trigger] r.1@[k] == slot_type_present(
                tensor_seq(tensors@),
                idx,
                attn,
                known_type(k),
            ),
{
    let ghost ts = tensor_seq(tensors@);
    let mut totals: Vec<u64> = Vec::new();
    let mut seen: Vec<bool> = Vec::new();
    let mut r: usize = 0;
    while r < 35
        invariant
            r <= 35,
            totals@.len() == r,
            seen@.len() == r,
            forall|k: int| 0 <= k < r ==> #[trigger] totals@[k] == 0,
            forall|k: int| 0 <= k < r ==> !#[trigger] seen@[k],
        decreases 35 - r,
    {
        totals.push(0);
        seen.push(false);
        r = r + 1;
    }
    proof {
        assert(ts.take(0) =~= Seq::<TensorView>::empty());
    }
    let mut i: usize = 0;
    while i < tensors.len()
        invariant
            i <= tensors.len(),
            ts == tensor_seq(tensors@),
            weights_total(ts) <= u64::MAX,
            slots@.len() == tensors@.len(),
            bytes@.len() == tensors@.len(),
            forall|k: int| 0 <= k < tensors@.len() ==> #[trigger] slots@[k] == block_slot(tensors@[k]@),
            forall|k: int| 0 <= k < tensors@.len() ==> #[trigger] bytes@[k] == known_bytes(tensors@[k]@),
            totals@.len() == 35,
            seen@.len() == 35,
            forall|k: int|
                0 <= k < 35 ==> #[trigger] totals@[k] == slot_type_total(
                    ts.take(i as int),
                    idx,
                    attn,
                    known_type(k),
                ),
            forall|k: int|
                0 <= k < 35 ==> #[trigger] seen@[k] == slot_type_present(
                    ts.take(i as int),
                    idx,
                    attn,
                    known_type(k),
                ),
        decreases tensors.len() - i,
    {
        let ghost tv = ts[i as int];
        proof {
            assert(tv == tensors@[i as int]@);
            lemma_take_step(ts, i as int);
            lemma_weights_prefix(ts, i + 1);
        }
        match slots[i] {
            Some((j, a)) => {
                if j == idx && a == attn {
                    match type_rank(tensors[i].dtype) {
                        Some(rk) => {
                            proof {
                                lemma_bytes_where_step(ts, i as int, |t: TensorView| block_slot(t) == Some((idx, attn)) && t.dtype == tv.dtype);
                                lemma_bytes_where_le_weights(ts.take(i + 1), |t: TensorView| block_slot(t) == Some((idx, attn)) && t.dtype == tv.dtype);
                            }
                            let cur = totals[rk];
                            totals.set(rk, cur + bytes[i]);
                            seen.set(rk, true);
                        },
                        None => {},
                    }
                }
            },
            None => {},
        }
        proof {
            assert forall|k: int| 0 <= k < 35 implies #[trigger] totals@[k] == slot_type_total(ts.take(i + 1), idx, attn, known_type(k)) by {
                lemma_bytes_where_step(ts, i as int, |t: TensorView| block_slot(t) == Some((idx, attn)) && t.dtype == known_type(k));
                lemma_known_type_rank(k);
            }
            assert forall|k: int| 0 <= k < 35 implies #[trigger] seen@[k] == slot_type_present(ts.take(i + 1), idx, attn, known_type(k)) by {
                lemma_slot_present_step(ts, i as int, idx, attn, known_type(k));
                lemma_known_type_rank(k);
            }
        }
        i = i + 1;
    }
    proof {
        assert(ts.take(i as int) =~= ts);
    }
    (totals, seen)
}

/// Label of the dominant type of a slot, or "-" when the slot is empty.
fn dominant_label(totals: &Vec<u64>, seen: &Vec<bool>, Ghost(ts): Ghost<Seq<TensorView>>, Ghost(idx): Ghost<u32>, Ghost(attn): Ghost<bool>) -> (s: String)
    requires
        totals@.len() == 35,
        seen@.len() == 35,
        forall|k: int| 0 <= k < 35 ==> #[trigger] totals@[k] == slot_type_total(ts, idx, attn, known_type(k)),
        forall|k: int| 0 <= k < 35 ==> #[trigger] seen@[k] == slot_type_present(ts, idx, attn, known_type(k)),
    ensures
        s@ == crate::summary_spec::slot_label(ts, idx, attn),
{
    let mut best: Option<usize> = None;
    let mut r: usize = 0;
    while r < 35
        invariant
            r <= 35,
            totals@.len() == 35,
            seen@.len() == 35,
            forall|k: int| 0 <= k < 35 ==> #[trigger] totals@[k] == slot_type_total(ts, idx, attn, known_type(k)),
            forall|k: int| 0 <= k < 35 ==> #[trigger] seen@[k] == slot_type_present(ts, idx, attn, known_type(k)),
            best matches Some(b) ==> b < r,
            dominant_upto(ts, idx, attn, r as int) == (match best {
                Some(b) => Some(known_type(b as int)),
                None => None,
            }),
        decreases 35 - r,
    {
        if seen[r] {
            let take = match best {
                Some(b) => totals[r] >= totals[b],
                None => true,
            };
            if take {
                best = Some(r);
            }
        }
        r = r + 1;
    }
    match best {
        Some(b) => known_type_at(b).label(),
        None => String::from_str("-"),
    }
}

/// Merges per-block (index, attention label, FFN label) rows into runs of
/// consecutive blocks with the same labels.
fn merge_layer_runs(rows: Vec<(u32, String, String)>) -> (runs: Vec<LayerQuantRun>)
    ensures
        runs@.map_values(|r: LayerQuantRun| r@) == merge_runs(
            rows@.map_values(|r: (u32, String, String)| (r.0, r.1@, r.2@)),
        ),
{
    let ghost rv = rows@.map_values(|r: (u32, String, String)| (r.0, r.1@, r.2@));
    let mut runs: Vec<LayerQuantRun> = Vec::new();
    let mut i: usize = 0;
    proof {
        assert(rv.take(0) =~= Seq::<(u32, Seq<char>, Seq<char>)>::empty());
        assert(runs@.map_values(|r: LayerQuantRun| r@) =~= Seq::<RunView>::empty());
    }
    while i < rows.len()
        invariant
            i <= rows.len(),
            rv == rows@.map_values(|r: (u32, String, String)| (r.0, r.1@, r.2@)),
            runs@.map_values(|r: LayerQuantRun| r@) == merge_runs(rv.take(i as int)),
        decreases rows.len() - i,
    {
        let idx = rows[i].0;
        let a = rows[i].1.clone();
        let f = rows[i].2.clone();
        proof {
            lemma_take_step(rv, i as int);
        }
        let ghost old_runs = runs@.map_values(|r: LayerQuantRun| r@);
        let n = runs.len();
        let mut merged = false;
        if n > 0 {
            let prev = &runs[n - 1];
            if prev.attention == a && prev.ffn == f && prev.last_block.checked_add(1) == Some(idx) {
                let run = LayerQuantRun {
                    first_block: prev.first_block,
                    last_block: idx,
                    attention: a.clone(),
                    ffn: f.clone(),
                };
                runs.set(n - 1, run);
                merged = true;
                proof {
                    assert(runs@.map_values(|r: LayerQuantRun| r@) =~= old_runs.update(n - 1, run@));
                }
            }
        }
        if !merged {
            let run = LayerQuantRun { first_block: idx, last_block: idx, attention: a, ffn: f };
            runs.push(run);
            proof {
                assert(runs@.map_values(|r: LayerQuantRun| r@) =~= old_runs.push(run@));
            }
        }
        i = i + 1;
    }
    proof {
        assert(rv.take(i as int) =~= rv);
    }
    runs
}

/// Architecture view derived from real GGUF metadata and the tensor index.
///
/// Every field comes from the file itself: no filename heuristics.
/// Floating-point metadata is kept as the bit pattern the file stores.
#[derive(Debug, Clone)]
pub struct GgufModelSummary {
    pub model_name: Option<String>,
    pub architecture: Option<String>,
    pub gguf_version: u32,
    pub block_count: Option<u64>,
    pub attention_heads: Option<u64>,
    pub key_value_heads: Option<u64>,
    pub key_length: Option<u64>,
    pub value_length: Option<u64>,
    pub context_length: Option<u64>,
    pub embedding_length: Option<u64>,
    pub feed_forward_length: Option<u64>,
    pub expert_count: Option<u64>,
    pub expert_used_count: Option<u64>,
    pub expert_feed_forward_length: Option<u64>,
    /// Multi-head Latent Attention compressed KV latent (DeepSeek family).
    pub kv_lora_rank: Option<u64>,
    pub rope_dimension_count: Option<u64>,
    pub rope_freq_base: Option<FloatBits>,
    pub rope_scaling_type: Option<String>,
    pub rope_scaling_factor: Option<FloatBits>,
    pub rope_original_context_length: Option<u64>,
    pub sliding_window: Option<u64>,
    pub vocab_size: Option<u64>,
    pub tensor_count: usize,
    /// Logical parameters summed over all tensors (embeddings may be tied).
    pub total_parameters: u64,
    /// Active parameters for MoE: non-expert tensors plus experts scaled by
    /// `expert_used_count / expert_count`. `None` when inputs are missing.
    pub active_parameters: Option<u64>,
    /// Exact bytes all tensors occupy on disk (excludes metadata/padding).
    pub weights_bytes: u64,
    /// Tensors whose ggml type id has no layout in this build.
    pub unknown_type_tensors: Vec<UnknownTypeTensor>,
    /// Per-type byte shares, sorted descending.
    pub quant_mix: Vec<QuantShare>,
    /// Label of the largest quant share, if any weights were recognized.
    pub dominant_quant_label: Option<String>,
    /// Merged runs of consecutive blocks sharing the same attn+ffn quant pair.
    pub layer_quants: Vec<LayerQuantRun>,
    /// Byte split by component role derived from tensor names.
    pub components: ComponentBytes,
    pub has_routed_experts: bool,
}

/// View of an optional string.
pub open spec fn opt_chars(o: Option<String>) -> Option<Seq<char>> {
    match o {
        Some(s) => Some(s@),
        None => None,
    }
}

/// The architecture name a header declares ("" when it declares none).
pub open spec fn arch_of(h: GgufHeader) -> Seq<char> {
    match h.value_of("general.architecture"@) {
        Some(v) => match value_as_str(v) {
            Some(s) => s,
            None => Seq::empty(),
        },
        None => Seq::empty(),
    }
}

/// `{arch}.{suffix}`.
pub open spec fn arch_key_of(h: GgufHeader, suffix: Seq<char>) -> Seq<char> {
    arch_of(h) + "."@ + suffix
}

/// Unsigned metadata under `key`.
pub open spec fn meta_u64(h: GgufHeader, key: Seq<char>) -> Option<u64> {
    match h.value_of(key) {
        Some(v) => value_as_u64(v),
        None => None,
    }
}

/// String metadata under `key`.
pub open spec fn meta_str(h: GgufHeader, key: Seq<char>) -> Option<Seq<char>> {
    match h.value_of(key) {
        Some(v) => value_as_str(v),
        None => None,
    }
}

/// Floating-point metadata under `key`.
pub open spec fn meta_float(h: GgufHeader, key: Seq<char>) -> Option<FloatBits> {
    match h.value_of(key) {
        Some(v) => value_as_float_bits(v),
        None => None,
    }
}

/// Views of a quant-share list.
pub open spec fn shares_view(v: Seq<QuantShare>) -> Seq<(Seq<char>, nat)> {
    v.map_values(|q: QuantShare| (q.label@, q.bytes as nat))
}

/// The quant mix as (label, bytes) rows.
pub open spec fn labeled_mix(ts: Seq<TensorView>) -> Seq<(Seq<char>, nat)> {
    crate::summary_spec::quant_mix(ts).map_values(|e: (GgmlType, nat)| (label_of(e.0), e.1))
}

/// `{arch}.{suffix}`.
fn arch_key(arch: &String, suffix: &str) -> (k: String)
    ensures
        k@ == arch@ + "."@ + suffix@,
{
    let mut k = arch.clone();
    k.append(".");
    k.append(suffix);
    k
}

/// Active parameter count from the tensor totals and the expert counts.
fn active_parameters_of(
    total: u64,
    routed: u64,
    has_routed: bool,
    weights: u64,
    expert_count: Option<u64>,
    expert_used_count: Option<u64>,
) -> (r: Option<u64>)
    ensures
        (match r {
            Some(x) => Some(x as nat),
            None => None,
        }) == crate::summary_spec::active_params(
            total as nat,
            routed as nat,
            has_routed,
            weights as nat,
            expert_count,
            expert_used_count,
        ),
{
    if has_routed && weights > 0 {
        match (expert_count, expert_used_count) {
            (Some(count), Some(used)) => {
                if count > 0 {
                    let idle = if used < count { count - used } else { 0 };
                    let product = match routed.checked_mul(idle) {
                        Some(p) => p,
                        None => u64::MAX,
                    };
                    let inactive = product / count;
                    Some(total.saturating_sub(inactive))
                } else {
                    None
                }
            },
            _ => None,
        }
    } else if !has_routed {
        Some(total)
    } else {
        None
    }
}

/// Lowers a list of type/byte pairs into labelled shares.
fn label_shares(mix: &Vec<(GgmlType, u64)>) -> (v: Vec<QuantShare>)
    ensures
        shares_view(v@) == mix_view(mix@).map_values(|e: (GgmlType, nat)| (label_of(e.0), e.1)),
{
    let mut v: Vec<QuantShare> = Vec::new();
    let mut i: usize = 0;
    while i < mix.len()
        invariant
            i <= mix.len(),
            shares_view(v@) == mix_view(mix@).take(i as int).map_values(|e: (GgmlType, nat)| (label_of(e.0), e.1)),
        decreases mix.len() - i,
    {
        let (t, b) = mix[i];
        let ghost old_v = shares_view(v@);
        let q = QuantShare { label: t.label(), bytes: b };
        v.push(q);
        proof {
            let m = mix_view(mix@);
            assert(m[i as int] == (t, b as nat));
            assert(m.take(i + 1) =~= m.take(i as int).push(m[i as int]));
            assert(shares_view(v@) =~= old_v.push((q.label@, q.bytes as nat)));
            assert(shares_view(v@) =~= m.take(i + 1).map_values(|e: (GgmlType, nat)| (label_of(e.0), e.1)));
        }
        i = i + 1;
    }
    assert(mix_view(mix@).take(i as int) =~= mix_view(mix@));
    v
}

/// The (index, attention label, FFN label) row of every block.
fn block_rows_of(
    tensors: &Vec<GgufTensorInfo>,
    slots: &Vec<Option<(u32, bool)>>,
    bytes: &Vec<u64>,
    blocks: &Vec<u32>,
) -> (rows: Vec<(u32, String, String)>)
    requires
        weights_total(tensor_seq(tensors@)) <= u64::MAX,
        slots@.len() == tensors@.len(),
        bytes@.len() == tensors@.len(),
        forall|i: int| 0 <= i < tensors@.len() ==> #[trigger] slots@[i] == block_slot(tensors@[i]@),
        forall|i: int| 0 <= i < tensors@.len() ==> #[trigger] bytes@[i] == known_bytes(tensors@[i]@),
    ensures
        rows@.map_values(|r: (u32, String, String)| (r.0, r.1@, r.2@)) == blocks@.map_values(
            |idx: u32|
                (
                    idx,
                    crate::summary_spec::slot_label(tensor_seq(tensors@), idx, true),
                    crate::summary_spec::slot_label(tensor_seq(tensors@), idx, false),
                ),
        ),
{
    let ghost ts = tensor_seq(tensors@);
    let mut rows: Vec<(u32, String, String)> = Vec::new();
    let mut i: usize = 0;
    while i < blocks.len()
        invariant
            i <= blocks.len(),
            ts == tensor_seq(tensors@),
            weights_total(ts) <= u64::MAX,
            slots@.len() == tensors@.len(),
            bytes@.len() == tensors@.len(),
            forall|k: int| 0 <= k < tensors@.len() ==> #[trigger] slots@[k] == block_slot(tensors@[k]@),
            forall|k: int| 0 <= k < tensors@.len() ==> #[trigger] bytes@[k] == known_bytes(tensors@[k]@),
            rows@.map_values(|r: (u32, String, String)| (r.0, r.1@, r.2@)) == blocks@.take(i as int).map_values(
                |idx: u32|
                    (
                        idx,
                        crate::summary_spec::slot_label(ts, idx, true),
                        crate::summary_spec::slot_label(ts, idx, false),
                    ),
            ),
        decreases blocks.len() - i,
    {
        let idx = blocks[i];
        let (at, aseen) = slot_totals(tensors, slots, bytes, idx, true);
        let a = dominant_label(&at, &aseen, Ghost(ts), Ghost(idx), Ghost(true));
        let (ft, fseen) = slot_totals(tensors, slots, bytes, idx, false);
        let f = dominant_label(&ft, &fseen, Ghost(ts), Ghost(idx), Ghost(false));
        let ghost old_rows = rows@.map_values(|r: (u32, String, String)| (r.0, r.1@, r.2@));
        let ghost row = (idx, a@, f@);
        rows.push((idx, a, f));
        proof {
            assert(blocks@.take(i + 1) =~= blocks@.take(i as int).push(idx));
            assert(rows@.map_values(|r: (u32, String, String)| (r.0, r.1@, r.2@)) =~= old_rows.push(row));
        }
        i = i + 1;
        assert(rows@.map_values(|r: (u32, String, String)| (r.0, r.1@, r.2@)) =~= blocks@.take(i as int).map_values(
            |idx: u32|
                (
                    idx,
                    crate::summary_spec::slot_label(ts, idx, true),
                    crate::summary_spec::slot_label(ts, idx, false),
                ),
        ));
    }
    assert(blocks@.take(i as int) =~= blocks@);
    rows
}

/// `s` is the summary of `header`: every field as the header's metadata and
/// tensor index determine it.
pub open spec fn summarizes(s: GgufModelSummary, header: GgufHeader) -> bool {
    &&& opt_chars(s.architecture) == (if arch_of(header).len() == 0 {
        None
    } else {
        Some(arch_of(header))
    })
    &&& opt_chars(s.model_name) == (match meta_str(header, "general.name"@) {
        Some(n) => Some(n),
        None => meta_str(header, "general.basename"@),
    })
    &&& s.gguf_version == header.version
    &&& s.block_count == meta_u64(header, arch_key_of(header, "block_count"@))
    &&& s.attention_heads == meta_u64(header, arch_key_of(header, "attention.head_count"@))
    &&& s.key_value_heads == meta_u64(header, arch_key_of(header, "attention.head_count_kv"@))
    &&& s.key_length == meta_u64(header, arch_key_of(header, "attention.key_length"@))
    &&& s.value_length == meta_u64(header, arch_key_of(header, "attention.value_length"@))
    &&& s.context_length == meta_u64(header, arch_key_of(header, "context_length"@))
    &&& s.embedding_length == meta_u64(header, arch_key_of(header, "embedding_length"@))
    &&& s.feed_forward_length == meta_u64(header, arch_key_of(header, "feed_forward_length"@))
    &&& s.expert_count == meta_u64(header, arch_key_of(header, "expert_count"@))
    &&& s.expert_used_count == meta_u64(header, arch_key_of(header, "expert_used_count"@))
    &&& s.expert_feed_forward_length == meta_u64(
        header,
        arch_key_of(header, "expert_feed_forward_length"@),
    )
    &&& s.kv_lora_rank == meta_u64(header, arch_key_of(header, "attention.kv_lora_rank"@))
    &&& s.rope_dimension_count == meta_u64(header, arch_key_of(header, "rope.dimension_count"@))
    &&& s.rope_freq_base == meta_float(header, arch_key_of(header, "rope.freq_base"@))
    &&& opt_chars(s.rope_scaling_type) == meta_str(header, arch_key_of(header, "rope.scaling.type"@))
    &&& s.rope_scaling_factor == meta_float(header, arch_key_of(header, "rope.scaling.factor"@))
    &&& s.rope_original_context_length == meta_u64(
        header,
        arch_key_of(header, "rope.scaling.original_context_length"@),
    )
    &&& s.sliding_window == meta_u64(header, arch_key_of(header, "attention.sliding_window"@))
    &&& s.vocab_size == meta_u64(header, arch_key_of(header, "vocab_size"@))
    &&& s.tensor_count == header.tensors@.len()
    &&& s.total_parameters == param_total(tensor_seq(header.tensors@))
    &&& s.weights_bytes == weights_total(tensor_seq(header.tensors@))
    &&& (match s.active_parameters {
        Some(x) => Some(x as nat),
        None => None,
    }) == crate::summary_spec::active_params(
        param_total(tensor_seq(header.tensors@)),
        routed_total(tensor_seq(header.tensors@)),
        any_routed(tensor_seq(header.tensors@)),
        weights_total(tensor_seq(header.tensors@)),
        s.expert_count,
        s.expert_used_count,
    )
    &&& unknown_seq(s.unknown_type_tensors@) == unknown_tensors(tensor_seq(header.tensors@))
    &&& shares_view(s.quant_mix@) == labeled_mix(tensor_seq(header.tensors@))
    &&& opt_chars(s.dominant_quant_label) == (if labeled_mix(tensor_seq(header.tensors@)).len()
        == 0 {
        None
    } else {
        Some(labeled_mix(tensor_seq(header.tensors@))[0].0)
    })
    &&& s.layer_quants@.map_values(|r: LayerQuantRun| r@) == crate::summary_spec::layer_runs(
        tensor_seq(header.tensors@),
    )
    &&& s.components == components_of(tensor_seq(header.tensors@))
    &&& s.has_routed_experts == any_routed(tensor_seq(header.tensors@))
}

impl GgufModelSummary {
    pub fn from_header(header: &GgufHeader) -> (s: Self)
        requires
            weights_total(tensor_seq(header.tensors@)) <= u64::MAX,
        ensures
            summarizes(s, *header),
    {
        let ghost ts = tensor_seq(header.tensors@);
        let arch = match header.get_str("general.architecture") {
            Some(a) => String::from_str(a),
            None => String::new(),
        };
        let model_name = match header.get_str("general.name") {
            Some(n) => Some(String::from_str(n)),
            None => match header.get_str("general.basename") {
                Some(n) => Some(String::from_str(n)),
                None => None,
            },
        };
        let block_count = header.get_u64(arch_key(&arch, "block_count").as_str());
        let attention_heads = header.get_u64(arch_key(&arch, "attention.head_count").as_str());
        let key_value_heads = header.get_u64(arch_key(&arch, "attention.head_count_kv").as_str());

        let st = tensor_stats(&header.tensors);
        let expert_count = header.get_u64(arch_key(&arch, "expert_count").as_str());
        let expert_used_count = header.get_u64(arch_key(&arch, "expert_used_count").as_str());
        let active_parameters = active_parameters_of(
            st.total_parameters,
            st.routed_elements,
            st.has_routed,
            st.weights_bytes,
            expert_count,
            expert_used_count,
        );
        let architecture = if arch.as_str().is_empty() {
            None
        } else {
            Some(arch.clone())
        };

        let mix = sorted_mix(&st.type_bytes, &st.type_seen, Ghost(ts));
        let quant_mix = label_shares(&mix);
        let dominant_quant_label = if quant_mix.len() > 0 {
            Some(quant_mix[0].label.clone())
        } else {
            None
        };

        let (slots, bytes) = tensor_slots(&header.tensors);
        let blocks = collect_blocks(&slots, Ghost(ts));
        let rows = block_rows_of(&header.tensors, &slots, &bytes, &blocks);
        let layer_quants = merge_layer_runs(rows);

        GgufModelSummary {
            model_name,
            architecture,
            gguf_version: header.version,
            block_count,
            attention_heads,
            key_value_heads,
            key_length: header.get_u64(arch_key(&arch, "attention.key_length").as_str()),
            value_length: header.get_u64(arch_key(&arch, "attention.value_length").as_str()),
            context_length: header.get_u64(arch_key(&arch, "context_length").as_str()),
            embedding_length: header.get_u64(arch_key(&arch, "embedding_length").as_str()),
            feed_forward_length: header.get_u64(arch_key(&arch, "feed_forward_length").as_str()),
            expert_count,
            expert_used_count,
            expert_feed_forward_length: header.get_u64(
                arch_key(&arch, "expert_feed_forward_length").as_str(),
            ),
            kv_lora_rank: header.get_u64(arch_key(&arch, "attention.kv_lora_rank").as_str()),
            rope_dimension_count: header.get_u64(arch_key(&arch, "rope.dimension_count").as_str()),
            rope_freq_base: header.get_float_bits(arch_key(&arch, "rope.freq_base").as_str()),
            rope_scaling_type: match header.get_str(arch_key(&arch, "rope.scaling.type").as_str()) {
                Some(t) => Some(String::from_str(t)),
                None => None,
            },
            rope_scaling_factor: header.get_float_bits(
                arch_key(&arch, "rope.scaling.factor").as_str(),
            ),
            rope_original_context_length: header.get_u64(
                arch_key(&arch, "rope.scaling.original_context_length").as_str(),
            ),
            sliding_window: header.get_u64(arch_key(&arch, "attention.sliding_window").as_str()),
            vocab_size: header.get_u64(arch_key(&arch, "vocab_size").as_str()),
            tensor_count: header.tensors.len(),
            total_parameters: st.total_parameters,
            active_parameters,
            weights_bytes: st.weights_bytes,
            unknown_type_tensors: st.unknown,
            quant_mix,
            dominant_quant_label,
            layer_quants,
            components: st.components,
            has_routed_experts: st.has_routed,
        }
    }

    pub fn dominant_quant(&self) -> (r: Option<&QuantShare>)
        ensures
            r matches Some(q) ==> self.quant_mix@.len() > 0 && *q == self.quant_mix@[0],
            r is None <==> self.quant_mix@.len() == 0,
    {
        if self.quant_mix.len() > 0 {
            Some(&self.quant_mix[0])
        } else {
            None
        }
    }
}

/// Elements of KV cache per token per layer, or why they cannot be derived.
/// GQA: `2 * kv_heads * head_dim`; MLA: `kv_lora_rank + rope_dim`, one
/// latent shared by K and V.
pub open spec fn kv_per_layer(s: GgufModelSummary) -> Result<nat, Seq<char>> {
    match s.kv_lora_rank {
        Some(rank) => Ok((rank as nat) + match s.rope_dimension_count {
            Some(d) => d as nat,
            None => 0nat,
        }),
        None => {
            let heads = match s.key_value_heads {
                Some(h) => Some(h),
                None => s.attention_heads,
            };
            match heads {
                None => Err("attention.head_count missing"@),
                Some(h) => {
                    let head_dim: Option<u64> = match s.key_length {
                        Some(k) => Some(k),
                        None => match s.value_length {
                            Some(v) => Some(v),
                            None => match (s.embedding_length, s.attention_heads) {
                                (Some(e), Some(ah)) => if ah > 0 {
                                    Some((e / ah) as u64)
                                } else {
                                    None
                                },
                                _ => None,
                            },
                        },
                    };
                    match head_dim {
                        None => Err("cannot determine head_dim (no key_length/embedding_length)"@),
                        Some(d) => Ok(2 * (h as nat) * (d as nat)),
                    }
                },
            }
        },
    }
}

/// The per-layer element count is computed without overflowing `u64`
/// (the GQA product is formed as `(2 * heads) * head_dim`).
pub open spec fn kv_per_layer_fits(s: GgufModelSummary) -> bool {
    match s.kv_lora_rank {
        Some(_) => kv_per_layer(s) matches Ok(x) ==> x <= u64::MAX,
        None => {
            let heads = match s.key_value_heads {
                Some(h) => Some(h),
                None => s.attention_heads,
            };
            (heads matches Some(h) ==> 2 * h <= u64::MAX) && (kv_per_layer(s) matches Ok(x) ==> x
                <= u64::MAX)
        },
    }
}

/// KV cache bytes per token across all layers at fp16, or why not.
pub open spec fn kv_bytes_per_token(s: GgufModelSummary) -> Result<nat, Seq<char>> {
    match s.block_count {
        None => Err("block_count missing"@),
        Some(layers) => match kv_per_layer(s) {
            Err(e) => Err(e),
            Ok(per) => if (layers as nat) * per > u64::MAX || (layers as nat) * per * 2 > u64::MAX {
                Err("KV size overflow"@)
            } else {
                Ok((layers as nat) * per * 2)
            },
        },
    }
}

/// The KV head count a layer caches: the recorded KV head count, else the
/// attention head count.
pub open spec fn kv_heads_are(s: GgufModelSummary, h: u64) -> bool {
    s.key_value_heads == Some(h) || (s.key_value_heads is None && s.attention_heads == Some(h))
}

/// Without a latent KV cache, each layer holds a key and a value for every
/// KV head at the head dimension the header records: with `key_length = k`
/// and `h` KV heads a layer takes `2 * h * k` elements and a token
/// `block_count * 2 * h * k * 2` bytes at fp16, whatever the embedding
/// length and attention head count are.
pub proof fn lemma_kv_head_dim_comes_from_key_length(s: GgufModelSummary, h: u64, k: u64)
    requires
        s.kv_lora_rank is None,
        kv_heads_are(s, h),
        s.key_length == Some(k),
    ensures
        kv_per_layer(s) == Ok::<nat, Seq<char>>(2 * (h as nat) * (k as nat)),
        (s.block_count is Some && (s.block_count->Some_0 as nat) * (2 * (h as nat) * (k as nat)) * 2
            <= u64::MAX) ==> kv_bytes_per_token(s) == Ok::<nat, Seq<char>>(
            (s.block_count->Some_0 as nat) * (2 * (h as nat) * (k as nat)) * 2,
        ),
{
    if s.block_count is Some {
        let l = s.block_count->Some_0 as nat;
        let p = 2 * (h as nat) * (k as nat);
        assert(l * p <= l * p * 2) by (nonlinear_arith);
    }
}

/// Without `key_length`, the head dimension is `value_length` when recorded.
pub proof fn lemma_kv_head_dim_falls_back_to_value_length(s: GgufModelSummary, h: u64, v: u64)
    requires
        s.kv_lora_rank is None,
        kv_heads_are(s, h),
        s.key_length is None,
        s.value_length == Some(v),
    ensures
        kv_per_layer(s) == Ok::<nat, Seq<char>>(2 * (h as nat) * (v as nat)),
{
}

/// Only when neither `key_length` nor `value_length` is recorded is the head
/// dimension derived, as `embedding_length / head_count`.
pub proof fn lemma_kv_head_dim_derived_last(s: GgufModelSummary, h: u64, e: u64, a: u64)
    requires
        s.kv_lora_rank is None,
        kv_heads_are(s, h),
        s.key_length is None,
        s.value_length is None,
        s.embedding_length == Some(e),
        s.attention_heads == Some(a),
        a > 0,
    ensures
        kv_per_layer(s) == Ok::<nat, Seq<char>>(2 * (h as nat) * ((e / a) as nat)),
{
}

/// With a latent KV cache (MLA), one latent of `kv_lora_rank` elements plus
/// the rotary part (`rope_dimension_count`, none when absent) is cached per
/// layer, shared by keys and values, whatever the head counts and head
/// dimensions are.
pub proof fn lemma_kv_latent_is_rank_plus_rope(s: GgufModelSummary, rank: u64)
    requires
        s.kv_lora_rank == Some(rank),
    ensures
        s.rope_dimension_count matches Some(d) ==> kv_per_layer(s) == Ok::<nat, Seq<char>>(
            (rank as nat) + (d as nat),
        ),
        s.rope_dimension_count is None ==> kv_per_layer(s) == Ok::<nat, Seq<char>>(rank as nat),
{
}

/// A per-token KV size needs the layer count, and is twice (fp16 bytes) the
/// per-layer elements times the layers.
pub proof fn lemma_kv_bytes_scale_with_layers(s: GgufModelSummary, per: nat)
    requires
        kv_per_layer(s) == Ok::<nat, Seq<char>>(per),
    ensures
        s.block_count is None ==> kv_bytes_per_token(s) is Err,
        (s.block_count is Some && (s.block_count->Some_0 as nat) * per * 2 <= u64::MAX)
            ==> kv_bytes_per_token(s) == Ok::<nat, Seq<char>>(
            (s.block_count->Some_0 as nat) * per * 2,
        ),
{
    if s.block_count is Some {
        let l = s.block_count->Some_0 as nat;
        assert(l * per <= l * per * 2) by (nonlinear_arith);
    }
}

/// With `key_length` recorded, the per-layer KV size does not depend on the
/// embedding length or on how many attention heads there are beyond the
/// recorded KV head count.
pub proof fn lemma_kv_ignores_embedding_given_key_length(
    s: GgufModelSummary,
    embedding: Option<u64>,
    heads: Option<u64>,
)
    requires
        s.key_length is Some,
        s.key_value_heads is Some,
    ensures
        kv_per_layer(s) == kv_per_layer(
            GgufModelSummary { embedding_length: embedding, attention_heads: heads, ..s },
        ),
{
}

impl GgufModelSummary {
    /// KV cache bytes consumed per token across all layers at fp16: GQA
    /// `2 * L * H_kv * head_dim * 2`, or MLA `L * (kv_lora_rank + rope_dim) * 2`
    /// where K and V share one latent.
    pub fn kv_cache_bytes_per_token_fp16(&self) -> (r: Result<u64, String>)
        requires
            self.block_count is Some ==> kv_per_layer_fits(*self),
        ensures
            match kv_bytes_per_token(*self) {
                Ok(x) => r matches Ok(v) && v == x,
                Err(msg) => r matches Err(m) && m@ == msg,
            },
    {
        let layers = match self.block_count {
            Some(l) => l,
            None => return Err(String::from_str("block_count missing")),
        };
        let per_token_layer = match self.kv_lora_rank {
            Some(rank) => {
                let rope = match self.rope_dimension_count {
                    Some(d) => d,
                    None => 0,
                };
                rank + rope
            },
            None => {
                let heads = match self.key_value_heads {
                    Some(h) => h,
                    None => match self.attention_heads {
                        Some(h) => h,
                        None => return Err(String::from_str("attention.head_count missing")),
                    },
                };
                let head_dim = match self.key_length {
                    Some(k) => k,
                    None => match self.value_length {
                        Some(v) => v,
                        None => match (self.embedding_length, self.attention_heads) {
                            (Some(e), Some(ah)) => {
                                if ah > 0 {
                                    e / ah
                                } else {
                                    return Err(
                                        String::from_str(
                                            "cannot determine head_dim (no key_length/embedding_length)",
                                        ),
                                    );
                                }
                            },
                            _ => return Err(
                                String::from_str(
                                    "cannot determine head_dim (no key_length/embedding_length)",
                                ),
                            ),
                        },
                    },
                };
                proof {
                    assert(2 * heads * head_dim == (2 * heads) * head_dim);
                }
                2 * heads * head_dim
            },
        };
        let elems = match layers.checked_mul(per_token_layer) {
            Some(e) => e,
            None => return Err(String::from_str("KV size overflow")),
        };
        match elems.checked_mul(2) {
            Some(b) => Ok(b),
            None => Err(String::from_str("KV size overflow")),
        }
    }
}

proof fn lemma_layout_block_positive(t: GgmlType)
    ensures
        layout_of(t) matches Some((bs, _)) ==> bs > 0,
{
}

/// Stored bytes of one tensor counted toward the weights, in a width that
/// cannot overflow.
fn known_bytes_wide(t: &GgufTensorInfo) -> (b: u128)
    ensures
        b == known_bytes(t@),
{
    let n = t.n_elements();
    match t.dtype.layout() {
        Some((bs, sz)) => {
            proof {
                lemma_layout_block_positive(t.dtype);
                lemma_blocks_for(n as nat, bs as nat);
            }
            let blocks: u128 = (n / bs) as u128 + if n % bs == 0 {
                0
            } else {
                1
            };
            assert(blocks * (sz as u128) < 0x1_0000_0000_0000_0000_0000_0000_0000_0000) by (
            nonlinear_arith)
                requires
                    blocks <= 0x1_0000_0000_0000_0000,
                    sz < 0x1_0000_0000_0000_0000,
            ;
            blocks * (sz as u128)
        },
        None => 0,
    }
}

/// Whether the stored sizes of `tensors` sum within `u64`, which
/// [`GgufModelSummary::from_header`] needs.
pub fn weights_fit(tensors: &Vec<GgufTensorInfo>) -> (r: bool)
    ensures
        r == (weights_total(tensor_seq(tensors@)) <= u64::MAX),
{
    let ghost ts = tensor_seq(tensors@);
    let mut acc: u128 = 0;
    let mut i: usize = 0;
    assert(ts.take(0) =~= Seq::<TensorView>::empty());
    while i < tensors.len()
        invariant
            i <= tensors.len(),
            ts == tensor_seq(tensors@),
            acc == weights_total(ts.take(i as int)),
            acc <= u64::MAX,
        decreases tensors.len() - i,
    {
        let b = known_bytes_wide(&tensors[i]);
        proof {
            lemma_bytes_where_step(ts, i as int, |t: TensorView| true);
            assert(ts[i as int] == tensors@[i as int]@);
        }
        if b > 0xffff_ffff_ffff_ffff - acc {
            proof {
                lemma_weights_prefix(ts, i + 1);
            }
            return false;
        }
        acc = acc + b;
        i = i + 1;
    }
    assert(ts.take(i as int) =~= ts);
    true
}

impl GgufModelSummary {
    /// Whether the per-layer KV element count can be formed in `u64`, which
    /// [`GgufModelSummary::kv_cache_bytes_per_token_fp16`] needs.
    pub fn kv_inputs_fit(&self) -> (r: bool)
        ensures
            r == (self.block_count is Some ==> kv_per_layer_fits(*self)),
    {
        if self.block_count.is_none() {
            return true;
        }
        match self.kv_lora_rank {
            Some(rank) => {
                let rope: u64 = match self.rope_dimension_count {
                    Some(d) => d,
                    None => 0,
                };
                (rank as u128) + (rope as u128) <= 0xffff_ffff_ffff_ffff
            },
            None => {
                let heads = match self.key_value_heads {
                    Some(h) => h,
                    None => match self.attention_heads {
                        Some(h) => h,
                        None => {
                            return true;
                        },
                    },
                };
                if heads > 0x7fff_ffff_ffff_ffff {
                    return false;
                }
                let head_dim = match self.key_length {
                    Some(k) => k,
                    None => match self.value_length {
                        Some(v) => v,
                        None => match (self.embedding_length, self.attention_heads) {
                            (Some(e), Some(ah)) => {
                                if ah > 0 {
                                    e / ah
                                } else {
                                    return true;
                                }
                            },
                            _ => {
                                return true;
                            },
                        },
                    },
                };
                match (2 * heads).checked_mul(head_dim) {
                    Some(_) => true,
                    None => false,
                }
            },
        }
    }
}

} // verus!
