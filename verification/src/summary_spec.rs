//! What a model summary derived from a header contains, as specifications
//! over the header's tensor records.
use vstd::prelude::*;

use crate::format::TensorView;
use crate::ggml::{GgmlType, label_of, nbytes_of, rank_of};
use crate::header::{product, saturate};
use crate::text::{contains, first_index_of, parse_u32, starts_with};

verus! {

/// Role of a tensor, inferred from its standard llama.cpp name.
#[derive(Debug, Clone, Copy, PartialEq, Eq, Structural)]
pub enum Component {
    Embeddings,
    OutputHead,
    RoutedExperts,
    Attention,
    DenseFfn,
    Other,
}

/// Component role inferred from standard llama.cpp tensor names.
pub open spec fn component_of_name(name: Seq<char>) -> Component {
    if starts_with(name, "token_embd"@) || starts_with(name, "pos_embd"@) {
        Component::Embeddings
    } else if starts_with(name, "output."@) || name == "output.weight"@ {
        Component::OutputHead
    } else if contains(name, ".ffn_"@) && contains(name, "_exps."@) {
        Component::RoutedExperts
    } else if contains(name, ".attn_"@) {
        Component::Attention
    } else if contains(name, ".ffn_"@) {
        Component::DenseFfn
    } else {
        Component::Other
    }
}

/// Layer index from the `blk.N.` prefix llama.cpp mandates.
pub open spec fn block_index_of(name: Seq<char>) -> Option<u32> {
    if starts_with(name, "blk."@) {
        let rest = name.subrange(4, name.len() as int);
        match first_index_of(rest, '.') {
            Some(j) => parse_u32(rest.take(j)),
            None => None,
        }
    } else {
        None
    }
}

/// Logical element count of a tensor, saturating at `u64::MAX`.
pub open spec fn tensor_elements(t: TensorView) -> nat {
    saturate(product(t.dims))
}

/// Exact stored bytes of a tensor; `None` for types without a layout.
pub open spec fn tensor_bytes(t: TensorView) -> Option<nat> {
    nbytes_of(t.dtype, tensor_elements(t))
}

/// Stored bytes of a tensor counted toward weights (0 when unknown).
pub open spec fn known_bytes(t: TensorView) -> nat {
    match tensor_bytes(t) {
        Some(b) => b,
        None => 0,
    }
}

/// Sum of known stored bytes over the tensors that satisfy `f`.
pub open spec fn bytes_where(ts: Seq<TensorView>, f: spec_fn(TensorView) -> bool) -> nat
    decreases ts.len(),
{
    if ts.len() == 0 {
        0
    } else {
        bytes_where(ts.drop_last(), f) + if f(ts.last()) {
            known_bytes(ts.last())
        } else {
            0
        }
    }
}

/// Exact bytes all tensors with a known layout occupy.
pub open spec fn weights_total(ts: Seq<TensorView>) -> nat {
    bytes_where(ts, |t: TensorView| true)
}

/// Bytes of the tensors playing role `c`.
pub open spec fn component_total(ts: Seq<TensorView>, c: Component) -> nat {
    bytes_where(ts, |t: TensorView| component_of_name(t.name) == c)
}

/// Bytes of the tensors stored as type `ty`.
pub open spec fn type_total(ts: Seq<TensorView>, ty: GgmlType) -> nat {
    bytes_where(ts, |t: TensorView| t.dtype == ty)
}

/// Some tensor with a known layout is stored as `ty`.
pub open spec fn type_present(ts: Seq<TensorView>, ty: GgmlType) -> bool {
    exists|i: int| 0 <= i < ts.len() && #[trigger] ts[i].dtype == ty && tensor_bytes(ts[i]) is Some
}

/// Logical parameters summed over all tensors, saturating at `u64::MAX`.
pub open spec fn param_total(ts: Seq<TensorView>) -> nat
    decreases ts.len(),
{
    if ts.len() == 0 {
        0
    } else {
        saturate(param_total(ts.drop_last()) + tensor_elements(ts.last()))
    }
}

/// A tensor holding routed-expert weights.
pub open spec fn is_routed(t: TensorView) -> bool {
    contains(t.name, "_exps."@)
}

/// Elements of routed-expert tensors, saturating at `u64::MAX`.
pub open spec fn routed_total(ts: Seq<TensorView>) -> nat
    decreases ts.len(),
{
    if ts.len() == 0 {
        0
    } else {
        saturate(routed_total(ts.drop_last()) + if is_routed(ts.last()) {
            tensor_elements(ts.last())
        } else {
            0
        })
    }
}

/// Some tensor holds routed-expert weights.
pub open spec fn any_routed(ts: Seq<TensorView>) -> bool {
    exists|i: int| 0 <= i < ts.len() && is_routed(#[trigger] ts[i])
}

/// Names and type ids of the tensors whose type has no layout, in order.
pub open spec fn unknown_tensors(ts: Seq<TensorView>) -> Seq<(Seq<char>, u32)>
    decreases ts.len(),
{
    if ts.len() == 0 {
        Seq::empty()
    } else {
        let rest = unknown_tensors(ts.drop_last());
        match ts.last().dtype {
            GgmlType::Unknown(id) => rest.push((ts.last().name, id)),
            _ => rest,
        }
    }
}

/// Active parameters: for MoE, all parameters minus the routed-expert share
/// that `expert_used_count / expert_count` leaves inactive.
pub open spec fn active_params(
    total: nat,
    routed: nat,
    has_routed: bool,
    weights: nat,
    expert_count: Option<u64>,
    expert_used_count: Option<u64>,
) -> Option<nat> {
    if has_routed && weights > 0 {
        match (expert_count, expert_used_count) {
            (Some(count), Some(used)) => if count > 0 {
                let idle = if used < count { count - used } else { 0 };
                let inactive = saturate(routed * (idle as nat)) / (count as nat);
                Some(if total >= inactive { (total - inactive) as nat } else { 0 })
            } else {
                None
            },
            _ => None,
        }
    } else if !has_routed {
        Some(total)
    } else {
        None
    }
}

/// The known types in declaration order.
pub open spec fn known_type(r: int) -> GgmlType {
    if r == 0 { GgmlType::F32 }
    else if r == 1 { GgmlType::F16 }
    else if r == 2 { GgmlType::Q4_0 }
    else if r == 3 { GgmlType::Q4_1 }
    else if r == 4 { GgmlType::Q5_0 }
    else if r == 5 { GgmlType::Q5_1 }
    else if r == 6 { GgmlType::Q8_0 }
    else if r == 7 { GgmlType::Q8_1 }
    else if r == 8 { GgmlType::Q2K }
    else if r == 9 { GgmlType::Q3K }
    else if r == 10 { GgmlType::Q4K }
    else if r == 11 { GgmlType::Q5K }
    else if r == 12 { GgmlType::Q6K }
    else if r == 13 { GgmlType::Q8K }
    else if r == 14 { GgmlType::IQ2Xxs }
    else if r == 15 { GgmlType::IQ2Xs }
    else if r == 16 { GgmlType::IQ3Xxs }
    else if r == 17 { GgmlType::IQ1S }
    else if r == 18 { GgmlType::IQ4Nl }
    else if r == 19 { GgmlType::IQ3S }
    else if r == 20 { GgmlType::IQ2S }
    else if r == 21 { GgmlType::IQ4Xs }
    else if r == 22 { GgmlType::I8 }
    else if r == 23 { GgmlType::I16 }
    else if r == 24 { GgmlType::I32 }
    else if r == 25 { GgmlType::I64 }
    else if r == 26 { GgmlType::F64 }
    else if r == 27 { GgmlType::IQ1M }
    else if r == 28 { GgmlType::BF16 }
    else if r == 29 { GgmlType::TQ1_0 }
    else if r == 30 { GgmlType::TQ2_0 }
    else if r == 31 { GgmlType::MxFp4 }
    else if r == 32 { GgmlType::NvFp4 }
    else if r == 33 { GgmlType::Q1_0 }
    else { GgmlType::Q2_0 }
}

/// Number of types with a layout entry.
pub open spec fn n_known() -> int {
    35
}

/// Inserts `x` into a list kept in descending byte order, after every entry
/// with at least as many bytes (so earlier entries win ties).
pub open spec fn insert_desc(s: Seq<(GgmlType, nat)>, x: (GgmlType, nat)) -> Seq<(GgmlType, nat)>
    decreases s.len(),
{
    if s.len() == 0 {
        seq![x]
    } else if s.last().1 >= x.1 {
        s.push(x)
    } else {
        insert_desc(s.drop_last(), x).push(s.last())
    }
}

/// The present types among the first `n` known types, each with its byte
/// total, stably sorted by bytes, largest first.
pub open spec fn mix_upto(ts: Seq<TensorView>, n: int) -> Seq<(GgmlType, nat)>
    decreases n,
{
    if n <= 0 {
        Seq::empty()
    } else {
        let rest = mix_upto(ts, n - 1);
        let t = known_type(n - 1);
        if type_present(ts, t) {
            insert_desc(rest, (t, type_total(ts, t)))
        } else {
            rest
        }
    }
}

/// Per-type byte shares, sorted by bytes descending; ties in type order.
pub open spec fn quant_mix(ts: Seq<TensorView>) -> Seq<(GgmlType, nat)> {
    mix_upto(ts, n_known())
}

/// Which per-block map a tensor contributes to: `(block, true)` for
/// attention, `(block, false)` for FFN.
pub open spec fn block_slot(t: TensorView) -> Option<(u32, bool)> {
    match block_index_of(t.name) {
        Some(idx) => if tensor_bytes(t) is Some {
            if contains(t.name, ".attn_"@) {
                Some((idx, true))
            } else if contains(t.name, ".ffn_"@) {
                Some((idx, false))
            } else {
                None
            }
        } else {
            None
        },
        None => None,
    }
}

/// Bytes of type `ty` in slot `(idx, attn)`.
pub open spec fn slot_type_total(ts: Seq<TensorView>, idx: u32, attn: bool, ty: GgmlType) -> nat {
    bytes_where(ts, |t: TensorView| block_slot(t) == Some((idx, attn)) && t.dtype == ty)
}

/// Some tensor of type `ty` falls in slot `(idx, attn)`.
pub open spec fn slot_type_present(ts: Seq<TensorView>, idx: u32, attn: bool, ty: GgmlType) -> bool {
    exists|i: int|
        0 <= i < ts.len() && #[trigger] block_slot(ts[i]) == Some((idx, attn)) && ts[i].dtype == ty
}

/// The type with the most bytes among the first `n` known types in a slot;
/// among equals the later type wins.
pub open spec fn dominant_upto(ts: Seq<TensorView>, idx: u32, attn: bool, n: int) -> Option<GgmlType>
    decreases n,
{
    if n <= 0 {
        None
    } else {
        let best = dominant_upto(ts, idx, attn, n - 1);
        let t = known_type(n - 1);
        if slot_type_present(ts, idx, attn, t) && (match best {
            Some(b) => slot_type_total(ts, idx, attn, t) >= slot_type_total(ts, idx, attn, b),
            None => true,
        }) {
            Some(t)
        } else {
            best
        }
    }
}

/// Label of a slot's dominant type, or "-" for an empty slot.
pub open spec fn slot_label(ts: Seq<TensorView>, idx: u32, attn: bool) -> Seq<char> {
    match dominant_upto(ts, idx, attn, n_known()) {
        Some(t) => label_of(t),
        None => "-"@,
    }
}

/// Inserts `x` into an ascending list of distinct values, unless present.
pub open spec fn insert_sorted(s: Seq<u32>, x: u32) -> Seq<u32>
    decreases s.len(),
{
    if s.len() == 0 {
        seq![x]
    } else if s.last() == x {
        s
    } else if s.last() < x {
        s.push(x)
    } else {
        insert_sorted(s.drop_last(), x).push(s.last())
    }
}

/// Block indices that have attention or FFN tensors, ascending, each once.
pub open spec fn block_list(ts: Seq<TensorView>) -> Seq<u32>
    decreases ts.len(),
{
    if ts.len() == 0 {
        Seq::empty()
    } else {
        let rest = block_list(ts.drop_last());
        match block_slot(ts.last()) {
            Some((idx, _)) => insert_sorted(rest, idx),
            None => rest,
        }
    }
}

/// A run of consecutive blocks sharing the same attention and FFN types.
pub struct RunView {
    pub first_block: u32,
    pub last_block: u32,
    pub attention: Seq<char>,
    pub ffn: Seq<char>,
}

/// Merges per-block (index, attention label, FFN label) rows into runs.
pub open spec fn merge_runs(rows: Seq<(u32, Seq<char>, Seq<char>)>) -> Seq<RunView>
    decreases rows.len(),
{
    if rows.len() == 0 {
        Seq::empty()
    } else {
        let runs = merge_runs(rows.drop_last());
        let (idx, a, f) = rows.last();
        if runs.len() > 0 && runs.last().attention == a && runs.last().ffn == f
            && runs.last().last_block + 1 == idx {
            runs.update(
                runs.len() - 1,
                RunView { first_block: runs.last().first_block, last_block: idx, attention: a, ffn: f },
            )
        } else {
            runs.push(RunView { first_block: idx, last_block: idx, attention: a, ffn: f })
        }
    }
}

/// The per-block rows of a tensor list.
pub open spec fn block_rows(ts: Seq<TensorView>) -> Seq<(u32, Seq<char>, Seq<char>)> {
    block_list(ts).map_values(|idx: u32| (idx, slot_label(ts, idx, true), slot_label(ts, idx, false)))
}

/// Merged layer runs of a tensor list.
pub open spec fn layer_runs(ts: Seq<TensorView>) -> Seq<RunView> {
    merge_runs(block_rows(ts))
}

/// Sum of the six component totals.
pub open spec fn components_sum(ts: Seq<TensorView>) -> nat {
    component_total(ts, Component::Embeddings) + component_total(ts, Component::OutputHead)
        + component_total(ts, Component::RoutedExperts) + component_total(ts, Component::Attention)
        + component_total(ts, Component::DenseFfn) + component_total(ts, Component::Other)
}

/// Every weight byte belongs to exactly one component: the component split
/// adds up to the total weight bytes.
pub proof fn lemma_components_partition_weights(ts: Seq<TensorView>)
    ensures
        components_sum(ts) == weights_total(ts),
    decreases ts.len(),
{
    if ts.len() > 0 {
        lemma_components_partition_weights(ts.drop_last());
    }
}

/// Sum of the byte column of a mix list.
pub open spec fn mix_sum(s: Seq<(GgmlType, nat)>) -> nat
    decreases s.len(),
{
    if s.len() == 0 {
        0
    } else {
        mix_sum(s.drop_last()) + s.last().1
    }
}

/// Byte column never increases along the list.
pub open spec fn mix_sorted(s: Seq<(GgmlType, nat)>) -> bool {
    forall|i: int, j: int| 0 <= i < j < s.len() ==> #[trigger] s[i].1 >= #[trigger] s[j].1
}

proof fn lemma_insert_desc_props(s: Seq<(GgmlType, nat)>, x: (GgmlType, nat))
    requires
        mix_sorted(s),
    ensures
        mix_sum(insert_desc(s, x)) == mix_sum(s) + x.1,
        mix_sorted(insert_desc(s, x)),
        insert_desc(s, x).len() == s.len() + 1,
        forall|i: int| 0 <= i < insert_desc(s, x).len() ==> (#[trigger] insert_desc(s, x)[i] == x
            || s.contains(insert_desc(s, x)[i])),
    decreases s.len(),
{
    if s.len() > 0 && s.last().1 < x.1 {
        let d = s.drop_last();
        assert(mix_sorted(d));
        lemma_insert_desc_props(d, x);
        let r = insert_desc(d, x);
        assert(r.push(s.last()).drop_last() =~= r);
        assert(mix_sum(r.push(s.last())) == mix_sum(r) + s.last().1);
        assert(mix_sum(s) == mix_sum(d) + s.last().1);
        assert forall|i: int| 0 <= i < r.len() implies #[trigger] r[i].1 >= s.last().1 by {
            if r[i] == x {
            } else {
                assert(d.contains(r[i]));
                let k = choose|k: int| 0 <= k < d.len() && d[k] == r[i];
                assert(s[k] == d[k]);
                assert(s[k].1 >= s[s.len() - 1].1);
            }
        }
        assert forall|i: int| 0 <= i < r.len() + 1 implies (#[trigger] r.push(s.last())[i] == x
            || s.contains(r.push(s.last())[i])) by {
            if i < r.len() {
                if r[i] != x {
                    let k = choose|k: int| 0 <= k < d.len() && d[k] == r[i];
                    assert(s[k] == d[k]);
                }
            } else {
                assert(s[s.len() - 1] == s.last());
            }
        }
    } else if s.len() > 0 {
        assert(s.push(x).drop_last() =~= s);
        assert forall|i: int| 0 <= i < s.len() + 1 implies (#[trigger] s.push(x)[i] == x
            || s.contains(s.push(x)[i])) by {
            if i < s.len() {
                assert(s[i] == s.push(x)[i]);
            }
        }
    } else {
        assert(seq![x].drop_last() =~= Seq::<(GgmlType, nat)>::empty());
        assert(mix_sum(seq![x]) == mix_sum(Seq::<(GgmlType, nat)>::empty()) + x.1);
    }
}

/// Sum over the first `n` known types of their byte totals.
pub open spec fn type_totals_upto(ts: Seq<TensorView>, n: int) -> nat
    decreases n,
{
    if n <= 0 {
        0
    } else {
        type_totals_upto(ts, n - 1) + type_total(ts, known_type(n - 1))
    }
}

proof fn lemma_type_totals_step(ts: Seq<TensorView>, n: int)
    requires
        ts.len() > 0,
        0 <= n <= 35,
    ensures
        type_totals_upto(ts, n) == type_totals_upto(ts.drop_last(), n) + if tensor_bytes(ts.last())
            is Some && 0 <= rank_of(ts.last().dtype) < n {
            known_bytes(ts.last())
        } else {
            0
        },
    decreases n,
{
    if n > 0 {
        lemma_type_totals_step(ts, n - 1);
        let t = ts.last().dtype;
        if known_type(n - 1) == t {
            assert(rank_of(known_type(n - 1)) == n - 1);
        } else if tensor_bytes(ts.last()) is Some && rank_of(t) == n - 1 {
            assert(!(t is Unknown));
            assert(known_type(rank_of(t)) == t);
        }
    }
}

/// Every known weight byte is stored as exactly one of the known types.
pub proof fn lemma_type_totals_cover_weights(ts: Seq<TensorView>)
    ensures
        type_totals_upto(ts, 35) == weights_total(ts),
    decreases ts.len(),
{
    if ts.len() == 0 {
        lemma_type_totals_empty(ts, 35);
    } else {
        lemma_type_totals_cover_weights(ts.drop_last());
        lemma_type_totals_step(ts, 35);
        let t = ts.last().dtype;
        if tensor_bytes(ts.last()) is Some {
            assert(!(t is Unknown));
            assert(0 <= rank_of(t) < 35);
        }
    }
}

proof fn lemma_type_totals_empty(ts: Seq<TensorView>, n: int)
    requires
        ts.len() == 0,
    ensures
        type_totals_upto(ts, n) == 0,
    decreases n,
{
    if n > 0 {
        lemma_type_totals_empty(ts, n - 1);
    }
}

proof fn lemma_absent_type_total(ts: Seq<TensorView>, ty: GgmlType)
    requires
        !type_present(ts, ty),
    ensures
        type_total(ts, ty) == 0,
    decreases ts.len(),
{
    if ts.len() > 0 {
        let d = ts.drop_last();
        if type_present(d, ty) {
            let k = choose|k: int| 0 <= k < d.len() && #[trigger] d[k].dtype == ty && tensor_bytes(d[k]) is Some;
            assert(ts[k] == d[k]);
        }
        lemma_absent_type_total(d, ty);
        assert(ts[ts.len() - 1] == ts.last());
    }
}

proof fn lemma_mix_upto_props(ts: Seq<TensorView>, n: int)
    requires
        0 <= n <= 35,
    ensures
        mix_sorted(mix_upto(ts, n)),
        mix_sum(mix_upto(ts, n)) == type_totals_upto(ts, n),
    decreases n,
{
    if n > 0 {
        lemma_mix_upto_props(ts, n - 1);
        let t = known_type(n - 1);
        if type_present(ts, t) {
            lemma_insert_desc_props(mix_upto(ts, n - 1), (t, type_total(ts, t)));
        } else {
            lemma_absent_type_total(ts, t);
        }
    }
}

/// The quant mix lists shares in non-increasing byte order, and its byte
/// column adds up to the total weight bytes.
pub proof fn lemma_quant_mix_sorted_and_complete(ts: Seq<TensorView>)
    ensures
        mix_sorted(quant_mix(ts)),
        mix_sum(quant_mix(ts)) == weights_total(ts),
{
    lemma_mix_upto_props(ts, 35);
    lemma_type_totals_cover_weights(ts);
}

/// Strictly ascending.
pub open spec fn strictly_ascending(s: Seq<u32>) -> bool {
    forall|i: int, j: int| 0 <= i < j < s.len() ==> #[trigger] s[i] < #[trigger] s[j]
}

proof fn lemma_insert_sorted_props(s: Seq<u32>, x: u32)
    requires
        strictly_ascending(s),
    ensures
        strictly_ascending(insert_sorted(s, x)),
        forall|y: u32| #[trigger] insert_sorted(s, x).contains(y) <==> (s.contains(y) || y == x),
    decreases s.len(),
{
    if s.len() == 0 {
        assert(seq![x][0] == x);
        assert(seq![x].contains(x));
    } else if s.last() == x {
    } else if s.last() < x {
        let r = s.push(x);
        assert forall|y: u32| #[trigger] r.contains(y) <==> (s.contains(y) || y == x) by {
            if r.contains(y) {
                let k = choose|k: int| 0 <= k < r.len() && r[k] == y;
                if k < s.len() {
                    assert(s[k] == y);
                }
            }
            if s.contains(y) {
                let k = choose|k: int| 0 <= k < s.len() && s[k] == y;
                assert(r[k] == y);
            }
            if y == x {
                assert(r[s.len() as int] == x);
            }
        }
    } else {
        let d = s.drop_last();
        assert(strictly_ascending(d));
        lemma_insert_sorted_props(d, x);
        let m = insert_sorted(d, x);
        let r = m.push(s.last());
        assert forall|i: int| 0 <= i < m.len() implies #[trigger] m[i] < s.last() by {
            assert(m.contains(m[i]));
            if m[i] == x {
            } else {
                assert(d.contains(m[i]));
                let k = choose|k: int| 0 <= k < d.len() && d[k] == m[i];
                assert(s[k] == d[k]);
            }
        }
        assert forall|y: u32| #[trigger] r.contains(y) <==> (s.contains(y) || y == x) by {
            if r.contains(y) {
                let k = choose|k: int| 0 <= k < r.len() && r[k] == y;
                if k < m.len() {
                    assert(m.contains(y));
                    if y != x {
                        assert(d.contains(y));
                        let j = choose|j: int| 0 <= j < d.len() && d[j] == y;
                        assert(s[j] == y);
                    }
                } else {
                    assert(s[s.len() - 1] == y);
                }
            }
            if s.contains(y) {
                let k = choose|k: int| 0 <= k < s.len() && s[k] == y;
                if k < s.len() - 1 {
                    assert(d[k] == y);
                    assert(m.contains(y));
                    let j = choose|j: int| 0 <= j < m.len() && m[j] == y;
                    assert(r[j] == y);
                } else {
                    assert(r[m.len() as int] == y);
                }
            }
            if y == x {
                assert(m.contains(x));
                let j = choose|j: int| 0 <= j < m.len() && m[j] == x;
                assert(r[j] == x);
            }
        }
    }
}

/// Some tensor of block `idx` contributes to the per-block maps.
pub open spec fn block_used(ts: Seq<TensorView>, idx: u32) -> bool {
    exists|i: int| 0 <= i < ts.len() && #[trigger] slot_block(ts[i]) == Some(idx)
}

/// The block a tensor's slot belongs to.
pub open spec fn slot_block(t: TensorView) -> Option<u32> {
    match block_slot(t) {
        Some((j, _)) => Some(j),
        None => None,
    }
}

/// The block list is strictly ascending and holds exactly the blocks that
/// have attention or FFN tensors.
pub proof fn lemma_block_list_sorted_exact(ts: Seq<TensorView>)
    ensures
        strictly_ascending(block_list(ts)),
        forall|idx: u32| #[trigger] block_list(ts).contains(idx) <==> block_used(ts, idx),
    decreases ts.len(),
{
    if ts.len() > 0 {
        let d = ts.drop_last();
        lemma_block_list_sorted_exact(d);
        match block_slot(ts.last()) {
            Some((x, _)) => lemma_insert_sorted_props(block_list(d), x),
            None => {},
        }
        assert forall|idx: u32| #[trigger] block_list(ts).contains(idx) <==> block_used(ts, idx) by {
            if block_used(d, idx) {
                let k = choose|k: int| 0 <= k < d.len() && #[trigger] slot_block(d[k]) == Some(idx);
                assert(ts[k] == d[k]);
            }
            if block_used(ts, idx) {
                let k = choose|k: int| 0 <= k < ts.len() && #[trigger] slot_block(ts[k]) == Some(idx);
                if k < d.len() {
                    assert(ts[k] == d[k]);
                } else {
                    assert(ts[k] == ts.last());
                }
            }
            if slot_block(ts.last()) == Some(idx) {
                assert(ts[ts.len() - 1] == ts.last());
            }
        }
    }
}

/// Runs are ordered, do not overlap, and each spans at least one block.
pub open spec fn runs_ordered(runs: Seq<RunView>) -> bool {
    &&& forall|i: int| 0 <= i < runs.len() ==> #[trigger] runs[i].first_block <= runs[i].last_block
    &&& forall|i: int, j: int|
        0 <= i < j < runs.len() ==> #[trigger] runs[i].last_block < #[trigger] runs[j].first_block
}

proof fn lemma_merge_runs_ordered(rows: Seq<(u32, Seq<char>, Seq<char>)>)
    requires
        forall|i: int, j: int| 0 <= i < j < rows.len() ==> #[trigger] rows[i].0 < #[trigger] rows[j].0,
    ensures
        runs_ordered(merge_runs(rows)),
        rows.len() > 0 ==> merge_runs(rows).len() > 0 && merge_runs(rows).last().last_block
            == rows.last().0,
        rows.len() == 0 ==> merge_runs(rows).len() == 0,
    decreases rows.len(),
{
    if rows.len() > 0 {
        let d = rows.drop_last();
        lemma_merge_runs_ordered(d);
        let runs = merge_runs(d);
        if d.len() > 0 {
            assert(rows[d.len() - 1].0 < rows[rows.len() - 1].0);
        }
    }
}

/// Layer runs come out in block order without overlap.
pub proof fn lemma_layer_runs_ordered(ts: Seq<TensorView>)
    ensures
        runs_ordered(layer_runs(ts)),
{
    lemma_block_list_sorted_exact(ts);
    let rows = block_rows(ts);
    assert forall|i: int, j: int| 0 <= i < j < rows.len() implies #[trigger] rows[i].0 < #[trigger] rows[j].0 by {
        assert(block_list(ts)[i] < block_list(ts)[j]);
    }
    lemma_merge_runs_ordered(rows);
}

/// The active parameter count never exceeds the total.
pub proof fn lemma_active_at_most_total(
    total: nat,
    routed: nat,
    has_routed: bool,
    weights: nat,
    expert_count: Option<u64>,
    expert_used_count: Option<u64>,
)
    ensures
        active_params(total, routed, has_routed, weights, expert_count, expert_used_count) matches Some(
            a,
        ) ==> a <= total,
{
}

/// Two runs that could have been one: same types, the second starting right
/// after the first ends.
pub open spec fn mergeable(a: RunView, b: RunView) -> bool {
    a.attention == b.attention && a.ffn == b.ffn && a.last_block + 1 == b.first_block
}

/// Some run holds the block of `row` with the row's types.
pub open spec fn covered(runs: Seq<RunView>, row: (u32, Seq<char>, Seq<char>)) -> bool {
    exists|j: int|
        0 <= j < runs.len() && (#[trigger] runs[j]).first_block <= row.0 <= runs[j].last_block
            && runs[j].attention == row.1 && runs[j].ffn == row.2
}

proof fn lemma_merge_runs_maximal(rows: Seq<(u32, Seq<char>, Seq<char>)>)
    requires
        forall|i: int, j: int| 0 <= i < j < rows.len() ==> #[trigger] rows[i].0 < #[trigger] rows[j].0,
    ensures
        forall|i: int| 0 <= i < merge_runs(rows).len() - 1 ==> !mergeable(
            #[trigger] merge_runs(rows)[i],
            merge_runs(rows)[i + 1],
        ),
        forall|k: int| 0 <= k < rows.len() ==> covered(merge_runs(rows), #[trigger] rows[k]),
    decreases rows.len(),
{
    if rows.len() > 0 {
        let d = rows.drop_last();
        lemma_merge_runs_maximal(d);
        lemma_merge_runs_ordered(d);
        let runs = merge_runs(d);
        let out = merge_runs(rows);
        let (idx, a, f) = rows.last();
        let n = runs.len();
        assert forall|k: int| 0 <= k < rows.len() implies covered(out, #[trigger] rows[k]) by {
            if k < d.len() {
                assert(d[k] == rows[k]);
                assert(covered(runs, d[k]));
                let j = choose|j: int|
                    0 <= j < runs.len() && (#[trigger] runs[j]).first_block <= d[k].0
                        <= runs[j].last_block && runs[j].attention == d[k].1 && runs[j].ffn
                        == d[k].2;
                if j == n - 1 && out.len() == n {
                    assert(out[j].first_block == runs[j].first_block);
                    assert(d[k].0 <= runs[j].last_block);
                    assert(out[j].last_block == idx);
                    assert(d[k].0 < idx);
                } else {
                    assert(out[j] == runs[j]);
                }
                assert(0 <= j < out.len());
            } else {
                assert(rows[k] == (idx, a, f));
                assert(out[out.len() - 1].last_block == idx);
                assert(out[out.len() - 1].first_block <= idx) by {
                    if out.len() == n && n > 0 {
                        assert(runs.last().last_block + 1 == idx);
                        assert(runs[n - 1].first_block <= runs[n - 1].last_block);
                    }
                }
            }
        }
    }
}

/// Layer runs are maximal and complete: no two neighbouring runs could be
/// merged, and every block lies in a run that carries its attention and FFN
/// types.
pub proof fn lemma_layer_runs_maximal(ts: Seq<TensorView>)
    ensures
        forall|i: int| 0 <= i < layer_runs(ts).len() - 1 ==> !mergeable(
            #[trigger] layer_runs(ts)[i],
            layer_runs(ts)[i + 1],
        ),
        forall|k: int| 0 <= k < block_rows(ts).len() ==> covered(layer_runs(ts), #[trigger] block_rows(ts)[k]),
{
    lemma_block_list_sorted_exact(ts);
    let rows = block_rows(ts);
    assert forall|i: int, j: int| 0 <= i < j < rows.len() implies #[trigger] rows[i].0 < #[trigger] rows[j].0 by {
        assert(block_list(ts)[i] < block_list(ts)[j]);
    }
    lemma_merge_runs_maximal(rows);
}


/// Every type other than `Unknown` sits at its own place in the declaration
/// order.
proof fn lemma_known_at_rank(u: GgmlType)
    requires
        !(u is Unknown),
    ensures
        0 <= rank_of(u) < n_known(),
        known_type(rank_of(u)) == u,
{
}

/// A type present in a block slot has a layout, so it is not `Unknown`.
proof fn lemma_present_is_known(ts: Seq<TensorView>, idx: u32, attn: bool, u: GgmlType)
    requires
        slot_type_present(ts, idx, attn, u),
    ensures
        !(u is Unknown),
{
    let i = choose|i: int|
        0 <= i < ts.len() && #[trigger] block_slot(ts[i]) == Some((idx, attn)) && ts[i].dtype == u;
    assert(tensor_bytes(ts[i]) is Some);
}

proof fn lemma_dominant_upto_heaviest(ts: Seq<TensorView>, idx: u32, attn: bool, n: int)
    requires
        0 <= n <= n_known(),
    ensures
        match dominant_upto(ts, idx, attn, n) {
            Some(t) => {
                &&& slot_type_present(ts, idx, attn, t)
                &&& !(t is Unknown)
                &&& 0 <= rank_of(t) < n
                &&& forall|u: GgmlType|
                    #![trigger slot_type_present(ts, idx, attn, u)]
                    !(u is Unknown) && rank_of(u) < n && slot_type_present(ts, idx, attn, u)
                        ==> slot_type_total(ts, idx, attn, u) <= slot_type_total(ts, idx, attn, t)
                        && (slot_type_total(ts, idx, attn, u) == slot_type_total(ts, idx, attn, t)
                        ==> rank_of(u) <= rank_of(t))
            },
            None => forall|u: GgmlType|
                #![trigger slot_type_present(ts, idx, attn, u)]
                !(u is Unknown) && rank_of(u) < n ==> !slot_type_present(ts, idx, attn, u),
        },
    decreases n,
{
    if n > 0 {
        lemma_dominant_upto_heaviest(ts, idx, attn, n - 1);
        let t = known_type(n - 1);
        lemma_known_at_rank(t);
        assert forall|u: GgmlType| !(u is Unknown) && rank_of(u) == n - 1 implies u == t by {
            lemma_known_at_rank(u);
        }
    }
}

/// The label of a block's attention or FFN slot names the type holding the
/// most bytes there: a type present in the slot whose byte total is at least
/// that of every type present, the one latest in type order among equally
/// heavy types. A slot with no tensors is labelled `-`.
pub proof fn lemma_slot_label_names_heaviest_type(ts: Seq<TensorView>, idx: u32, attn: bool)
    ensures
        (exists|u: GgmlType| slot_type_present(ts, idx, attn, u)) ==> exists|t: GgmlType|
            {
                &&& slot_type_present(ts, idx, attn, t)
                &&& #[trigger] label_of(t) == slot_label(ts, idx, attn)
                &&& forall|u: GgmlType|
                    #![trigger slot_type_present(ts, idx, attn, u)]
                    slot_type_present(ts, idx, attn, u) ==> slot_type_total(ts, idx, attn, u)
                        <= slot_type_total(ts, idx, attn, t) && (slot_type_total(ts, idx, attn, u)
                        == slot_type_total(ts, idx, attn, t) ==> rank_of(u) <= rank_of(t))
            },
        (forall|u: GgmlType| !slot_type_present(ts, idx, attn, u)) ==> slot_label(ts, idx, attn)
            == "-"@,
{
    lemma_dominant_upto_heaviest(ts, idx, attn, n_known());
    assert forall|u: GgmlType| slot_type_present(ts, idx, attn, u) implies !(u is Unknown) && rank_of(
        u,
    ) < n_known() by {
        lemma_present_is_known(ts, idx, attn, u);
        lemma_known_at_rank(u);
    }
    if exists|u: GgmlType| slot_type_present(ts, idx, attn, u) {
        let u = choose|u: GgmlType| slot_type_present(ts, idx, attn, u);
        let t = dominant_upto(ts, idx, attn, n_known())->Some_0;
        assert(label_of(t) == slot_label(ts, idx, attn));
    }
}

} // verus!
