use llmfit_core::format::GGUF_MAGIC;
use llmfit_core::ggml::GgmlType;
use llmfit_core::header::{GgufError, GgufHeader};
use llmfit_core::scan::{HeaderScan, ScanStep, FIRST_PREFIX_BYTES};
use llmfit_core::summary::GgufModelSummary;
use llmfit_core::value::{FloatBits, GgufValue, GgufValueType};

/// Builder for synthetic GGUF headers.
struct Fixture {
    version: u32,
    kv: Vec<u8>,
    n_kv: u64,
    tensors: Vec<u8>,
    n_tensors: u64,
}

impl Fixture {
    fn new(version: u32) -> Self {
        Fixture { version, kv: Vec::new(), n_kv: 0, tensors: Vec::new(), n_tensors: 0 }
    }

    fn push_len_prefixed(&self, buf: &mut Vec<u8>, len: u64) {
        if self.version >= 2 {
            buf.extend_from_slice(&len.to_le_bytes());
        } else {
            buf.extend_from_slice(&(len as u32).to_le_bytes());
        }
    }

    fn push_str(&self, buf: &mut Vec<u8>, s: &str) {
        self.push_len_prefixed(buf, s.len() as u64);
        buf.extend_from_slice(s.as_bytes());
    }

    fn kv_raw(mut self, key: &str, type_id: u32, payload: &[u8]) -> Self {
        let mut buf = Vec::new();
        self.push_str(&mut buf, key);
        buf.extend_from_slice(&type_id.to_le_bytes());
        buf.extend_from_slice(payload);
        self.kv.extend(buf);
        self.n_kv += 1;
        self
    }

    fn kv_str(self, key: &str, val: &str) -> Self {
        let mut payload = Vec::new();
        self.push_str(&mut payload, val);
        self.kv_raw(key, 8, &payload)
    }

    fn kv_u32(self, key: &str, val: u32) -> Self {
        self.kv_raw(key, 4, &val.to_le_bytes())
    }

    fn kv_i32(self, key: &str, val: i32) -> Self {
        self.kv_raw(key, 5, &val.to_le_bytes())
    }

    fn kv_u64(self, key: &str, val: u64) -> Self {
        self.kv_raw(key, 10, &val.to_le_bytes())
    }

    fn kv_f32(self, key: &str, val: f32) -> Self {
        self.kv_raw(key, 6, &val.to_le_bytes())
    }

    fn kv_arr_str(mut self, key: &str, n: u64) -> Self {
        let mut buf = Vec::new();
        self.push_str(&mut buf, key);
        buf.extend_from_slice(&9u32.to_le_bytes()); // ARRAY
        buf.extend_from_slice(&8u32.to_le_bytes()); // of STRING
        buf.extend_from_slice(&n.to_le_bytes());
        self.kv.extend(buf);
        for _ in 0..n {
            let mut elem = Vec::new();
            self.push_len_prefixed(&mut elem, 3);
            elem.extend_from_slice(b"abc");
            self.kv.extend(elem);
        }
        self.n_kv += 1;
        self
    }

    fn kv_arr_u32(mut self, key: &str, vals: &[u32]) -> Self {
        let mut buf = Vec::new();
        self.push_str(&mut buf, key);
        buf.extend_from_slice(&9u32.to_le_bytes()); // ARRAY
        buf.extend_from_slice(&4u32.to_le_bytes()); // of UINT32
        buf.extend_from_slice(&(vals.len() as u64).to_le_bytes());
        self.kv.extend(buf);
        for v in vals {
            self.kv.extend_from_slice(&v.to_le_bytes());
        }
        self.n_kv += 1;
        self
    }

    fn tensor(mut self, name: &str, dims: &[u64], type_id: u32) -> Self {
        let mut buf = Vec::new();
        self.push_str(&mut buf, name);
        buf.extend_from_slice(&(dims.len() as u32).to_le_bytes());
        for d in dims {
            buf.extend_from_slice(&d.to_le_bytes());
        }
        buf.extend_from_slice(&type_id.to_le_bytes());
        buf.extend_from_slice(&0u64.to_le_bytes()); // data offset
        self.tensors.extend(buf);
        self.n_tensors += 1;
        self
    }

    fn bytes(self) -> Vec<u8> {
        let mut out = GGUF_MAGIC.to_le_bytes().to_vec();
        out.extend_from_slice(&self.version.to_le_bytes());
        if self.version >= 2 {
            out.extend_from_slice(&self.n_tensors.to_le_bytes());
            out.extend_from_slice(&self.n_kv.to_le_bytes());
        } else {
            out.extend_from_slice(&(self.n_tensors as u32).to_le_bytes());
            out.extend_from_slice(&(self.n_kv as u32).to_le_bytes());
        }
        out.extend(self.kv);
        out.extend(self.tensors);
        out
    }

    fn parse(self) -> Result<GgufHeader, String> {
        GgufHeader::read_from(&self.bytes())
    }

    fn parse_ok(self) -> GgufHeader {
        self.parse().expect("fixture should parse")
    }
}

/// Dense llama-like file: 2 blocks, GQA 6 heads / 2 kv heads, head_dim 128.
fn dense_fixture(version: u32) -> Fixture {
    Fixture::new(version)
        .kv_str("general.architecture", "llama")
        .kv_str("general.name", "Tiny Llama")
        .kv_u32("llama.block_count", 2)
        .kv_u32("llama.attention.head_count", 6)
        .kv_u32("llama.attention.head_count_kv", 2)
        .kv_u32("llama.attention.key_length", 128)
        .kv_u64("llama.context_length", 4096)
        .kv_u64("llama.embedding_length", 768)
        .tensor("token_embd.weight", &[512, 768], 1) // F16
        .tensor("output.weight", &[768, 512], 14) // Q6_K
        .tensor("blk.0.attn_q.weight", &[768, 768], 8) // Q8_0
        .tensor("blk.0.ffn_down.weight", &[768, 2048], 12) // Q4_K
        .tensor("blk.1.attn_q.weight", &[768, 768], 8)
        .tensor("blk.1.ffn_down.weight", &[768, 2048], 12)
}

#[test]
fn test_parses_dense_llama_header() {
    let header = dense_fixture(3).parse_ok();
    assert_eq!(header.version, 3);
    assert_eq!(header.tensors.len(), 6);
    assert_eq!(header.get_str("general.architecture"), Some("llama"));
    assert_eq!(header.get_str("general.name"), Some("Tiny Llama"));
    assert_eq!(header.get_u64("llama.block_count"), Some(2));
    assert_eq!(header.get_u64("llama.attention.head_count_kv"), Some(2));
    assert_eq!(header.get_u64("llama.context_length"), Some(4096));

    let embd = &header.tensors[0];
    assert_eq!(embd.dtype, GgmlType::F16);
    assert_eq!(embd.n_elements(), 512 * 768);
    let attn = &header.tensors[2];
    assert_eq!(attn.dtype, GgmlType::Q8_0);

    let summary = GgufModelSummary::from_header(&header);
    assert_eq!(summary.architecture.as_deref(), Some("llama"));
    assert_eq!(summary.model_name.as_deref(), Some("Tiny Llama"));
    assert_eq!(summary.block_count, Some(2));
    assert_eq!(summary.attention_heads, Some(6));
    assert_eq!(summary.key_value_heads, Some(2));
    assert_eq!(summary.context_length, Some(4096));
    assert!(!summary.has_routed_experts);
    assert_eq!(summary.active_parameters, Some(summary.total_parameters));
}

#[test]
fn test_exact_weight_bytes_and_quant_mix() {
    let header = dense_fixture(3).parse_ok();
    let summary = GgufModelSummary::from_header(&header);

    // Hand-computed tensor sizes.
    let f16_embd = 512 * 768 * 2; // F16: 1 el/block, 2 B/el
    let q6k_output = ((768 * 512) / 256) * 210; // Q6_K: 256 el/block, 210 B
    let q8_attn = ((768 * 768) / 32) * 34; // Q8_0: 32 el/block, 34 B
    let q4_ffn = ((768 * 2048) / 256) * 144; // Q4_K: 256 el/block, 144 B

    let expected = f16_embd + q6k_output + 2 * (q8_attn + q4_ffn);
    assert_eq!(summary.weights_bytes as u128, expected as u128);
    assert_eq!(
        summary.total_parameters,
        512u64 * 768 + 768 * 512 + 2 * 768 * 768 + 2 * 768 * 2048
    );

    let mix: Vec<(String, u64)> = summary
        .quant_mix
        .iter()
        .map(|s| (s.label.clone(), s.bytes))
        .collect();
    // 2x Q4_K ffn (1.77 MB) outweighs 2x Q8_0 attn (1.25 MB).
    assert_eq!(
        mix,
        vec![
            ("Q4_K".into(), 2 * q4_ffn),
            ("Q8_0".into(), 2 * q8_attn),
            ("F16".into(), f16_embd),
            ("Q6_K".into(), q6k_output),
        ]
    );
    assert_eq!(
        summary.dominant_quant().map(|q| q.label.as_str()),
        Some("Q4_K")
    );

    // The shares are the byte counts over the total, so they sum to one.
    let share_sum: f64 = summary
        .quant_mix
        .iter()
        .map(|s| s.bytes as f64 / summary.weights_bytes as f64)
        .sum();
    assert!((share_sum - 1.0).abs() < 1e-9);
    let byte_sum: u64 = summary.quant_mix.iter().map(|s| s.bytes).sum();
    assert_eq!(byte_sum, summary.weights_bytes);

    // Component split.
    assert_eq!(summary.components.embeddings, f16_embd);
    assert_eq!(summary.components.output_head, q6k_output);
    assert_eq!(summary.components.attention, 2 * q8_attn);
    assert_eq!(summary.components.dense_ffn, 2 * q4_ffn);
    assert_eq!(summary.components.routed_experts, 0);
}

#[test]
fn test_gqa_kv_cache_estimate() {
    let header = dense_fixture(3).parse_ok();
    let summary = GgufModelSummary::from_header(&header);

    // per token per layer: 2 kv heads x 128 head_dim x 2 (K and V) =
    // 512 elements = 1024 bytes at fp16; two layers -> 2048 bytes/token.
    assert_eq!(summary.kv_cache_bytes_per_token_fp16().unwrap(), 2048);
    // @4096 ctx: 2048 * 4096 B = 8 MiB = 8/1024 GiB.
    let bytes = summary.kv_cache_bytes_per_token_fp16().unwrap() * 4096;
    let gib = bytes as f64 / (1024.0 * 1024.0 * 1024.0);
    assert!((gib - 8.0 / 1024.0).abs() < 1e-9);

    // Without block_count the estimate must fail loudly, not guess.
    let header_no_layers = Fixture::new(3)
        .kv_str("general.architecture", "llama")
        .kv_u32("llama.attention.head_count", 6)
        .kv_u32("llama.attention.key_length", 128)
        .tensor("token_embd.weight", &[8, 8], 0)
        .parse_ok();
    let s = GgufModelSummary::from_header(&header_no_layers);
    assert!(s.kv_cache_bytes_per_token_fp16().is_err());
}

#[test]
fn test_mla_deepseek2_kv_matches_c3_anchor() {
    let header = Fixture::new(3)
        .kv_str("general.architecture", "deepseek2")
        .kv_u64("deepseek2.block_count", 61)
        .kv_u64("deepseek2.attention.kv_lora_rank", 512)
        .kv_u64("deepseek2.rope.dimension_count", 64)
        .kv_u64("deepseek2.attention.key_length", 576)
        .kv_u32("deepseek2.expert_count", 160)
        .kv_u32("deepseek2.expert_used_count", 6)
        .tensor("token_embd.weight", &[1024, 7168], 12)
        .parse_ok();
    let summary = GgufModelSummary::from_header(&header);

    assert_eq!(summary.kv_lora_rank, Some(512));
    // Per token per layer: 512 + 64 = 576 shared latent elements.
    assert_eq!(
        summary.kv_cache_bytes_per_token_fp16().unwrap(),
        61 * 576 * 2
    );
    // V0-C3 anchor: R1 fp16 @32k ~= 2.15 GiB.
    let bytes = summary.kv_cache_bytes_per_token_fp16().unwrap() * 32768;
    let gib = bytes as f64 / (1024.0 * 1024.0 * 1024.0);
    let expected = (61u64 * 576 * 2 * 32768) as f64 / (1024.0 * 1024.0 * 1024.0);
    assert!((gib - expected).abs() < 1e-9);
}

#[test]
fn test_moe_active_parameters_scaled_by_used_experts() {
    let header = Fixture::new(3)
        .kv_str("general.architecture", "qwen2_moe")
        .kv_u64("qwen2_moe.block_count", 1)
        .kv_u32("qwen2_moe.expert_count", 8)
        .kv_u32("qwen2_moe.expert_used_count", 2)
        .tensor("blk.0.attn_q.weight", &[64, 64], 8) // 4096 el
        .tensor("blk.0.ffn_down_exps.weight", &[8, 64, 256], 12) // 131072 el routed
        .parse_ok();
    let summary = GgufModelSummary::from_header(&header);

    assert!(summary.has_routed_experts);
    assert_eq!(summary.total_parameters, 4096 + 131072);
    // Inactive share: 131072 * (8-2)/8 = 98304.
    assert_eq!(
        summary.active_parameters,
        Some(4096 + 131072 - 131072 * 6 / 8)
    );
    assert_eq!(summary.components.routed_experts, (131072 / 256) * 144);
    assert_eq!(summary.components.attention, (4096 / 32) * 34);
}

#[test]
fn test_layer_runs_merge_consecutive_blocks() {
    let mut f = Fixture::new(3)
        .kv_str("general.architecture", "llama")
        .kv_u32("llama.block_count", 6);
    for i in 0..4 {
        f = f
            .tensor(&format!("blk.{i}.attn_q.weight"), &[256, 256], 8)
            .tensor(&format!("blk.{i}.ffn_down.weight"), &[256, 1024], 12);
    }
    for i in 4..6 {
        f = f
            .tensor(&format!("blk.{i}.attn_q.weight"), &[256, 256], 1)
            .tensor(&format!("blk.{i}.ffn_gate_inp.weight"), &[256, 8], 1);
    }
    let header = f.parse_ok();
    let summary = GgufModelSummary::from_header(&header);

    assert_eq!(summary.layer_quants.len(), 2);
    let first = &summary.layer_quants[0];
    assert_eq!((first.first_block, first.last_block), (0, 3));
    assert_eq!(first.attention, "Q8_0");
    assert_eq!(first.ffn, "Q4_K");
    let second = &summary.layer_quants[1];
    assert_eq!((second.first_block, second.last_block), (4, 5));
    assert_eq!(second.attention, "F16");
}

#[test]
fn test_array_payloads_skipped_but_shaped() {
    let header = Fixture::new(3)
        .kv_str("general.architecture", "llama")
        .kv_arr_str("tokenizer.ggml.tokens", 150_000)
        .kv_arr_str("tokenizer.ggml.merges", 250)
        .kv_arr_u32("tokenizer.ggml.token_type", &[1, 2, 3])
        .tensor("token_embd.weight", &[8, 8], 0)
        .parse_ok();

    match header.get("tokenizer.ggml.tokens") {
        Some(GgufValue::Array { elem_type, len }) => {
            assert_eq!(*elem_type, GgufValueType::Str);
            assert_eq!(*len, 150_000);
        }
        other => panic!("expected string array shape, got {other:?}"),
    }
    match header.get("tokenizer.ggml.token_type") {
        Some(GgufValue::Array { elem_type, len }) => {
            assert_eq!(*elem_type, GgufValueType::U32);
            assert_eq!(*len, 3);
        }
        other => panic!("expected u32 array shape, got {other:?}"),
    }
}

#[test]
fn test_unknown_tensor_type_reported_not_guessed() {
    let header = Fixture::new(3)
        .kv_str("general.architecture", "futurearch")
        .kv_u32("futurearch.block_count", 1)
        .tensor("blk.0.attn_q.weight", &[256, 256], 200)
        .tensor("token_embd.weight", &[128, 128], 12)
        .parse_ok();
    let summary = GgufModelSummary::from_header(&header);

    assert_eq!(summary.unknown_type_tensors.len(), 1);
    assert_eq!(summary.unknown_type_tensors[0].name, "blk.0.attn_q.weight");
    assert_eq!(summary.unknown_type_tensors[0].type_id, 200);
    // Only the known tensor counts toward weights.
    assert_eq!(summary.weights_bytes, (128 * 128 / 256) * 144);
}

#[test]
fn test_sliding_window_and_yarn_read() {
    let header = Fixture::new(3)
        .kv_str("general.architecture", "gemma3")
        .kv_u32("gemma3.attention.sliding_window", 1024)
        .kv_str("gemma3.rope.scaling.type", "yarn")
        .kv_f32("gemma3.rope.scaling.factor", 8.0)
        .kv_u32("gemma3.rope.scaling.original_context_length", 8192)
        .tensor("token_embd.weight", &[8, 8], 0)
        .parse_ok();
    let summary = GgufModelSummary::from_header(&header);

    assert_eq!(summary.sliding_window, Some(1024));
    assert_eq!(summary.rope_scaling_type.as_deref(), Some("yarn"));
    assert_eq!(summary.rope_scaling_factor, Some(FloatBits::F32(8.0f32.to_bits())));
    assert_eq!(summary.rope_original_context_length, Some(8192));
}

#[test]
fn test_v1_header_with_32bit_counts() {
    let header = dense_fixture(1).parse_ok();
    assert_eq!(header.version, 1);
    assert_eq!(header.tensors.len(), 6);
    assert_eq!(header.get_u64("llama.block_count"), Some(2));
}

#[test]
fn test_rejects_bad_magic_version_and_truncation() {
    // Bad magic.
    let mut bad = vec![0xABu8; 64];
    bad[0..4].copy_from_slice("NOPE".as_bytes());
    assert!(GgufHeader::read_from(&bad).is_err());

    // Unsupported version.
    let bad = Fixture::new(99).kv_str("a", "b").bytes();
    assert!(GgufHeader::read_from(&bad).is_err());

    // Truncated mid-metadata: claim 10 tensors, provide none.
    let mut truncated = Fixture::new(3).bytes();
    truncated[8..16].copy_from_slice(&10u64.to_le_bytes());
    assert!(GgufHeader::read_from(&truncated).is_err());

    // Empty input.
    assert!(GgufHeader::read_from(&[]).is_err());
}

#[test]
fn test_oversized_string_is_rejected() {
    // One KV (key, then value type, then payload) declaring u64::MAX bytes.
    let mut out = GGUF_MAGIC.to_le_bytes().to_vec();
    out.extend_from_slice(&3u32.to_le_bytes()); // version
    out.extend_from_slice(&0u64.to_le_bytes()); // tensor count
    out.extend_from_slice(&1u64.to_le_bytes()); // kv count
    out.extend_from_slice(&12u64.to_le_bytes()); // key "general.name"
    out.extend_from_slice(b"general.name");
    out.extend_from_slice(&8u32.to_le_bytes()); // STRING
    out.extend_from_slice(&u64::MAX.to_le_bytes());
    assert!(GgufHeader::read_from(&out).is_err());
}

#[test]
fn test_nbytes_rounds_partial_blocks_up() {
    assert_eq!(GgmlType::Q4K.nbytes_for(300), Some(288)); // ceil(300/256)=2 blocks
    assert_eq!(GgmlType::Q4K.nbytes_for(256), Some(144));
    assert_eq!(GgmlType::F16.nbytes_for(10), Some(20));
    assert_eq!(GgmlType::F32.nbytes_for(3), Some(12));
    assert_eq!(GgmlType::Unknown(200).nbytes_for(300), None);
    assert_eq!(GgmlType::from_id(12), GgmlType::Q4K);
    assert_eq!(GgmlType::Q4K.id(), 12);
    assert_eq!(GgmlType::Unknown(42).id(), 42);
}

#[test]
fn test_signed_metadata_values_are_accepted() {
    // Some writers emit head counts as INT32.
    let header = Fixture::new(3)
        .kv_str("general.architecture", "x")
        .kv_i32("x.attention.head_count", 32)
        .tensor("t.weight", &[8, 8], 0)
        .parse_ok();
    assert_eq!(header.get_u64("x.attention.head_count"), Some(32));
    assert_eq!(header.get_i64("x.attention.head_count"), Some(32));
}

// ── Beyond the original suite ────────────────────────────────────────

#[test]
fn parse_errors_carry_exact_messages() {
    let mut bad = vec![0xABu8; 64];
    bad[0..4].copy_from_slice("NOPE".as_bytes());
    assert_eq!(
        GgufHeader::read_from(&bad).unwrap_err(),
        "not a GGUF file (bad magic 0x45504f4e, expected 0x46554747)"
    );
    let bad = Fixture::new(99).kv_str("a", "b").bytes();
    assert_eq!(GgufHeader::read_from(&bad).unwrap_err(), "unsupported GGUF version 99");
    assert_eq!(
        GgufHeader::read_from(&[]).unwrap_err(),
        "truncated GGUF header: failed to fill whole buffer"
    );
    let bad = Fixture::new(3).kv_raw("k", 13, &[]).bytes();
    assert_eq!(
        GgufHeader::read_from(&bad).unwrap_err(),
        "unknown metadata value type 13"
    );
    let mut payload = 9u32.to_le_bytes().to_vec();
    payload.extend_from_slice(&0u64.to_le_bytes());
    let bad = Fixture::new(3).kv_raw("k", 9, &payload).bytes();
    assert_eq!(
        GgufHeader::read_from(&bad).unwrap_err(),
        "arrays of arrays in GGUF metadata are invalid"
    );
    let mut payload = 10u32.to_le_bytes().to_vec();
    payload.extend_from_slice(&u64::MAX.to_le_bytes());
    let bad = Fixture::new(3).kv_raw("k", 9, &payload).bytes();
    assert_eq!(
        GgufHeader::read_from(&bad).unwrap_err(),
        "array size 8x18446744073709551615 overflows"
    );
    let mut payload = (64u64 * 1024 * 1024 + 1).to_le_bytes().to_vec();
    payload.extend_from_slice(b"x");
    let bad = Fixture::new(3).kv_raw("k", 8, &payload).bytes();
    assert_eq!(
        GgufHeader::read_from(&bad).unwrap_err(),
        "string of 67108865 bytes exceeds safety cap"
    );
    let bad = Fixture::new(3).tensor("t", &[], 0).bytes();
    assert_eq!(
        GgufHeader::read_from(&bad).unwrap_err(),
        "tensor 't' has implausible dimension count 0"
    );
}

#[test]
fn parse_reports_structured_errors_and_header_length() {
    let bytes = dense_fixture(3).bytes();
    let (header, len) = GgufHeader::parse(&bytes).unwrap();
    assert_eq!(len, bytes.len());
    assert_eq!(header.kv_count, 8);
    // Trailing tensor data does not change the parse.
    let mut longer = bytes.clone();
    longer.extend_from_slice(&[1, 2, 3, 4]);
    let (again, len2) = GgufHeader::parse(&longer).unwrap();
    assert_eq!(len2, len);
    assert_eq!(again.tensors, header.tensors);
    // Every strict prefix is a truncation.
    for cut in [0, 3, 4, 23, 24, bytes.len() / 2, bytes.len() - 1] {
        assert!(matches!(
            GgufHeader::parse(&bytes[..cut]).unwrap_err(),
            GgufError::Truncated { .. }
        ));
    }
}

#[test]
fn later_duplicate_keys_replace_earlier_ones() {
    let header = Fixture::new(3)
        .kv_u32("a.x", 1)
        .kv_u32("a.x", 2)
        .parse_ok();
    assert_eq!(header.get_u64("a.x"), Some(2));
    assert_eq!(header.metadata.len(), 1);
    assert_eq!(header.kv_count, 2);
}

#[test]
fn value_accessors_follow_their_types() {
    assert_eq!(GgufValue::I32(-1).as_u64(), None);
    assert_eq!(GgufValue::I32(-1).as_i64(), Some(-1));
    assert_eq!(GgufValue::U64(u64::MAX).as_i64(), None);
    assert_eq!(GgufValue::Bool(true).as_u64(), Some(1));
    assert_eq!(GgufValue::Bool(true).as_i64(), None);
    assert_eq!(GgufValue::U8(200).as_i64(), Some(200));
    assert_eq!(GgufValue::Str("s".to_string()).as_str(), Some("s"));
    assert_eq!(GgufValue::U8(7).as_str(), None);
    assert_eq!(GgufValue::F32(1.5f32.to_bits()).float_bits(), Some(FloatBits::F32(1.5f32.to_bits())));
    assert_eq!(GgufValueType::from_id(8), Some(GgufValueType::Str));
    assert_eq!(GgufValueType::from_id(13), None);
    assert_eq!(GgufValueType::U16.fixed_width(), Some(2));
    assert_eq!(GgufValueType::Str.fixed_width(), None);
}

#[test]
fn ggml_ids_round_trip_and_labels() {
    for id in 0..64u32 {
        let t = GgmlType::from_id(id);
        assert_eq!(GgmlType::from_id(t.id()), t);
    }
    assert_eq!(GgmlType::Q4K.label(), "Q4_K");
    assert_eq!(GgmlType::IQ2Xs.label(), "IQ2_XS");
    assert_eq!(GgmlType::Unknown(77).label(), "UNKNOWN(77)");
    assert_eq!(GgmlType::Q8_0.layout(), Some((32, 34)));
}

#[test]
fn component_bytes_partition_the_weights() {
    let header = Fixture::new(3)
        .kv_str("general.architecture", "qwen2_moe")
        .tensor("token_embd.weight", &[64, 64], 8)
        .tensor("blk.0.attn_k.weight", &[64, 64], 8)
        .tensor("blk.0.ffn_up.weight", &[64, 64], 8)
        .tensor("blk.0.ffn_up_exps.weight", &[64, 64], 8)
        .tensor("output_norm.weight", &[64], 0)
        .tensor("rope_freqs.weight", &[32], 0)
        .parse_ok();
    let s = GgufModelSummary::from_header(&header);
    let c = s.components;
    assert_eq!(
        c.embeddings + c.output_head + c.attention + c.dense_ffn + c.routed_experts + c.other,
        s.weights_bytes
    );
    // "output_norm" is not the output head: only "output." names are.
    assert_eq!(c.output_head, 0);
    assert_eq!(c.other, 256 + 128);
    assert_eq!(c.routed_experts, (4096 / 32) * 34);
    assert!(s.active_parameters.is_none());
}

#[test]
fn truncation_inside_a_skipped_payload_says_where_reading_resumes() {
    let bytes = Fixture::new(3)
        .kv_arr_u32("tokenizer.ggml.token_type", &[7; 100])
        .kv_u32("after", 5)
        .bytes();
    // Magic, version, counts (24 bytes), key (8 + 25), type, elem type, len.
    let payload_start = 24 + 8 + 25 + 4 + 4 + 8;
    let payload_end = payload_start + 400;
    for cut in [payload_start, payload_start + 1, payload_end - 1] {
        assert_eq!(
            GgufHeader::parse(&bytes[..cut]).unwrap_err(),
            GgufError::Truncated { skip_to: Some(payload_end as u64) }
        );
    }
    assert_eq!(
        GgufHeader::parse(&bytes[..payload_end]).unwrap_err(),
        GgufError::Truncated { skip_to: None }
    );
    // The skipped bytes are never looked at: any filler parses the same.
    let mut filled = bytes.clone();
    for b in &mut filled[payload_start..payload_end] {
        *b = 0;
    }
    let a = GgufHeader::parse(&bytes).unwrap().0;
    let b = GgufHeader::parse(&filled).unwrap().0;
    assert_eq!(a.get_u64("after"), Some(5));
    assert_eq!(b.get_u64("after"), Some(5));
    assert_eq!(a.metadata, b.metadata);
}

#[test]
fn metadata_is_kept_in_key_order() {
    let header = Fixture::new(3)
        .kv_u32("zeta", 1)
        .kv_u32("alpha", 2)
        .kv_u32("mid", 3)
        .kv_u32("alpha", 4)
        .parse_ok();
    let keys: Vec<&str> = header.metadata.entries().iter().map(|(k, _)| k.as_str()).collect();
    assert_eq!(keys, vec!["alpha", "mid", "zeta"]);
    assert_eq!(header.get_u64("alpha"), Some(4));
    assert_eq!(header.get_u64("zeta"), Some(1));
}

#[test]
fn invalid_utf8_in_strings_is_replaced_not_rejected() {
    let mut key = 2u64.to_le_bytes().to_vec();
    key.extend_from_slice(&[0xff, b'a']);
    let mut bytes = GGUF_MAGIC.to_le_bytes().to_vec();
    bytes.extend_from_slice(&3u32.to_le_bytes());
    bytes.extend_from_slice(&0u64.to_le_bytes());
    bytes.extend_from_slice(&1u64.to_le_bytes());
    bytes.extend_from_slice(&key);
    bytes.extend_from_slice(&4u32.to_le_bytes());
    bytes.extend_from_slice(&9u32.to_le_bytes());
    let header = GgufHeader::read_from(&bytes).unwrap();
    assert_eq!(header.get_u64("\u{FFFD}a"), Some(9));
}

/// What a stream over `file` went through while a scan read its header.
struct ScanRun {
    result: Result<GgufHeader, String>,
    bytes_read: usize,
    skips: Vec<u64>,
}

/// Drives a scan over `file` as a stream would: reading as asked, and
/// jumping where asked without reading the bytes in between.
fn run_scan(file: &[u8], len_hint: Option<u64>) -> ScanRun {
    let mut scan = HeaderScan::new();
    let mut pos = 0usize;
    let mut ended = false;
    let mut bytes_read = 0usize;
    let mut skips = Vec::new();
    loop {
        match scan.step(ended, len_hint) {
            ScanStep::Done(h) => return ScanRun { result: Ok(h), bytes_read, skips },
            ScanStep::Failed(m) => return ScanRun { result: Err(m), bytes_read, skips },
            ScanStep::Read { upto } => {
                let want = upto - scan.len();
                let end = (pos + want).min(file.len());
                scan.push(&file[pos..end]);
                bytes_read += end - pos;
                if end - pos < want {
                    ended = true;
                }
                pos = end;
            }
            ScanStep::SkipTo { offset } => {
                skips.push(offset);
                pos = (offset as usize).min(file.len());
                if pos < offset as usize {
                    ended = true;
                }
            }
        }
    }
}

#[test]
fn scan_first_asks_for_the_first_prefix() {
    let mut scan = HeaderScan::new();
    assert_eq!(scan.len(), 0);
    assert!(matches!(scan.step(false, None), ScanStep::Read { upto } if upto == FIRST_PREFIX_BYTES));
    assert_eq!(FIRST_PREFIX_BYTES, 65536);
}

#[test]
fn scan_of_a_whole_file_gives_the_parsed_header() {
    let bytes = dense_fixture(3).bytes();
    let run = run_scan(&bytes, Some(bytes.len() as u64));
    let scanned = run.result.unwrap();
    let parsed = GgufHeader::read_from(&bytes).unwrap();
    assert_eq!(scanned.metadata, parsed.metadata);
    assert_eq!(scanned.tensors, parsed.tensors);
    assert_eq!(scanned.kv_count, parsed.kv_count);
    assert_eq!(run.bytes_read, bytes.len());
    assert!(run.skips.is_empty());
}

#[test]
fn scan_jumps_over_a_numeric_array_payload() {
    let vals = vec![7u32; 50_000];
    let bytes = Fixture::new(3)
        .kv_u32("before", 1)
        .kv_arr_u32("big", &vals)
        .kv_u32("after", 5)
        .bytes();
    let payload_len = 4 * vals.len();
    let run = run_scan(&bytes, Some(bytes.len() as u64));
    let header = run.result.unwrap();
    assert_eq!(header.get_u64("before"), Some(1));
    assert_eq!(header.get_u64("after"), Some(5));
    assert_eq!(run.skips.len(), 1);
    // The jump lands just past the payload, whose bytes are never read.
    let payload_end = run.skips[0] as usize;
    assert!(payload_end > FIRST_PREFIX_BYTES);
    assert_eq!(bytes[payload_end..payload_end + 8], 5u64.to_le_bytes());
    assert!(run.bytes_read <= bytes.len() - (payload_len - FIRST_PREFIX_BYTES));
}

#[test]
fn scan_fails_when_a_payload_ends_past_the_stream() {
    let vals = vec![7u32; 50_000];
    let bytes = Fixture::new(3)
        .kv_arr_u32("big", &vals)
        .kv_u32("after", 5)
        .bytes();
    let run = run_scan(&bytes, Some(1000));
    assert_eq!(
        run.result.unwrap_err(),
        "truncated GGUF header: failed to fill whole buffer"
    );
    assert!(run.skips.is_empty());
}

#[test]
fn scan_of_a_cut_stream_fails_as_truncated() {
    let bytes = dense_fixture(3).bytes();
    let cut = &bytes[..bytes.len() - 3];
    let run = run_scan(cut, None);
    assert_eq!(
        run.result.unwrap_err(),
        "truncated GGUF header: failed to fill whole buffer"
    );
}

#[test]
fn scan_reports_a_bad_magic() {
    let mut bytes = dense_fixture(3).bytes();
    bytes[0] = b'X';
    let run = run_scan(&bytes, None);
    assert!(run.result.unwrap_err().starts_with("not a GGUF file (bad magic 0x"));
}

#[test]
fn scan_widens_the_read_once_the_prefix_is_used_up() {
    let mut scan = HeaderScan::new();
    let bytes = dense_fixture(3).bytes();
    // Hand over the first bytes only, as if the stream had given no more yet.
    scan.push(&bytes[..10]);
    assert!(matches!(scan.step(false, None), ScanStep::Read { upto } if upto == FIRST_PREFIX_BYTES));
    // A header claiming more metadata pairs than the prefix holds: zero
    // bytes read as empty keys with one-byte values until the prefix ends.
    let mut claims = Fixture::new(3).bytes();
    claims[16..24].copy_from_slice(&1_000_000u64.to_le_bytes());
    let mut wide = HeaderScan::new();
    wide.push(&claims);
    wide.push(&vec![0u8; FIRST_PREFIX_BYTES - claims.len()]);
    assert!(matches!(wide.step(false, None), ScanStep::Read { upto } if upto == 2 * FIRST_PREFIX_BYTES));
}
