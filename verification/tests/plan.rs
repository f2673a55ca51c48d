use llmfit_core::plan::{
    default_gpu_backend, llamacpp_server_command, normalize_quant, resolve_model_selector,
    speed_run_mode, supported_quants, GpuBackend, KvQuant, LlmModel, PlanRunPath, RunMode,
    SystemSpecs,
};

fn test_model() -> LlmModel {
    LlmModel {
        name: "Qwen-Test-7B".to_string(),
        provider: "Qwen".to_string(),
        quantization: "Q4_K_M".to_string(),
        context_length: 32768,
        is_moe: false,
    }
}

fn test_moe_model() -> LlmModel {
    LlmModel {
        name: "Mixtral-Test-8x7B".to_string(),
        provider: "Mistral".to_string(),
        quantization: "Q4_K_M".to_string(),
        context_length: 32768,
        is_moe: true,
    }
}

fn test_specs() -> SystemSpecs {
    SystemSpecs {
        total_cpu_cores: 8,
        has_gpu: true,
        unified_memory: false,
        backend: GpuBackend::Cuda,
    }
}

#[test]
fn test_normalize_quant() {
    assert_eq!(normalize_quant("q4_k_m"), Some("Q4_K_M".to_string()));
    assert_eq!(normalize_quant("mlx-4bit"), Some("mlx-4bit".to_string()));
    assert_eq!(normalize_quant("bad"), None);
}

#[test]
fn test_normalize_quant_all_supported() {
    for q in supported_quants() {
        if q.starts_with("mlx-")
            || q.starts_with("AWQ-")
            || q.starts_with("GPTQ-")
            || q.starts_with("AutoRound-")
        {
            continue; // handled by case-insensitive paths
        }
        assert_eq!(
            normalize_quant(&q.to_lowercase()),
            Some(q.to_string()),
            "lowercase '{}' should normalize",
            q
        );
    }
}

#[test]
fn test_normalize_quant_whitespace_handling() {
    assert_eq!(normalize_quant("  q4_k_m  "), Some("Q4_K_M".to_string()));
    assert_eq!(normalize_quant(""), None);
    assert_eq!(normalize_quant("   "), None);
}

#[test]
fn test_normalize_awq_gptq_quants() {
    assert_eq!(normalize_quant("awq-4bit"), Some("AWQ-4bit".to_string()));
    assert_eq!(normalize_quant("AWQ-4BIT"), Some("AWQ-4bit".to_string()));
    assert_eq!(normalize_quant("awq-8bit"), Some("AWQ-8bit".to_string()));
    assert_eq!(normalize_quant("gptq-int4"), Some("GPTQ-Int4".to_string()));
    assert_eq!(normalize_quant("GPTQ-INT8"), Some("GPTQ-Int8".to_string()));
}

#[test]
fn normalize_quant_keeps_canonical_names_and_is_idempotent() {
    for q in supported_quants() {
        assert_eq!(normalize_quant(q), Some(q.to_string()));
        let once = normalize_quant(&format!(" {} ", q.to_lowercase())).unwrap();
        assert_eq!(normalize_quant(&once), Some(once.clone()));
    }
    assert_eq!(normalize_quant("autoround-4BIT"), Some("AutoRound-4bit".to_string()));
    assert_eq!(normalize_quant("\tbf16\n"), Some("BF16".to_string()));
    assert_eq!(normalize_quant("Q4_K_M_extra"), None);
}

#[test]
fn test_plan_run_path_labels() {
    assert_eq!(PlanRunPath::Gpu.label(), "GPU");
    assert_eq!(PlanRunPath::CpuOffload.label(), "CPU offload");
    assert_eq!(PlanRunPath::CpuOnly.label(), "CPU-only");
}

#[test]
fn test_plan_run_path_to_run_mode() {
    assert_eq!(PlanRunPath::Gpu.run_mode(), RunMode::Gpu);
    assert_eq!(PlanRunPath::CpuOffload.run_mode(), RunMode::CpuOffload);
    assert_eq!(PlanRunPath::CpuOnly.run_mode(), RunMode::CpuOnly);
}

#[test]
fn test_speed_run_mode_maps_moe_offload() {
    assert_eq!(
        speed_run_mode(PlanRunPath::CpuOffload, &test_moe_model()),
        RunMode::MoeOffload
    );
    assert_eq!(
        speed_run_mode(PlanRunPath::CpuOffload, &test_model()),
        RunMode::CpuOffload
    );
    assert_eq!(
        speed_run_mode(PlanRunPath::Gpu, &test_moe_model()),
        RunMode::Gpu
    );
}

#[test]
fn speed_run_mode_cpu_only_stays_cpu_only() {
    assert_eq!(
        speed_run_mode(PlanRunPath::CpuOnly, &test_moe_model()),
        RunMode::CpuOnly
    );
}

#[test]
fn test_default_gpu_backend_uses_system_when_gpu() {
    let specs = test_specs();
    assert_eq!(default_gpu_backend(&specs), GpuBackend::Cuda);
}

#[test]
fn test_default_gpu_backend_falls_back_to_cuda() {
    let mut specs = test_specs();
    specs.has_gpu = false;
    assert_eq!(default_gpu_backend(&specs), GpuBackend::Cuda);
}

#[test]
fn default_gpu_backend_keeps_a_non_cuda_gpu() {
    let mut specs = test_specs();
    specs.backend = GpuBackend::Metal;
    assert_eq!(default_gpu_backend(&specs), GpuBackend::Metal);
    specs.has_gpu = false;
    assert_eq!(default_gpu_backend(&specs), GpuBackend::Cuda);
}

#[test]
fn test_resolve_model_selector() {
    let models = vec![test_model()];
    let found = resolve_model_selector(&models, "qwen-test-7b").expect("exact match");
    assert_eq!(found.name, "Qwen-Test-7B");
}

#[test]
fn test_resolve_model_selector_empty_errors() {
    let models = vec![test_model()];
    let result = resolve_model_selector(&models, "");
    assert!(result.is_err());
    assert!(result.unwrap_err().contains("cannot be empty"));
}

#[test]
fn test_resolve_model_selector_not_found() {
    let models = vec![test_model()];
    let result = resolve_model_selector(&models, "nonexistent-model");
    assert!(result.is_err());
    assert!(result.unwrap_err().contains("No model found"));
}

#[test]
fn test_resolve_model_selector_ambiguous() {
    let mut m1 = test_model();
    m1.name = "Qwen-Test-7B".to_string();
    let mut m2 = test_model();
    m2.name = "Qwen-Test-14B".to_string();
    let models = vec![m1, m2];
    let result = resolve_model_selector(&models, "qwen-test");
    assert!(result.is_err());
    assert!(result.unwrap_err().contains("ambiguous"));
}

#[test]
fn test_resolve_model_selector_partial_match() {
    let models = vec![test_model()];
    let found = resolve_model_selector(&models, "test-7b").expect("partial match");
    assert_eq!(found.name, "Qwen-Test-7B");
}

#[test]
fn resolve_model_selector_messages_are_exact() {
    let mut m1 = test_model();
    m1.name = "Qwen-Test-7B".to_string();
    let mut m2 = test_model();
    m2.name = "Qwen-Test-14B".to_string();
    let models = vec![m1, m2];
    assert_eq!(
        resolve_model_selector(&models, "  ").unwrap_err(),
        "Model selector cannot be empty"
    );
    assert_eq!(
        resolve_model_selector(&models, "llama").unwrap_err(),
        "No model found matching 'llama'."
    );
    assert_eq!(
        resolve_model_selector(&models, "QWEN-TEST").unwrap_err(),
        "Model selector 'QWEN-TEST' is ambiguous. Matches: Qwen-Test-7B, Qwen-Test-14B"
    );
}

#[test]
fn resolve_model_selector_prefers_unique_exact_match_over_partials() {
    let mut m1 = test_model();
    m1.name = "Qwen-Test".to_string();
    let mut m2 = test_model();
    m2.name = "Qwen-Test-14B".to_string();
    let models = vec![m1, m2];
    let found = resolve_model_selector(&models, " qwen-test ").unwrap();
    assert_eq!(found.name, "Qwen-Test");
}

#[test]
fn resolve_model_selector_lists_at_most_ten_matches() {
    let models: Vec<LlmModel> = (0..12)
        .map(|i| {
            let mut m = test_model();
            m.name = format!("m-{i}");
            m
        })
        .collect();
    let err = resolve_model_selector(&models, "m-").unwrap_err();
    assert!(err.ends_with("m-0, m-1, m-2, m-3, m-4, m-5, m-6, m-7, m-8, m-9"), "{err}");
}

#[test]
fn server_command_for_each_run_mode() {
    let cmd = |mode, moe, kv, n| {
        llamacpp_server_command(" -hf org/model:Q4_K_M ", 16384, mode, moe, kv, n, None, None)
    };
    assert_eq!(
        cmd(RunMode::Gpu, false, KvQuant::Fp16, None).unwrap(),
        "llama-server -hf org/model:Q4_K_M -c 16384 -fa -ngl 99"
    );
    assert_eq!(
        cmd(RunMode::CpuOnly, false, KvQuant::Q8_0, None).unwrap(),
        "llama-server -hf org/model:Q4_K_M -c 16384 -fa -ngl 0 -ctv q8_0"
    );
    assert_eq!(
        cmd(RunMode::CpuOffload, false, KvQuant::Fp16, Some(3)).unwrap(),
        "llama-server -hf org/model:Q4_K_M -c 16384 -fa -ngl auto"
    );
    assert_eq!(
        cmd(RunMode::CpuOffload, true, KvQuant::Q4_0, Some(7)).unwrap(),
        "llama-server -hf org/model:Q4_K_M -c 16384 -fa -ngl 99 --n-cpu-moe 7 -ctv q4_0"
    );
    assert_eq!(
        cmd(RunMode::MoeOffload, true, KvQuant::Fp16, Some(0)).unwrap(),
        "llama-server -hf org/model:Q4_K_M -c 16384 -fa -ngl 99"
    );
    assert_eq!(
        cmd(RunMode::TensorParallel, true, KvQuant::TurboQuant, None).unwrap(),
        "llama-server -hf org/model:Q4_K_M -c 16384 -fa -ngl 99"
    );
}

#[test]
fn server_command_for_serving_uses_vllm() {
    assert_eq!(
        llamacpp_server_command("org/m", 8192, RunMode::Serving, false, KvQuant::Fp16, None, None, None)
            .unwrap(),
        "vllm serve org/m --max-num-seqs 256 --max-model-len 8192"
    );
    assert_eq!(
        llamacpp_server_command(
            "org/m",
            8192,
            RunMode::Serving,
            false,
            KvQuant::Fp8,
            None,
            Some(32),
            Some(4)
        )
        .unwrap(),
        "vllm serve org/m --max-num-seqs 32 --max-model-len 8192 --tensor-parallel-size 4"
    );
}

#[test]
fn server_command_reflects_run_mode_and_context() {
    // Dense model that fits fully on a large GPU runs on the GPU path.
    let cmd = llamacpp_server_command(
        "-hf org/model:Q4_K_M",
        16384,
        RunMode::Gpu,
        false,
        KvQuant::Fp16,
        None,
        None,
        None,
    )
    .unwrap();
    assert!(
        cmd.starts_with("llama-server -hf org/model:Q4_K_M -c 16384 -fa"),
        "{cmd}"
    );
    assert!(cmd.contains("-ngl 99"), "{cmd}");
    assert!(!cmd.contains("--n-cpu-moe"), "dense GPU run needs no expert split: {cmd}");

    // MoE model squeezed into small VRAM: MoE offload with a split.
    let cmd = llamacpp_server_command(
        "-m ./model.gguf",
        16384,
        RunMode::MoeOffload,
        true,
        KvQuant::Fp16,
        Some(5),
        None,
        None,
    )
    .unwrap();
    assert!(cmd.contains("-ngl 99 --n-cpu-moe "), "{cmd}");
}

#[test]
fn server_command_skipped_without_model_ref_and_flags_kv_quant() {
    assert_eq!(
        llamacpp_server_command("   ", 4096, RunMode::Gpu, false, KvQuant::Q8_0, None, None, None),
        None
    );
    let cmd =
        llamacpp_server_command("-m m.gguf", 4096, RunMode::Gpu, false, KvQuant::Q8_0, None, None, None)
            .unwrap();
    assert!(cmd.contains("-ctv q8_0"), "{cmd}");
}
