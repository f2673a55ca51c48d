//! Planning rules: run paths, quantization names and model selection.
use vstd::prelude::*;

use crate::text::{
    all_ascii, ascii_lower, ascii_upper, chars_of, contains, decimal, eq_ignore_ascii_case,
    has_substring, occurs_at, push_decimal, same_chars, same_ignoring_ascii_case, starts_with,
    string_of, to_lowercase, to_uppercase, trim, trim_chars, unicode_lower, unicode_upper,
};

verus! {

/// How a model is executed.
#[derive(Debug, Clone, Copy, PartialEq, Eq, Structural)]
pub enum RunMode {
    Gpu,
    MoeOffload,
    CpuOffload,
    CpuOnly,
    TensorParallel,
    Serving,
}

/// Compute backend of the machine.
#[derive(Debug, Clone, Copy, PartialEq, Eq, Structural)]
pub enum GpuBackend {
    Cuda,
    Metal,
    Rocm,
    Vulkan,
    Sycl,
    CpuArm,
    CpuX86,
    Ascend,
}

/// What the planning rules read of the machine.
#[derive(Debug, Clone)]
pub struct SystemSpecs {
    pub total_cpu_cores: usize,
    pub has_gpu: bool,
    pub unified_memory: bool,
    pub backend: GpuBackend,
}

/// What the planning rules read of a catalog model.
#[derive(Debug, Clone)]
pub struct LlmModel {
    pub name: String,
    pub provider: String,
    pub quantization: String,
    pub context_length: u32,
    pub is_moe: bool,
}

/// The three execution paths a plan weighs.
#[derive(Debug, Clone, Copy, PartialEq, Eq, Structural)]
pub enum PlanRunPath {
    Gpu,
    CpuOffload,
    CpuOnly,
}

impl PlanRunPath {
    pub fn label(&self) -> (s: &'static str)
        ensures
            s@ == (match *self {
                PlanRunPath::Gpu => "GPU"@,
                PlanRunPath::CpuOffload => "CPU offload"@,
                PlanRunPath::CpuOnly => "CPU-only"@,
            }),
    {
        match self {
            PlanRunPath::Gpu => "GPU",
            PlanRunPath::CpuOffload => "CPU offload",
            PlanRunPath::CpuOnly => "CPU-only",
        }
    }

    /// The run mode a path stands for.
    pub fn run_mode(self) -> (m: RunMode)
        ensures
            m == (match self {
                PlanRunPath::Gpu => RunMode::Gpu,
                PlanRunPath::CpuOffload => RunMode::CpuOffload,
                PlanRunPath::CpuOnly => RunMode::CpuOnly,
            }),
    {
        match self {
            PlanRunPath::Gpu => RunMode::Gpu,
            PlanRunPath::CpuOffload => RunMode::CpuOffload,
            PlanRunPath::CpuOnly => RunMode::CpuOnly,
        }
    }
}

/// Run mode to estimate speed under: a MoE model on the CPU-offload path
/// keeps its inactive experts in system RAM, which is `MoeOffload`.
pub fn speed_run_mode(path: PlanRunPath, model: &LlmModel) -> (m: RunMode)
    ensures
        m == (if path == PlanRunPath::CpuOffload && model.is_moe {
            RunMode::MoeOffload
        } else {
            match path {
                PlanRunPath::Gpu => RunMode::Gpu,
                PlanRunPath::CpuOffload => RunMode::CpuOffload,
                PlanRunPath::CpuOnly => RunMode::CpuOnly,
            }
        }),
{
    match path {
        PlanRunPath::CpuOffload if model.is_moe => RunMode::MoeOffload,
        other => other.run_mode(),
    }
}

/// The machine's backend when it has a GPU, CUDA otherwise.
pub fn default_gpu_backend(system: &SystemSpecs) -> (b: GpuBackend)
    ensures
        b == (if system.has_gpu {
            system.backend
        } else {
            GpuBackend::Cuda
        }),
{
    if system.has_gpu {
        system.backend
    } else {
        GpuBackend::Cuda
    }
}

/// Quantization names a plan accepts.
pub open spec fn supported_quant_names() -> Seq<Seq<char>> {
    seq![
        "F32"@,
        "F16"@,
        "BF16"@,
        "Q8_0"@,
        "Q6_K"@,
        "Q5_K_M"@,
        "Q4_K_M"@,
        "Q4_0"@,
        "Q3_K_M"@,
        "Q2_K"@,
        "mlx-8bit"@,
        "mlx-4bit"@,
        "AWQ-4bit"@,
        "AWQ-8bit"@,
        "GPTQ-Int4"@,
        "GPTQ-Int8"@,
        "AutoRound-4bit"@,
        "AutoRound-8bit"@,
    ]
}

/// Quantization names a plan accepts, in canonical spelling.
pub fn supported_quants() -> (v: Vec<&'static str>)
    ensures
        v@.map_values(|s: &str| s@) == supported_quant_names(),
{
    let v = vec![
        "F32",
        "F16",
        "BF16",
        "Q8_0",
        "Q6_K",
        "Q5_K_M",
        "Q4_K_M",
        "Q4_0",
        "Q3_K_M",
        "Q2_K",
        "mlx-8bit",
        "mlx-4bit",
        "AWQ-4bit",
        "AWQ-8bit",
        "GPTQ-Int4",
        "GPTQ-Int8",
        "AutoRound-4bit",
        "AutoRound-8bit",
    ];
    assert(v@.map_values(|s: &str| s@) =~= supported_quant_names());
    v
}

/// The canonical name when `upper` is one of the supported names.
pub open spec fn supported_name(upper: Seq<char>) -> Option<Seq<char>> {
    if supported_quant_names().contains(upper) {
        Some(upper)
    } else {
        None
    }
}

/// Spellings matched case-insensitively, each with its canonical form.
pub open spec fn case_insensitive_names() -> Seq<Seq<char>> {
    seq![
        "mlx-4bit"@,
        "mlx-8bit"@,
        "AWQ-4bit"@,
        "AWQ-8bit"@,
        "GPTQ-Int4"@,
        "GPTQ-Int8"@,
        "AutoRound-4bit"@,
        "AutoRound-8bit"@,
    ]
}

/// The first canonical name among the first `n` case-insensitive ones that
/// matches `t` ignoring ASCII case.
pub open spec fn case_insensitive_match(t: Seq<char>, n: int) -> Option<Seq<char>>
    decreases n,
{
    if n <= 0 {
        None
    } else {
        match case_insensitive_match(t, n - 1) {
            Some(c) => Some(c),
            None => if eq_ignore_ascii_case(t, case_insensitive_names()[n - 1]) {
                Some(case_insensitive_names()[n - 1])
            } else {
                None
            },
        }
    }
}

/// Canonical spelling of a quantization name, or `None` when unsupported.
pub open spec fn normalized_quant(q: Seq<char>) -> Option<Seq<char>> {
    let t = trim(q);
    if t.len() == 0 {
        None
    } else {
        match case_insensitive_match(t, 8) {
            Some(c) => Some(c),
            None => supported_name(unicode_upper(t)),
        }
    }
}

/// `upper` itself when it is a supported quantization name.
pub fn canonical_quant(upper: &str) -> (r: Option<String>)
    ensures
        (match r {
            Some(s) => Some(s@),
            None => None,
        }) == supported_name(upper@),
{
    let names = supported_quants();
    let u = chars_of(upper);
    let mut i: usize = 0;
    while i < names.len()
        invariant
            i <= names.len(),
            names@.map_values(|s: &str| s@) == supported_quant_names(),
            u@ == upper@,
            forall|k: int| 0 <= k < i ==> supported_quant_names()[k] != upper@,
        decreases names.len() - i,
    {
        let n = chars_of(names[i]);
        if same_chars(u.as_slice(), n.as_slice()) {
            proof {
                assert(supported_quant_names()[i as int] == upper@);
            }
            return Some(String::from_str(upper));
        }
        proof {
            assert(supported_quant_names()[i as int] == names@[i as int]@);
        }
        i = i + 1;
    }
    None
}

/// Canonical spelling of a quantization name given as ASCII text: as
/// `normalized_quant`, with the ASCII uppercase standing for the Unicode one.
pub open spec fn normalized_ascii_quant(q: Seq<char>) -> Option<Seq<char>> {
    let t = trim(q);
    if t.len() == 0 {
        None
    } else {
        match case_insensitive_match(t, 8) {
            Some(c) => Some(c),
            None => supported_name(ascii_upper(t)),
        }
    }
}

/// Every supported quantization is recognised in any ASCII case, with
/// surrounding whitespace ignored: a name whose uppercase is one of F32, F16,
/// BF16, Q8_0, Q6_K, Q5_K_M, Q4_K_M, Q4_0, Q3_K_M, Q2_K normalises to that
/// uppercase spelling, and one equal ignoring ASCII case to mlx-8bit,
/// mlx-4bit, AWQ-4bit, AWQ-8bit, GPTQ-Int4, GPTQ-Int8, AutoRound-4bit or
/// AutoRound-8bit normalises to that spelling.
pub proof fn lemma_supported_quants_normalize(q: Seq<char>)
    ensures
        ascii_upper(trim(q)) == "F32"@ ==> normalized_ascii_quant(q) == Some("F32"@),
        ascii_upper(trim(q)) == "F16"@ ==> normalized_ascii_quant(q) == Some("F16"@),
        ascii_upper(trim(q)) == "BF16"@ ==> normalized_ascii_quant(q) == Some("BF16"@),
        ascii_upper(trim(q)) == "Q8_0"@ ==> normalized_ascii_quant(q) == Some("Q8_0"@),
        ascii_upper(trim(q)) == "Q6_K"@ ==> normalized_ascii_quant(q) == Some("Q6_K"@),
        ascii_upper(trim(q)) == "Q5_K_M"@ ==> normalized_ascii_quant(q) == Some("Q5_K_M"@),
        ascii_upper(trim(q)) == "Q4_K_M"@ ==> normalized_ascii_quant(q) == Some("Q4_K_M"@),
        ascii_upper(trim(q)) == "Q4_0"@ ==> normalized_ascii_quant(q) == Some("Q4_0"@),
        ascii_upper(trim(q)) == "Q3_K_M"@ ==> normalized_ascii_quant(q) == Some("Q3_K_M"@),
        ascii_upper(trim(q)) == "Q2_K"@ ==> normalized_ascii_quant(q) == Some("Q2_K"@),
        eq_ignore_ascii_case(trim(q), "mlx-4bit"@) ==> normalized_ascii_quant(q) == Some("mlx-4bit"@),
        eq_ignore_ascii_case(trim(q), "mlx-8bit"@) ==> normalized_ascii_quant(q) == Some("mlx-8bit"@),
        eq_ignore_ascii_case(trim(q), "AWQ-4bit"@) ==> normalized_ascii_quant(q) == Some("AWQ-4bit"@),
        eq_ignore_ascii_case(trim(q), "AWQ-8bit"@) ==> normalized_ascii_quant(q) == Some("AWQ-8bit"@),
        eq_ignore_ascii_case(trim(q), "GPTQ-Int4"@) ==> normalized_ascii_quant(q) == Some("GPTQ-Int4"@),
        eq_ignore_ascii_case(trim(q), "GPTQ-Int8"@) ==> normalized_ascii_quant(q) == Some("GPTQ-Int8"@),
        eq_ignore_ascii_case(trim(q), "AutoRound-4bit"@) ==> normalized_ascii_quant(q) == Some("AutoRound-4bit"@),
        eq_ignore_ascii_case(trim(q), "AutoRound-8bit"@) ==> normalized_ascii_quant(q) == Some("AutoRound-8bit"@),
{
    reveal_strlit("AWQ-4bit");
    reveal_strlit("AWQ-8bit");
    reveal_strlit("AutoRound-4bit");
    reveal_strlit("AutoRound-8bit");
    reveal_strlit("BF16");
    reveal_strlit("F16");
    reveal_strlit("F32");
    reveal_strlit("GPTQ-Int4");
    reveal_strlit("GPTQ-Int8");
    reveal_strlit("Q2_K");
    reveal_strlit("Q3_K_M");
    reveal_strlit("Q4_0");
    reveal_strlit("Q4_K_M");
    reveal_strlit("Q5_K_M");
    reveal_strlit("Q6_K");
    reveal_strlit("Q8_0");
    reveal_strlit("mlx-4bit");
    reveal_strlit("mlx-8bit");
    reveal_with_fuel(case_insensitive_match, 9);
    if ascii_upper(trim(q)) == "F32"@ {
        assert(trim(q).len() == "F32"@.len());
        assert(supported_quant_names()[0] == "F32"@);
    }
    if ascii_upper(trim(q)) == "F16"@ {
        assert(trim(q).len() == "F16"@.len());
        assert(supported_quant_names()[1] == "F16"@);
    }
    if ascii_upper(trim(q)) == "BF16"@ {
        assert(trim(q).len() == "BF16"@.len());
        assert(supported_quant_names()[2] == "BF16"@);
    }
    if ascii_upper(trim(q)) == "Q8_0"@ {
        assert(trim(q).len() == "Q8_0"@.len());
        assert(supported_quant_names()[3] == "Q8_0"@);
    }
    if ascii_upper(trim(q)) == "Q6_K"@ {
        assert(trim(q).len() == "Q6_K"@.len());
        assert(supported_quant_names()[4] == "Q6_K"@);
    }
    if ascii_upper(trim(q)) == "Q5_K_M"@ {
        assert(trim(q).len() == "Q5_K_M"@.len());
        assert(supported_quant_names()[5] == "Q5_K_M"@);
    }
    if ascii_upper(trim(q)) == "Q4_K_M"@ {
        assert(trim(q).len() == "Q4_K_M"@.len());
        assert(supported_quant_names()[6] == "Q4_K_M"@);
    }
    if ascii_upper(trim(q)) == "Q4_0"@ {
        assert(trim(q).len() == "Q4_0"@.len());
        assert(supported_quant_names()[7] == "Q4_0"@);
    }
    if ascii_upper(trim(q)) == "Q3_K_M"@ {
        assert(trim(q).len() == "Q3_K_M"@.len());
        assert(supported_quant_names()[8] == "Q3_K_M"@);
    }
    if ascii_upper(trim(q)) == "Q2_K"@ {
        assert(trim(q).len() == "Q2_K"@.len());
        assert(supported_quant_names()[9] == "Q2_K"@);
    }
    if eq_ignore_ascii_case(trim(q), "mlx-4bit"@) {
        assert(ascii_lower(trim(q)).len() == trim(q).len());
        assert(ascii_lower("mlx-4bit"@).len() == "mlx-4bit"@.len());
    }
    if eq_ignore_ascii_case(trim(q), "mlx-8bit"@) {
        assert(ascii_lower(trim(q)).len() == trim(q).len());
        assert(ascii_lower("mlx-8bit"@).len() == "mlx-8bit"@.len());
        assert(ascii_lower("mlx-4bit"@)[4] != ascii_lower("mlx-8bit"@)[4]);
    }
    if eq_ignore_ascii_case(trim(q), "AWQ-4bit"@) {
        assert(ascii_lower(trim(q)).len() == trim(q).len());
        assert(ascii_lower("AWQ-4bit"@).len() == "AWQ-4bit"@.len());
        assert(ascii_lower("mlx-4bit"@)[0] != ascii_lower("AWQ-4bit"@)[0]);
        assert(ascii_lower("mlx-8bit"@)[0] != ascii_lower("AWQ-4bit"@)[0]);
    }
    if eq_ignore_ascii_case(trim(q), "AWQ-8bit"@) {
        assert(ascii_lower(trim(q)).len() == trim(q).len());
        assert(ascii_lower("AWQ-8bit"@).len() == "AWQ-8bit"@.len());
        assert(ascii_lower("mlx-4bit"@)[0] != ascii_lower("AWQ-8bit"@)[0]);
        assert(ascii_lower("mlx-8bit"@)[0] != ascii_lower("AWQ-8bit"@)[0]);
        assert(ascii_lower("AWQ-4bit"@)[4] != ascii_lower("AWQ-8bit"@)[4]);
    }
    if eq_ignore_ascii_case(trim(q), "GPTQ-Int4"@) {
        assert(ascii_lower(trim(q)).len() == trim(q).len());
        assert(ascii_lower("GPTQ-Int4"@).len() == "GPTQ-Int4"@.len());
        assert(ascii_lower("mlx-4bit"@).len() != ascii_lower("GPTQ-Int4"@).len());
        assert(ascii_lower("mlx-8bit"@).len() != ascii_lower("GPTQ-Int4"@).len());
        assert(ascii_lower("AWQ-4bit"@).len() != ascii_lower("GPTQ-Int4"@).len());
        assert(ascii_lower("AWQ-8bit"@).len() != ascii_lower("GPTQ-Int4"@).len());
    }
    if eq_ignore_ascii_case(trim(q), "GPTQ-Int8"@) {
        assert(ascii_lower(trim(q)).len() == trim(q).len());
        assert(ascii_lower("GPTQ-Int8"@).len() == "GPTQ-Int8"@.len());
        assert(ascii_lower("mlx-4bit"@).len() != ascii_lower("GPTQ-Int8"@).len());
        assert(ascii_lower("mlx-8bit"@).len() != ascii_lower("GPTQ-Int8"@).len());
        assert(ascii_lower("AWQ-4bit"@).len() != ascii_lower("GPTQ-Int8"@).len());
        assert(ascii_lower("AWQ-8bit"@).len() != ascii_lower("GPTQ-Int8"@).len());
        assert(ascii_lower("GPTQ-Int4"@)[8] != ascii_lower("GPTQ-Int8"@)[8]);
    }
    if eq_ignore_ascii_case(trim(q), "AutoRound-4bit"@) {
        assert(ascii_lower(trim(q)).len() == trim(q).len());
        assert(ascii_lower("AutoRound-4bit"@).len() == "AutoRound-4bit"@.len());
        assert(ascii_lower("mlx-4bit"@).len() != ascii_lower("AutoRound-4bit"@).len());
        assert(ascii_lower("mlx-8bit"@).len() != ascii_lower("AutoRound-4bit"@).len());
        assert(ascii_lower("AWQ-4bit"@).len() != ascii_lower("AutoRound-4bit"@).len());
        assert(ascii_lower("AWQ-8bit"@).len() != ascii_lower("AutoRound-4bit"@).len());
        assert(ascii_lower("GPTQ-Int4"@).len() != ascii_lower("AutoRound-4bit"@).len());
        assert(ascii_lower("GPTQ-Int8"@).len() != ascii_lower("AutoRound-4bit"@).len());
    }
    if eq_ignore_ascii_case(trim(q), "AutoRound-8bit"@) {
        assert(ascii_lower(trim(q)).len() == trim(q).len());
        assert(ascii_lower("AutoRound-8bit"@).len() == "AutoRound-8bit"@.len());
        assert(ascii_lower("mlx-4bit"@).len() != ascii_lower("AutoRound-8bit"@).len());
        assert(ascii_lower("mlx-8bit"@).len() != ascii_lower("AutoRound-8bit"@).len());
        assert(ascii_lower("AWQ-4bit"@).len() != ascii_lower("AutoRound-8bit"@).len());
        assert(ascii_lower("AWQ-8bit"@).len() != ascii_lower("AutoRound-8bit"@).len());
        assert(ascii_lower("GPTQ-Int4"@).len() != ascii_lower("AutoRound-8bit"@).len());
        assert(ascii_lower("GPTQ-Int8"@).len() != ascii_lower("AutoRound-8bit"@).len());
        assert(ascii_lower("AutoRound-4bit"@)[10] != ascii_lower("AutoRound-8bit"@)[10]);
    }
}

/// One of the supported quantization names, spelled canonically.
pub open spec fn is_canonical_quant(c: Seq<char>) -> bool {
    ||| c == "F32"@
    ||| c == "F16"@
    ||| c == "BF16"@
    ||| c == "Q8_0"@
    ||| c == "Q6_K"@
    ||| c == "Q5_K_M"@
    ||| c == "Q4_K_M"@
    ||| c == "Q4_0"@
    ||| c == "Q3_K_M"@
    ||| c == "Q2_K"@
    ||| c == "mlx-8bit"@
    ||| c == "mlx-4bit"@
    ||| c == "AWQ-4bit"@
    ||| c == "AWQ-8bit"@
    ||| c == "GPTQ-Int4"@
    ||| c == "GPTQ-Int8"@
    ||| c == "AutoRound-4bit"@
    ||| c == "AutoRound-8bit"@
}

/// Normalising never makes up a name: whatever comes back is one of the
/// supported quantizations in canonical spelling.
pub proof fn lemma_normalized_quant_is_canonical(q: Seq<char>)
    ensures
        normalized_quant(q) matches Some(c) ==> is_canonical_quant(c),
        normalized_ascii_quant(q) matches Some(c) ==> is_canonical_quant(c),
{
    reveal_with_fuel(case_insensitive_match, 9);
    let t = trim(q);
    assert forall|x: Seq<char>| #[trigger] supported_name(x) is Some implies is_canonical_quant(
        supported_name(x)->Some_0,
    ) by {
        let i = choose|i: int| 0 <= i < supported_quant_names().len() && supported_quant_names()[i] == x;
        assert(0 <= i < 18);
        if i == 0 {
            assert(x == "F32"@);
        }
        if i == 1 {
            assert(x == "F16"@);
        }
        if i == 2 {
            assert(x == "BF16"@);
        }
        if i == 3 {
            assert(x == "Q8_0"@);
        }
        if i == 4 {
            assert(x == "Q6_K"@);
        }
        if i == 5 {
            assert(x == "Q5_K_M"@);
        }
        if i == 6 {
            assert(x == "Q4_K_M"@);
        }
        if i == 7 {
            assert(x == "Q4_0"@);
        }
        if i == 8 {
            assert(x == "Q3_K_M"@);
        }
        if i == 9 {
            assert(x == "Q2_K"@);
        }
        if i == 10 {
            assert(x == "mlx-8bit"@);
        }
        if i == 11 {
            assert(x == "mlx-4bit"@);
        }
        if i == 12 {
            assert(x == "AWQ-4bit"@);
        }
        if i == 13 {
            assert(x == "AWQ-8bit"@);
        }
        if i == 14 {
            assert(x == "GPTQ-Int4"@);
        }
        if i == 15 {
            assert(x == "GPTQ-Int8"@);
        }
        if i == 16 {
            assert(x == "AutoRound-4bit"@);
        }
        if i == 17 {
            assert(x == "AutoRound-8bit"@);
        }
    }
}

/// Canonical spelling of a quantization name (case-insensitive, surrounding
/// whitespace ignored), or `None` when it is not supported.
pub fn normalize_quant(quant: &str) -> (r: Option<String>)
    ensures
        (match r {
            Some(s) => Some(s@),
            None => None,
        }) == normalized_quant(quant@),
        all_ascii(trim(quant@)) ==> (match r {
            Some(s) => Some(s@),
            None => None,
        }) == normalized_ascii_quant(quant@),
{
    let t = trim_chars(chars_of(quant).as_slice());
    if t.len() == 0 {
        return None;
    }
    let canon = vec![
        "mlx-4bit",
        "mlx-8bit",
        "AWQ-4bit",
        "AWQ-8bit",
        "GPTQ-Int4",
        "GPTQ-Int8",
        "AutoRound-4bit",
        "AutoRound-8bit",
    ];
    let ghost names = canon@.map_values(|s: &str| s@);
    assert(names =~= case_insensitive_names());
    let mut i: usize = 0;
    while i < canon.len()
        invariant
            i <= canon.len(),
            canon@.len() == 8,
            names == canon@.map_values(|s: &str| s@),
            names == case_insensitive_names(),
            t@ == trim(quant@),
            t@.len() > 0,
            case_insensitive_match(t@, i as int) is None,
        decreases canon.len() - i,
    {
        let c = chars_of(canon[i]);
        if same_ignoring_ascii_case(t.as_slice(), c.as_slice()) {
            proof {
                assert(names[i as int] == canon@[i as int]@);
                lemma_case_insensitive_found(t@, i as int);
            }
            return Some(String::from_str(canon[i]));
        }
        proof {
            assert(names[i as int] == canon@[i as int]@);
        }
        i = i + 1;
    }
    let trimmed = string_of(t.as_slice());
    let upper = to_uppercase(trimmed.as_str());
    canonical_quant(upper.as_str())
}

proof fn lemma_case_insensitive_found(t: Seq<char>, i: int)
    requires
        0 <= i < 8,
        case_insensitive_match(t, i) is None,
        eq_ignore_ascii_case(t, case_insensitive_names()[i]),
    ensures
        case_insensitive_match(t, 8) == Some(case_insensitive_names()[i]),
{
    lemma_case_insensitive_stable(t, i + 1, 8);
}

proof fn lemma_case_insensitive_stable(t: Seq<char>, i: int, n: int)
    requires
        0 <= i <= n,
        case_insensitive_match(t, i) is Some,
    ensures
        case_insensitive_match(t, n) == case_insensitive_match(t, i),
    decreases n - i,
{
    if i < n {
        lemma_case_insensitive_stable(t, i, n - 1);
    }
}

/// Indices among the first `n` lowered names that equal the needle
/// (`exact`) or contain it.
pub open spec fn match_indices(lowered: Seq<Seq<char>>, needle: Seq<char>, exact: bool, n: int) -> Seq<int>
    decreases n,
{
    if n <= 0 {
        Seq::empty()
    } else {
        let rest = match_indices(lowered, needle, exact, n - 1);
        let hit = if exact {
            lowered[n - 1] == needle
        } else {
            contains(lowered[n - 1], needle)
        };
        if hit {
            rest.push(n - 1)
        } else {
            rest
        }
    }
}

/// `parts` joined with `sep` between neighbours.
pub open spec fn join(parts: Seq<Seq<char>>, sep: Seq<char>) -> Seq<char>
    decreases parts.len(),
{
    if parts.len() == 0 {
        Seq::empty()
    } else if parts.len() == 1 {
        parts[0]
    } else {
        join(parts.drop_last(), sep) + sep + parts.last()
    }
}

/// Which model a selector picks, given every model name and its lowercase
/// form: a unique exact match, else a unique partial match, else an error.
pub open spec fn selected_model(
    names: Seq<Seq<char>>,
    lowered: Seq<Seq<char>>,
    needle: Seq<char>,
    selector: Seq<char>,
) -> Result<int, Seq<char>> {
    let exact = match_indices(lowered, needle, true, lowered.len() as int);
    let partial = match_indices(lowered, needle, false, lowered.len() as int);
    if exact.len() == 1 {
        Ok(exact[0])
    } else if partial.len() == 0 {
        Err("No model found matching '"@ + selector + "'."@)
    } else if partial.len() == 1 {
        Ok(partial[0])
    } else {
        let shown = if partial.len() > 10 {
            partial.take(10)
        } else {
            partial
        };
        Err("Model selector '"@ + selector + "' is ambiguous. Matches: "@ + join(
            shown.map_values(|i: int| names[i]),
            ", "@,
        ))
    }
}

/// Names of a list of models.
pub open spec fn model_names(models: Seq<LlmModel>) -> Seq<Seq<char>> {
    models.map_values(|m: LlmModel| m.name@)
}

fn collect_matches(lowered: &Vec<String>, needle: &String, exact: bool) -> (v: Vec<usize>)
    ensures
        v@.map_values(|i: usize| i as int) == match_indices(
            lowered@.map_values(|s: String| s@),
            needle@,
            exact,
            lowered@.len() as int,
        ),
        forall|k: int| 0 <= k < v@.len() ==> #[trigger] v@[k] < lowered@.len(),
{
    let ghost low = lowered@.map_values(|s: String| s@);
    let nc = chars_of(needle.as_str());
    let mut v: Vec<usize> = Vec::new();
    let mut i: usize = 0;
    while i < lowered.len()
        invariant
            i <= lowered.len(),
            low == lowered@.map_values(|s: String| s@),
            nc@ == needle@,
            v@.map_values(|i: usize| i as int) == match_indices(low, needle@, exact, i as int),
            forall|k: int| 0 <= k < v@.len() ==> #[trigger] v@[k] < i,
        decreases lowered.len() - i,
    {
        let hit = if exact {
            lowered[i] == *needle
        } else {
            let lc = chars_of(lowered[i].as_str());
            has_substring(lc.as_slice(), nc.as_slice())
        };
        proof {
            assert(low[i as int] == lowered@[i as int]@);
        }
        let ghost old_v = v@.map_values(|i: usize| i as int);
        if hit {
            v.push(i);
            proof {
                assert(v@.map_values(|i: usize| i as int) =~= old_v.push(i as int));
            }
        }
        i = i + 1;
    }
    v
}

/// Picks a model from the lowercase forms of the catalog names and of the
/// selector: a unique exact match, else a unique partial match.
pub fn select_model(
    models: &[LlmModel],
    lowered: &Vec<String>,
    needle: &String,
    selector: &str,
) -> (r: Result<usize, String>)
    requires
        lowered@.len() == models@.len(),
    ensures
        match selected_model(model_names(models@), lowered@.map_values(|s: String| s@), needle@, selector@) {
            Ok(i) => r matches Ok(k) && k == i,
            Err(msg) => r matches Err(m) && m@ == msg,
        },
{
    let ghost names = model_names(models@);
    let exact = collect_matches(lowered, needle, true);
    if exact.len() == 1 {
        return Ok(exact[0]);
    }
    let partial = collect_matches(lowered, needle, false);
    if partial.len() == 0 {
        let mut m = String::from_str("No model found matching '");
        m.append(selector);
        m.append("'.");
        return Err(m);
    }
    if partial.len() == 1 {
        return Ok(partial[0]);
    }
    let ghost pv = partial@.map_values(|i: usize| i as int);
    let shown: usize = if partial.len() > 10 { 10 } else { partial.len() };
    let ghost shown_idx = if pv.len() > 10 {
        pv.take(10)
    } else {
        pv
    };
    assert(shown_idx =~= pv.take(shown as int));
    let ghost parts = shown_idx.map_values(|i: int| names[i]);
    let mut m = String::from_str("Model selector '");
    m.append(selector);
    m.append("' is ambiguous. Matches: ");
    let ghost prefix = m@;
    let mut k: usize = 0;
    while k < shown
        invariant
            shown <= partial@.len(),
            k <= shown,
            shown > 0,
            names == model_names(models@),
            pv == partial@.map_values(|i: usize| i as int),
            forall|j: int| 0 <= j < partial@.len() ==> #[trigger] partial@[j] < lowered@.len(),
            lowered@.len() == models@.len(),
            parts == pv.take(shown as int).map_values(|i: int| names[i]),
            m@ == prefix + join(parts.take(k as int), ", "@),
        decreases shown - k,
    {
        let idx = partial[k];
        if k > 0 {
            m.append(", ");
        }
        m.append(models[idx].name.as_str());
        proof {
            assert(parts[k as int] == models@[idx as int].name@);
            assert(parts.take(k + 1).drop_last() =~= parts.take(k as int));
            if k == 0 {
                assert(join(parts.take(0), ", "@) =~= Seq::<char>::empty());
            }
        }
        k = k + 1;
        proof {
            assert(m@ =~= prefix + join(parts.take(k as int), ", "@));
        }
    }
    proof {
        assert(parts.take(shown as int) =~= parts);
    }
    Err(m)
}

/// The model a selector names: matched case-insensitively on the trimmed
/// selector, exact matches first, then unique partial matches.
pub fn resolve_model_selector<'a>(models: &'a [LlmModel], selector: &str) -> (r: Result<&'a LlmModel, String>)
    ensures
        unicode_lower(trim(selector@)).len() == 0 ==> (r matches Err(m) && m@
            == "Model selector cannot be empty"@),
        unicode_lower(trim(selector@)).len() > 0 ==> match selected_model(
            model_names(models@),
            model_names(models@).map_values(|n: Seq<char>| unicode_lower(n)),
            unicode_lower(trim(selector@)),
            selector@,
        ) {
            Ok(i) => r matches Ok(m) && 0 <= i < models@.len() && *m == models@[i],
            Err(msg) => r matches Err(m) && m@ == msg,
        },
{
    let trimmed = string_of(trim_chars(chars_of(selector).as_slice()).as_slice());
    let needle = to_lowercase(trimmed.as_str());
    if needle.as_str().is_empty() {
        return Err(String::from_str("Model selector cannot be empty"));
    }
    let mut lowered: Vec<String> = Vec::new();
    let mut i: usize = 0;
    while i < models.len()
        invariant
            i <= models.len(),
            lowered@.len() == i,
            forall|k: int| 0 <= k < i ==> #[trigger] lowered@[k]@ == unicode_lower(models@[k].name@),
        decreases models.len() - i,
    {
        lowered.push(to_lowercase(models[i].name.as_str()));
        i = i + 1;
    }
    proof {
        assert(lowered@.map_values(|s: String| s@) =~= model_names(models@).map_values(
            |n: Seq<char>| unicode_lower(n),
        ));
    }
    match select_model(models, &lowered, &needle, selector) {
        Ok(k) => {
            proof {
                lemma_selected_in_range(model_names(models@), lowered@.map_values(|s: String| s@), needle@, selector@);
            }
            Ok(&models[k])
        },
        Err(e) => Err(e),
    }
}

proof fn lemma_match_indices_in_range(lowered: Seq<Seq<char>>, needle: Seq<char>, exact: bool, n: int)
    requires
        0 <= n <= lowered.len(),
    ensures
        forall|k: int| 0 <= k < match_indices(lowered, needle, exact, n).len() ==> 0 <= #[trigger] match_indices(lowered, needle, exact, n)[k] < n,
    decreases n,
{
    if n > 0 {
        lemma_match_indices_in_range(lowered, needle, exact, n - 1);
        let rest = match_indices(lowered, needle, exact, n - 1);
        let all = match_indices(lowered, needle, exact, n);
        assert forall|k: int| 0 <= k < all.len() implies 0 <= #[trigger] all[k] < n by {
            if k < rest.len() {
                assert(all[k] == rest[k]);
            }
        }
    }
}

proof fn lemma_selected_in_range(names: Seq<Seq<char>>, lowered: Seq<Seq<char>>, needle: Seq<char>, selector: Seq<char>)
    ensures
        selected_model(names, lowered, needle, selector) matches Ok(i) ==> 0 <= i < lowered.len(),
{
    lemma_match_indices_in_range(lowered, needle, true, lowered.len() as int);
    lemma_match_indices_in_range(lowered, needle, false, lowered.len() as int);
}

/// How KV cache elements are stored.
#[derive(Debug, Clone, Copy, PartialEq, Eq, Structural)]
pub enum KvQuant {
    Fp16,
    Fp8,
    Q8_0,
    Q4_0,
    TurboQuant,
}

/// The `llama-server` (or, for batched serving, `vllm serve`) command line
/// for a run, or `None` when there is no model reference. `n_cpu_moe` is the
/// number of layers whose routed experts stay in RAM; a split is emitted
/// only for MoE partial offload and only when it is positive.
pub open spec fn server_command(
    model_ref: Seq<char>,
    context: u32,
    run_mode: RunMode,
    is_moe: bool,
    kv_quant: KvQuant,
    n_cpu_moe: Option<u32>,
    serving_max_num_seqs: Option<u32>,
    tensor_parallel_size: Option<u32>,
) -> Option<Seq<char>> {
    let r = trim(model_ref);
    if r.len() == 0 {
        None
    } else {
        let base = "llama-server "@ + r + " -c "@ + decimal(context as nat) + " -fa"@;
        let cmd = match run_mode {
            RunMode::Gpu => base + " -ngl 99"@,
            RunMode::CpuOnly => base + " -ngl 0"@,
            RunMode::Serving => {
                let tp: u32 = match tensor_parallel_size {
                    Some(t) => t,
                    None => 1,
                };
                let seqs: u32 = match serving_max_num_seqs {
                    Some(n) => n,
                    None => 256,
                };
                "vllm serve "@ + r + " --max-num-seqs "@ + decimal(seqs as nat) + " --max-model-len "@
                    + decimal(context as nat) + if tp > 1 {
                    " --tensor-parallel-size "@ + decimal(tp as nat)
                } else {
                    Seq::<char>::empty()
                }
            },
            _ => if run_mode == RunMode::CpuOffload && !is_moe {
                base + " -ngl auto"@
            } else {
                match n_cpu_moe {
                    Some(n) => if n > 0 {
                        base + " -ngl 99 --n-cpu-moe "@ + decimal(n as nat)
                    } else {
                        base + " -ngl 99"@
                    },
                    None => base + " -ngl 99"@,
                }
            },
        };
        Some(
            cmd + match kv_quant {
                KvQuant::Q8_0 => " -ctv q8_0"@,
                KvQuant::Q4_0 => " -ctv q4_0"@,
                _ => Seq::<char>::empty(),
            },
        )
    }
}

/// A served run is spread over `tp` GPUs whenever `tp > 1`: the command is
/// the one without tensor parallelism with ` --tensor-parallel-size <tp>`
/// inserted (right after the context length), so it contains that flag.
/// With `tp` of 0 or 1 the command is the one without tensor parallelism.
pub proof fn lemma_serving_command_tensor_parallelism(
    model_ref: Seq<char>,
    context: u32,
    is_moe: bool,
    kv_quant: KvQuant,
    n_cpu_moe: Option<u32>,
    serving_max_num_seqs: Option<u32>,
    tp: u32,
)
    requires
        trim(model_ref).len() > 0,
    ensures
        ({
            let with = server_command(
                model_ref,
                context,
                RunMode::Serving,
                is_moe,
                kv_quant,
                n_cpu_moe,
                serving_max_num_seqs,
                Some(tp),
            );
            let without = server_command(
                model_ref,
                context,
                RunMode::Serving,
                is_moe,
                kv_quant,
                n_cpu_moe,
                serving_max_num_seqs,
                None,
            );
            let flag = " --tensor-parallel-size "@ + decimal(tp as nat);
            &&& with is Some
            &&& without is Some
            &&& tp > 1 ==> contains(with->Some_0, flag)
            &&& tp > 1 ==> exists|i: int|
                #![trigger without->Some_0.subrange(0, i)]
                0 <= i <= without->Some_0.len() && with->Some_0 == without->Some_0.subrange(0, i) + flag
                    + without->Some_0.subrange(i, without->Some_0.len() as int)
            &&& tp <= 1 ==> with == without
        }),
{
    let r = trim(model_ref);
    let seqs: u32 = match serving_max_num_seqs {
        Some(n) => n,
        None => 256,
    };
    let head = "vllm serve "@ + r + " --max-num-seqs "@ + decimal(seqs as nat) + " --max-model-len "@
        + decimal(context as nat);
    let tail = match kv_quant {
        KvQuant::Q8_0 => " -ctv q8_0"@,
        KvQuant::Q4_0 => " -ctv q4_0"@,
        _ => Seq::<char>::empty(),
    };
    let flag = " --tensor-parallel-size "@ + decimal(tp as nat);
    let with = server_command(
        model_ref,
        context,
        RunMode::Serving,
        is_moe,
        kv_quant,
        n_cpu_moe,
        serving_max_num_seqs,
        Some(tp),
    )->Some_0;
    let without = server_command(
        model_ref,
        context,
        RunMode::Serving,
        is_moe,
        kv_quant,
        n_cpu_moe,
        serving_max_num_seqs,
        None,
    )->Some_0;
    assert(without =~= head + Seq::<char>::empty() + tail);
    if tp > 1 {
        assert(with =~= head + flag + tail);
        let i = head.len() as int;
        assert(without.subrange(0, i) =~= head);
        assert(without.subrange(i, without.len() as int) =~= tail);
        assert(with.subrange(i, i + flag.len()) =~= flag);
        assert(occurs_at(with, flag, i));
    } else {
        assert(with =~= head + Seq::<char>::empty() + tail);
    }
}

/// The KV cache type shows only as a trailing ` -ctv` flag: q8_0 and q4_0
/// append ` -ctv q8_0` and ` -ctv q4_0` to the fp16 command, and the other
/// cache types give the fp16 command unchanged. A blank model reference
/// gives no command at all.
pub proof fn lemma_server_command_kv_flag(
    model_ref: Seq<char>,
    context: u32,
    run_mode: RunMode,
    is_moe: bool,
    n_cpu_moe: Option<u32>,
    serving_max_num_seqs: Option<u32>,
    tensor_parallel_size: Option<u32>,
)
    ensures
        ({
            let cmd = |kv: KvQuant|
                server_command(
                    model_ref,
                    context,
                    run_mode,
                    is_moe,
                    kv,
                    n_cpu_moe,
                    serving_max_num_seqs,
                    tensor_parallel_size,
                );
            &&& trim(model_ref).len() == 0 ==> cmd(KvQuant::Fp16) is None
            &&& trim(model_ref).len() > 0 ==> {
                &&& cmd(KvQuant::Fp16) is Some
                &&& cmd(KvQuant::Q8_0) == Some(cmd(KvQuant::Fp16)->Some_0 + " -ctv q8_0"@)
                &&& cmd(KvQuant::Q4_0) == Some(cmd(KvQuant::Fp16)->Some_0 + " -ctv q4_0"@)
                &&& cmd(KvQuant::Fp8) == cmd(KvQuant::Fp16)
                &&& cmd(KvQuant::TurboQuant) == cmd(KvQuant::Fp16)
            }
        }),
{
    let cmd = |kv: KvQuant|
        server_command(
            model_ref,
            context,
            run_mode,
            is_moe,
            kv,
            n_cpu_moe,
            serving_max_num_seqs,
            tensor_parallel_size,
        );
    if trim(model_ref).len() > 0 {
        let base = cmd(KvQuant::Fp16)->Some_0;
        assert(base + Seq::<char>::empty() =~= base);
        assert(cmd(KvQuant::Fp16) == Some(base + Seq::<char>::empty()));
    }
}

/// Served runs keep 256 sequences in flight unless told otherwise, and a
/// request to keep no MoE experts on the CPU is the same as not asking.
pub proof fn lemma_server_command_defaults(
    model_ref: Seq<char>,
    context: u32,
    run_mode: RunMode,
    is_moe: bool,
    kv_quant: KvQuant,
    n_cpu_moe: Option<u32>,
    serving_max_num_seqs: Option<u32>,
    tensor_parallel_size: Option<u32>,
)
    ensures
        server_command(
            model_ref,
            context,
            run_mode,
            is_moe,
            kv_quant,
            n_cpu_moe,
            None,
            tensor_parallel_size,
        ) == server_command(
            model_ref,
            context,
            run_mode,
            is_moe,
            kv_quant,
            n_cpu_moe,
            Some(256),
            tensor_parallel_size,
        ),
        server_command(
            model_ref,
            context,
            run_mode,
            is_moe,
            kv_quant,
            Some(0),
            serving_max_num_seqs,
            tensor_parallel_size,
        ) == server_command(
            model_ref,
            context,
            run_mode,
            is_moe,
            kv_quant,
            None,
            serving_max_num_seqs,
            tensor_parallel_size,
        ),
{
}

/// Which server runs the model: served runs start `vllm serve <model>`, all
/// others `llama-server <model> -c <context> -fa`, with the model reference
/// trimmed of surrounding whitespace; the GPU path offloads every layer
/// (`-ngl 99`) and the CPU-only path none (`-ngl 0`).
pub proof fn lemma_server_command_program(
    model_ref: Seq<char>,
    context: u32,
    run_mode: RunMode,
    is_moe: bool,
    kv_quant: KvQuant,
    n_cpu_moe: Option<u32>,
    serving_max_num_seqs: Option<u32>,
    tensor_parallel_size: Option<u32>,
)
    requires
        trim(model_ref).len() > 0,
    ensures
        ({
            let c = server_command(
                model_ref,
                context,
                run_mode,
                is_moe,
                kv_quant,
                n_cpu_moe,
                serving_max_num_seqs,
                tensor_parallel_size,
            )->Some_0;
            let base = "llama-server "@ + trim(model_ref) + " -c "@ + decimal(context as nat) + " -fa"@;
            &&& run_mode == RunMode::Serving ==> starts_with(c, "vllm serve "@ + trim(model_ref))
            &&& run_mode != RunMode::Serving ==> starts_with(c, base)
            &&& run_mode == RunMode::Gpu ==> starts_with(c, base + " -ngl 99"@)
            &&& run_mode == RunMode::CpuOnly ==> starts_with(c, base + " -ngl 0"@)
        }),
{
    let c = server_command(
        model_ref,
        context,
        run_mode,
        is_moe,
        kv_quant,
        n_cpu_moe,
        serving_max_num_seqs,
        tensor_parallel_size,
    )->Some_0;
    let r = trim(model_ref);
    let base = "llama-server "@ + r + " -c "@ + decimal(context as nat) + " -fa"@;
    if run_mode == RunMode::Serving {
        let p = "vllm serve "@ + r;
        assert(c.subrange(0, p.len() as int) =~= p);
    } else {
        assert(c.subrange(0, base.len() as int) =~= base);
        if run_mode == RunMode::Gpu {
            assert(c.subrange(0, (base + " -ngl 99"@).len() as int) =~= base + " -ngl 99"@);
        }
        if run_mode == RunMode::CpuOnly {
            assert(c.subrange(0, (base + " -ngl 0"@).len() as int) =~= base + " -ngl 0"@);
        }
    }
}

/// Builds the ready-to-run server command for a run path.
pub fn llamacpp_server_command(
    model_ref: &str,
    context: u32,
    run_mode: RunMode,
    is_moe: bool,
    kv_quant: KvQuant,
    n_cpu_moe: Option<u32>,
    serving_max_num_seqs: Option<u32>,
    tensor_parallel_size: Option<u32>,
) -> (r: Option<String>)
    ensures
        opt_string(r) == server_command(
            model_ref@,
            context,
            run_mode,
            is_moe,
            kv_quant,
            n_cpu_moe,
            serving_max_num_seqs,
            tensor_parallel_size,
        ),
{
    let r = string_of(trim_chars(chars_of(model_ref).as_slice()).as_slice());
    if r.as_str().is_empty() {
        return None;
    }
    let mut base = String::from_str("llama-server ");
    base.append(r.as_str());
    base.append(" -c ");
    push_decimal(&mut base, context as u64);
    base.append(" -fa");
    let mut cmd = match run_mode {
        RunMode::Gpu => {
            let mut c = base;
            c.append(" -ngl 99");
            c
        },
        RunMode::CpuOnly => {
            let mut c = base;
            c.append(" -ngl 0");
            c
        },
        RunMode::Serving => {
            let tp: u32 = match tensor_parallel_size {
                Some(t) => t,
                None => 1,
            };
            let seqs: u32 = match serving_max_num_seqs {
                Some(n) => n,
                None => 256,
            };
            let mut c = String::from_str("vllm serve ");
            c.append(r.as_str());
            c.append(" --max-num-seqs ");
            push_decimal(&mut c, seqs as u64);
            c.append(" --max-model-len ");
            push_decimal(&mut c, context as u64);
            if tp > 1 {
                c.append(" --tensor-parallel-size ");
                push_decimal(&mut c, tp as u64);
            }
            c
        },
        _ => {
            let mut c = base;
            if run_mode == RunMode::CpuOffload && !is_moe {
                c.append(" -ngl auto");
            } else {
                match n_cpu_moe {
                    Some(n) => {
                        if n > 0 {
                            c.append(" -ngl 99 --n-cpu-moe ");
                            push_decimal(&mut c, n as u64);
                        } else {
                            c.append(" -ngl 99");
                        }
                    },
                    None => {
                        c.append(" -ngl 99");
                    },
                }
            }
            c
        },
    };
    match kv_quant {
        KvQuant::Q8_0 => cmd.append(" -ctv q8_0"),
        KvQuant::Q4_0 => cmd.append(" -ctv q4_0"),
        _ => {},
    }
    Some(cmd)
}

/// View of an optional string.
pub open spec fn opt_string(o: Option<String>) -> Option<Seq<char>> {
    match o {
        Some(s) => Some(s@),
        None => None,
    }
}

} // verus!
