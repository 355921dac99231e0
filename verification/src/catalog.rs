//! Model metadata for third-party provider models.
//!
//! The remote model catalog does not know these models, so the library keeps
//! a local fallback for their metadata and merges a small picker list into
//! the catalog at run time.

use vstd::prelude::*;

use crate::text::is_prefix_of;
use crate::text::str_eq;
use crate::text::str_starts_with;

verus! {

/// Reasoning depth a model can be asked for.
#[derive(Debug, Clone, Copy, PartialEq, Eq, Structural)]
pub enum ReasoningEffort {
    Low,
    Medium,
    High,
}

/// One selectable reasoning level with its picker description.
#[derive(Debug, Clone, PartialEq, Eq)]
pub struct ReasoningEffortPreset {
    pub effort: ReasoningEffort,
    pub description: String,
}

/// Metadata for one model, as plain values.
#[derive(Debug, Clone, PartialEq, Eq)]
pub struct ModelInfo {
    pub slug: String,
    pub display_name: String,
    pub description: Option<String>,
    pub default_reasoning_level: Option<ReasoningEffort>,
    pub supported_reasoning_levels: Vec<ReasoningEffortPreset>,
    pub uses_shell_command_tool: bool,
    pub listed: bool,
    pub supported_in_api: bool,
    pub priority: i32,
    pub uses_text_editor_instructions: bool,
    pub structured_apply_patch: bool,
    pub truncation_policy_bytes: i64,
    pub supports_parallel_tool_calls: bool,
    pub context_window: Option<i64>,
    pub effective_context_window_percent: i64,
    pub supports_reasoning_summaries: bool,
    pub prefer_websockets: bool,
}

/// The three standard reasoning levels offered by the fork models.
pub fn reasoning_presets() -> (r: Vec<ReasoningEffortPreset>)
    ensures
        r@.len() == 3,
        r@[0].effort == ReasoningEffort::Low,
        r@[0].description@ =~= "Fast responses with lighter reasoning"@,
        r@[1].effort == ReasoningEffort::Medium,
        r@[1].description@ =~= "Balances speed and reasoning depth for everyday tasks"@,
        r@[2].effort == ReasoningEffort::High,
        r@[2].description@ =~= "Greater reasoning depth for complex problems"@,
{
    let mut r: Vec<ReasoningEffortPreset> = Vec::new();
    r.push(
        ReasoningEffortPreset {
            effort: ReasoningEffort::Low,
            description: "Fast responses with lighter reasoning".to_owned(),
        },
    );
    r.push(
        ReasoningEffortPreset {
            effort: ReasoningEffort::Medium,
            description: "Balances speed and reasoning depth for everyday tasks".to_owned(),
        },
    );
    r.push(
        ReasoningEffortPreset {
            effort: ReasoningEffort::High,
            description: "Greater reasoning depth for complex problems".to_owned(),
        },
    );
    r
}

/// The shape shared by all catalog entries of the fork models: listed in the
/// picker, medium reasoning by default, shell-command tooling, structured
/// patches, and the text-editor flavour of the base instructions.
pub open spec fn is_fork_catalog_entry(
    m: ModelInfo,
    slug: Seq<char>,
    description: Seq<char>,
    context_window: i64,
    priority: i32,
) -> bool {
    &&& m.slug@ =~= slug
    &&& m.display_name@ =~= slug
    &&& m.description matches Some(d) && d@ =~= description
    &&& m.default_reasoning_level == Some(ReasoningEffort::Medium)
    &&& m.supported_reasoning_levels@.len() == 3
    &&& m.uses_shell_command_tool
    &&& m.listed
    &&& m.supported_in_api
    &&& m.priority == priority
    &&& m.uses_text_editor_instructions
    &&& m.structured_apply_patch
    &&& m.truncation_policy_bytes == 10000i64
    &&& !m.supports_parallel_tool_calls
    &&& m.context_window == Some(context_window)
    &&& m.effective_context_window_percent == 95i64
    &&& !m.supports_reasoning_summaries
    &&& !m.prefer_websockets
}

/// A MiniMax catalog entry.
pub fn minimax_model(slug: &str, context_window: i64, priority: i32) -> (m: ModelInfo)
    ensures
        is_fork_catalog_entry(m, slug@, "MiniMax coding model"@, context_window, priority),
{
    ModelInfo {
        slug: slug.to_owned(),
        display_name: slug.to_owned(),
        description: Some("MiniMax coding model".to_owned()),
        default_reasoning_level: Some(ReasoningEffort::Medium),
        supported_reasoning_levels: reasoning_presets(),
        uses_shell_command_tool: true,
        listed: true,
        supported_in_api: true,
        priority,
        uses_text_editor_instructions: true,
        structured_apply_patch: true,
        truncation_policy_bytes: 10000,
        supports_parallel_tool_calls: false,
        context_window: Some(context_window),
        effective_context_window_percent: 95,
        supports_reasoning_summaries: false,
        prefer_websockets: false,
    }
}

/// A Zhipu GLM catalog entry.
pub fn zhipu_model(slug: &str, context_window: i64, priority: i32) -> (m: ModelInfo)
    ensures
        is_fork_catalog_entry(m, slug@, "Zhipu GLM coding model"@, context_window, priority),
{
    ModelInfo {
        slug: slug.to_owned(),
        display_name: slug.to_owned(),
        description: Some("Zhipu GLM coding model".to_owned()),
        default_reasoning_level: Some(ReasoningEffort::Medium),
        supported_reasoning_levels: reasoning_presets(),
        uses_shell_command_tool: true,
        listed: true,
        supported_in_api: true,
        priority,
        uses_text_editor_instructions: true,
        structured_apply_patch: true,
        truncation_policy_bytes: 10000,
        supports_parallel_tool_calls: false,
        context_window: Some(context_window),
        effective_context_window_percent: 95,
        supports_reasoning_summaries: false,
        prefer_websockets: false,
    }
}

/// The picker entries merged into the catalog for the fork providers.
pub fn fork_models() -> (r: Vec<ModelInfo>)
    ensures
        r@.len() == 4,
        is_fork_catalog_entry(r@[0], "codex-MiniMax-M2.1"@, "MiniMax coding model"@, 200000, 200),
        is_fork_catalog_entry(r@[1], "MiniMax-M2.5"@, "MiniMax coding model"@, 200000, 201),
        is_fork_catalog_entry(r@[2], "glm-5"@, "Zhipu GLM coding model"@, 200000, 210),
        is_fork_catalog_entry(r@[3], "glm-4.7"@, "Zhipu GLM coding model"@, 128000, 211),
{
    let mut r: Vec<ModelInfo> = Vec::new();
    r.push(minimax_model("codex-MiniMax-M2.1", 200000, 200));
    r.push(minimax_model("MiniMax-M2.5", 200000, 201));
    r.push(zhipu_model("glm-5", 200000, 210));
    r.push(zhipu_model("glm-4.7", 128000, 211));
    r
}

/// Some entry of `s` carries the slug.
pub open spec fn has_slug(s: Seq<ModelInfo>, slug: Seq<char>) -> bool {
    exists|i: int| 0 <= i < s.len() && (#[trigger] s[i]).slug@ =~= slug
}

/// True when some entry of `models` has the same slug as `m`.
fn contains_slug(models: &Vec<ModelInfo>, slug: &str) -> (r: bool)
    ensures
        r == has_slug(models@, slug@),
{
    let n = models.len();
    let mut i: usize = 0;
    while i < n
        invariant
            n == models@.len(),
            i <= n,
            forall|k: int| 0 <= k < i ==> !((#[trigger] models@[k]).slug@ =~= slug@),
        decreases n - i,
    {
        if str_eq((&models[i]).slug.as_str(), slug) {
            return true;
        }
        i = i + 1;
    }
    false
}

/// Appends the fork picker models that the given catalog does not already
/// carry; entries already present are not duplicated.
pub fn merge_with_fork_models(models: Vec<ModelInfo>) -> (r: Vec<ModelInfo>)
    ensures
        r@.len() >= models@.len(),
        r@.take(models@.len() as int) =~= models@,
        has_slug(r@, "codex-MiniMax-M2.1"@),
        has_slug(r@, "MiniMax-M2.5"@),
        has_slug(r@, "glm-5"@),
        has_slug(r@, "glm-4.7"@),
        forall|j: int|
            models@.len() <= j < r@.len() ==> !has_slug(models@, (#[trigger] r@[j]).slug@),
{
    let mut models = models;
    let ghost base = models@;
    let mut fork = fork_models();
    let mut k: usize = 0;
    let n = fork.len();
    while k < n
        invariant
            n == fork@.len(),
            k <= n,
            models@.len() >= base.len(),
            models@.take(base.len() as int) =~= base,
            forall|j: int|
                base.len() <= j < models@.len() ==> !has_slug(base, (#[trigger] models@[j]).slug@),
            forall|t: int| 0 <= t < k ==> has_slug(models@, (#[trigger] fork@[t]).slug@),
        decreases n - k,
    {
        let slug_owned = fork[k].slug.clone();
        if !contains_slug(&models, slug_owned.as_str()) {
            let ghost before = models@;
            let m = clone_model(&fork[k]);
            models.push(m);
            proof {
                assert(models@[before.len() as int].slug@ =~= fork@[k as int].slug@);
                assert forall|t: int| 0 <= t < k + 1 implies has_slug(
                    models@,
                    (#[trigger] fork@[t]).slug@,
                ) by {
                    if t < k {
                        let w = choose|i: int|
                            0 <= i < before.len() && (#[trigger] before[i]).slug@
                                =~= fork@[t].slug@;
                        assert(models@[w].slug@ =~= fork@[t].slug@);
                    } else {
                        assert(models@[before.len() as int].slug@ =~= fork@[t].slug@);
                    }
                }
            }
        } else {
            proof {
                assert forall|t: int| 0 <= t < k + 1 implies has_slug(
                    models@,
                    (#[trigger] fork@[t]).slug@,
                ) by {}
            }
        }
        k = k + 1;
    }
    proof {
        assert(has_slug(fork@, "codex-MiniMax-M2.1"@) || true);
        assert(fork@[0].slug@ =~= "codex-MiniMax-M2.1"@);
        assert(fork@[1].slug@ =~= "MiniMax-M2.5"@);
        assert(fork@[2].slug@ =~= "glm-5"@);
        assert(fork@[3].slug@ =~= "glm-4.7"@);
    }
    models
}

/// A field-by-field copy of a catalog entry.
fn clone_model(m: &ModelInfo) -> (r: ModelInfo)
    ensures
        r.slug == m.slug,
        r.display_name == m.display_name,
        r.description == m.description,
        r.default_reasoning_level == m.default_reasoning_level,
        r.supported_reasoning_levels@ =~= m.supported_reasoning_levels@,
        r.uses_shell_command_tool == m.uses_shell_command_tool,
        r.listed == m.listed,
        r.supported_in_api == m.supported_in_api,
        r.priority == m.priority,
        r.uses_text_editor_instructions == m.uses_text_editor_instructions,
        r.structured_apply_patch == m.structured_apply_patch,
        r.truncation_policy_bytes == m.truncation_policy_bytes,
        r.supports_parallel_tool_calls == m.supports_parallel_tool_calls,
        r.context_window == m.context_window,
        r.effective_context_window_percent == m.effective_context_window_percent,
        r.supports_reasoning_summaries == m.supports_reasoning_summaries,
        r.prefer_websockets == m.prefer_websockets,
{
    let mut levels: Vec<ReasoningEffortPreset> = Vec::new();
    let n = m.supported_reasoning_levels.len();
    let mut i: usize = 0;
    while i < n
        invariant
            n == m.supported_reasoning_levels@.len(),
            i <= n,
            levels@ =~= m.supported_reasoning_levels@.take(i as int),
        decreases n - i,
    {
        let p = ReasoningEffortPreset {
            effort: m.supported_reasoning_levels[i].effort,
            description: m.supported_reasoning_levels[i].description.clone(),
        };
        levels.push(p);
        proof {
            assert(m.supported_reasoning_levels@.take(i as int + 1) =~= m
                .supported_reasoning_levels@.take(i as int).push(
                m.supported_reasoning_levels@[i as int],
            ));
            assert(levels@.last() == m.supported_reasoning_levels@[i as int]);
        }
        i = i + 1;
    }
    proof {
        assert(m.supported_reasoning_levels@.take(n as int) =~= m.supported_reasoning_levels@);
    }
    ModelInfo {
        slug: m.slug.clone(),
        display_name: m.display_name.clone(),
        description: match &m.description {
            Some(d) => Some(d.clone()),
            None => None,
        },
        default_reasoning_level: m.default_reasoning_level,
        supported_reasoning_levels: levels,
        uses_shell_command_tool: m.uses_shell_command_tool,
        listed: m.listed,
        supported_in_api: m.supported_in_api,
        priority: m.priority,
        uses_text_editor_instructions: m.uses_text_editor_instructions,
        structured_apply_patch: m.structured_apply_patch,
        truncation_policy_bytes: m.truncation_policy_bytes,
        supports_parallel_tool_calls: m.supports_parallel_tool_calls,
        context_window: m.context_window,
        effective_context_window_percent: m.effective_context_window_percent,
        supports_reasoning_summaries: m.supports_reasoning_summaries,
        prefer_websockets: m.prefer_websockets,
    }
}

/// Metadata fallback for third-party models the remote catalog does not
/// know.  Every matching family gets its context window and tooling set; any
/// other slug has no fallback.
pub fn fork_model_info_for_slug(slug: &str) -> (r: Option<ModelInfo>)
    ensures
        r is Some <==> (is_prefix_of("codex-MiniMax"@, slug@) || is_prefix_of("glm-"@, slug@)
            || is_prefix_of("xiaomi/mimo"@, slug@) || is_prefix_of("z-ai/glm"@, slug@)
            || is_prefix_of("google/gemini-2"@, slug@) || is_prefix_of("google/gemini-3"@, slug@)
            || is_prefix_of("openai/gpt-5"@, slug@)),
        r matches Some(m) ==> m.slug@ =~= slug@ && m.display_name@ =~= slug@,
        is_prefix_of("codex-MiniMax"@, slug@) ==> (r matches Some(m) && m.context_window == Some(
            200000i64,
        ) && m.uses_text_editor_instructions && m.structured_apply_patch
            && m.uses_shell_command_tool && !m.listed),
        !is_prefix_of("codex-MiniMax"@, slug@) && is_prefix_of("glm-"@, slug@) ==> (r matches Some(
            m,
        ) && m.context_window == Some(
            if is_prefix_of("glm-5"@, slug@) {
                200000i64
            } else {
                128000i64
            },
        ) && m.uses_text_editor_instructions && m.structured_apply_patch
            && m.uses_shell_command_tool),
        !is_prefix_of("codex-MiniMax"@, slug@) && !is_prefix_of("glm-"@, slug@) && is_prefix_of(
            "xiaomi/mimo"@,
            slug@,
        ) ==> (r matches Some(m) && m.context_window == Some(256000i64)
            && !m.uses_text_editor_instructions),
        !is_prefix_of("codex-MiniMax"@, slug@) && !is_prefix_of("glm-"@, slug@) && !is_prefix_of(
            "xiaomi/mimo"@,
            slug@,
        ) && is_prefix_of("z-ai/glm"@, slug@) ==> (r matches Some(m) && m.context_window == Some(
            128000i64,
        )),
        !is_prefix_of("codex-MiniMax"@, slug@) && !is_prefix_of("glm-"@, slug@) && !is_prefix_of(
            "xiaomi/mimo"@,
            slug@,
        ) && !is_prefix_of("z-ai/glm"@, slug@) && (is_prefix_of("google/gemini-2"@, slug@)
            || is_prefix_of("google/gemini-3"@, slug@)) ==> (r matches Some(m) && m.context_window
            == Some(1000000i64)),
        !is_prefix_of("codex-MiniMax"@, slug@) && !is_prefix_of("glm-"@, slug@) && !is_prefix_of(
            "xiaomi/mimo"@,
            slug@,
        ) && !is_prefix_of("z-ai/glm"@, slug@) && !is_prefix_of("google/gemini-2"@, slug@)
            && !is_prefix_of("google/gemini-3"@, slug@) && is_prefix_of("openai/gpt-5"@, slug@)
            ==> (r matches Some(m) && m.context_window == Some(272000i64)),
{
    if str_starts_with(slug, "codex-MiniMax") {
        let mut m = base_fallback_model(slug);
        m.uses_text_editor_instructions = true;
        m.structured_apply_patch = true;
        m.uses_shell_command_tool = true;
        m.context_window = Some(200000);
        return Some(m);
    }
    if str_starts_with(slug, "glm-") {
        let ctx: i64 = if str_starts_with(slug, "glm-5") {
            200000
        } else {
            128000
        };
        let mut m = base_fallback_model(slug);
        m.uses_text_editor_instructions = true;
        m.structured_apply_patch = true;
        m.uses_shell_command_tool = true;
        m.context_window = Some(ctx);
        return Some(m);
    }
    if str_starts_with(slug, "xiaomi/mimo") {
        let mut m = base_fallback_model(slug);
        m.context_window = Some(256000);
        return Some(m);
    }
    if str_starts_with(slug, "z-ai/glm") {
        let mut m = base_fallback_model(slug);
        m.context_window = Some(128000);
        return Some(m);
    }
    if str_starts_with(slug, "google/gemini-2") || str_starts_with(slug, "google/gemini-3") {
        let mut m = base_fallback_model(slug);
        m.context_window = Some(1000000);
        return Some(m);
    }
    if str_starts_with(slug, "openai/gpt-5") {
        let mut m = base_fallback_model(slug);
        m.context_window = Some(272000);
        return Some(m);
    }
    None
}

/// The unlisted fallback entry every unknown-to-the-catalog model starts
/// from: default tooling, no reasoning levels, not shown in the picker.
fn base_fallback_model(slug: &str) -> (m: ModelInfo)
    ensures
        m.slug@ =~= slug@,
        m.display_name@ =~= slug@,
        m.description is None,
        m.default_reasoning_level is None,
        m.supported_reasoning_levels@.len() == 0,
        !m.uses_shell_command_tool,
        !m.listed,
        m.supported_in_api,
        m.priority == 99i32,
        !m.uses_text_editor_instructions,
        !m.structured_apply_patch,
        m.truncation_policy_bytes == 10000i64,
        !m.supports_parallel_tool_calls,
        m.context_window == Some(272000i64),
        m.effective_context_window_percent == 95i64,
        !m.supports_reasoning_summaries,
        !m.prefer_websockets,
{
    ModelInfo {
        slug: slug.to_owned(),
        display_name: slug.to_owned(),
        description: None,
        default_reasoning_level: None,
        supported_reasoning_levels: Vec::new(),
        uses_shell_command_tool: false,
        listed: false,
        supported_in_api: true,
        priority: 99,
        uses_text_editor_instructions: false,
        structured_apply_patch: false,
        truncation_policy_bytes: 10000,
        supports_parallel_tool_calls: false,
        context_window: Some(272000),
        effective_context_window_percent: 95,
        supports_reasoning_summaries: false,
        prefer_websockets: false,
    }
}

} // verus!
