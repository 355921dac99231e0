use chat_compat::providers::ModelProviderInfo;
use chat_compat::providers::WireApi;
use chat_compat::providers::chat_reasoning_format;
use chat_compat::providers::create_minimax_provider;
use chat_compat::providers::create_openrouter_provider;
use chat_compat::providers::create_zhipu_provider;
use chat_compat::providers::provider_for_model_slug;
use chat_compat::providers::provider_for_preset;
use chat_compat::providers::register_fork_providers;
use chat_compat::splitter::ChatReasoningFormat;

#[test]
fn openrouter_presets_return_openrouter() {
    assert_eq!(Some("openrouter"), provider_for_preset("openrouter/z-ai/glm-4.5-air:free"));
    assert_eq!(
        Some("openrouter"),
        provider_for_preset("openrouter/google/gemini-2.0-flash-001")
    );
}

#[test]
fn minimax_presets_return_minimax() {
    assert_eq!(Some("minimax"), provider_for_preset("minimax/codex-MiniMax-M2.1"));
    assert_eq!(Some("minimax"), provider_for_preset("minimax/MiniMax-M2.5"));
}

#[test]
fn volcengine_presets_return_volcengine() {
    assert_eq!(Some("volcengine"), provider_for_preset("volcengine/ark-code-latest"));
}

#[test]
fn zhipu_presets_return_zhipu() {
    assert_eq!(Some("zhipu"), provider_for_preset("zhipu/glm-5"));
    assert_eq!(Some("zhipu"), provider_for_preset("zhipu/glm-4.7"));
}

#[test]
fn builtin_openai_presets_return_none() {
    assert_eq!(None, provider_for_preset("gpt-5.2-codex"));
    assert_eq!(None, provider_for_preset("gpt-5.1-codex-mini"));
}

#[test]
fn unknown_provider_prefix_returns_none() {
    assert_eq!(None, provider_for_preset("unknown/some-model"));
}

#[test]
fn minimax_raw_slug_returns_minimax() {
    assert_eq!(Some("minimax"), provider_for_preset("MiniMax-M2.5"));
    assert_eq!(Some("minimax"), provider_for_preset("codex-MiniMax-M2.1"));
}

#[test]
fn zhipu_raw_slug_returns_zhipu() {
    assert_eq!(Some("zhipu"), provider_for_preset("glm-5"));
    assert_eq!(Some("zhipu"), provider_for_preset("glm-4.7"));
}

#[test]
fn model_slug_resolution_matches_preset_resolution() {
    assert_eq!(Some("minimax".to_string()), provider_for_model_slug("MiniMax-M2.5"));
    assert_eq!(None, provider_for_model_slug("gpt-5.2-codex"));
}

#[test]
fn register_fork_providers_adds_three_providers() {
    let mut providers: Vec<(String, ModelProviderInfo)> = Vec::new();
    register_fork_providers(&mut providers);
    let ids: Vec<&str> = providers.iter().map(|p| p.0.as_str()).collect();
    assert_eq!(ids, vec!["openrouter", "minimax", "zhipu"]);
    assert_eq!(providers[0].1.wire_api, WireApi::Responses);
    assert_eq!(providers[1].1.wire_api, WireApi::Chat);
    assert_eq!(providers[2].1.wire_api, WireApi::Chat);
}

#[test]
fn register_replaces_existing_entry_under_same_id() {
    let stale = ModelProviderInfo {
        name: "Stale".to_string(),
        base_url: None,
        env_key: None,
        env_key_instructions: None,
        wire_api: WireApi::Responses,
        query_params: Vec::new(),
        http_headers: Vec::new(),
        env_http_headers: Vec::new(),
        request_max_retries: None,
        stream_max_retries: None,
        stream_idle_timeout_ms: None,
        requires_openai_auth: false,
        supports_websockets: false,
        system_role: None,
    };
    let mut providers = vec![
        ("minimax".to_string(), stale.clone()),
        ("other".to_string(), stale),
    ];
    register_fork_providers(&mut providers);
    let minimax_entries: Vec<&ModelProviderInfo> = providers
        .iter()
        .filter(|p| p.0 == "minimax")
        .map(|p| &p.1)
        .collect();
    assert_eq!(minimax_entries.len(), 1);
    assert_eq!(minimax_entries[0].name, "MiniMax");
    assert_eq!(providers[1].0, "other");
    assert_eq!(providers[1].1.name, "Stale");
}

#[test]
fn openrouter_provider_configuration() {
    let p = create_openrouter_provider();
    assert_eq!(p.name, "OpenRouter");
    assert_eq!(p.base_url.as_deref(), Some("https://openrouter.ai/api/v1"));
    assert_eq!(p.env_key.as_deref(), Some("OPENROUTER_API_KEY"));
    assert_eq!(p.http_headers.len(), 2);
    assert_eq!(p.http_headers[0].0, "HTTP-Referer");
    assert!(!p.requires_openai_auth);
}

#[test]
fn minimax_provider_configuration() {
    let p = create_minimax_provider();
    assert_eq!(p.name, "MiniMax");
    assert_eq!(p.base_url.as_deref(), Some("https://api.minimaxi.com/v1"));
    assert_eq!(p.wire_api, WireApi::Chat);
    assert_eq!(p.stream_idle_timeout_ms, Some(300000));
    assert_eq!(p.request_max_retries, Some(4));
}

#[test]
fn zhipu_provider_configuration() {
    let p = create_zhipu_provider();
    assert_eq!(p.name, "Zhipu");
    assert_eq!(p.base_url.as_deref(), Some("https://open.bigmodel.cn/api/coding/paas/v4"));
    assert_eq!(p.stream_max_retries, Some(10));
}

#[test]
fn reasoning_format_defaults_to_standard() {
    let p = create_minimax_provider();
    assert_eq!(chat_reasoning_format(&p), ChatReasoningFormat::Standard);
}
