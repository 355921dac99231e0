use chat_compat::catalog::fork_model_info_for_slug;
use chat_compat::catalog::merge_with_fork_models;
use chat_compat::catalog::minimax_model;

#[test]
fn merge_adds_missing_fork_models() {
    let merged = merge_with_fork_models(Vec::new());
    let slugs: Vec<&str> = merged.iter().map(|model| model.slug.as_str()).collect();
    assert!(slugs.contains(&"codex-MiniMax-M2.1"));
    assert!(slugs.contains(&"MiniMax-M2.5"));
    assert!(slugs.contains(&"glm-5"));
    assert!(slugs.contains(&"glm-4.7"));
}

#[test]
fn merge_does_not_duplicate_existing_models() {
    let existing = vec![minimax_model("MiniMax-M2.5", 200_000, 201)];
    let merged = merge_with_fork_models(existing);
    let count = merged.iter().filter(|model| model.slug == "MiniMax-M2.5").count();
    assert_eq!(count, 1);
}

#[test]
fn minimax_fallback_metadata() {
    let m = fork_model_info_for_slug("codex-MiniMax-M2.1").expect("expected fallback");
    assert_eq!(m.slug, "codex-MiniMax-M2.1");
    assert_eq!(m.context_window, Some(200_000));
    assert!(m.structured_apply_patch);
    assert!(m.uses_shell_command_tool);
    assert!(m.uses_text_editor_instructions);
}

#[test]
fn glm_fallback_context_window_depends_on_generation() {
    assert_eq!(
        fork_model_info_for_slug("glm-5").expect("glm-5").context_window,
        Some(200_000)
    );
    assert_eq!(
        fork_model_info_for_slug("glm-4.7").expect("glm-4.7").context_window,
        Some(128_000)
    );
}

#[test]
fn openrouter_fallback_context_windows() {
    assert_eq!(
        fork_model_info_for_slug("xiaomi/mimo-v2").expect("mimo").context_window,
        Some(256_000)
    );
    assert_eq!(
        fork_model_info_for_slug("z-ai/glm-4.5").expect("z-ai").context_window,
        Some(128_000)
    );
    assert_eq!(
        fork_model_info_for_slug("google/gemini-2.0-flash").expect("gemini").context_window,
        Some(1_000_000)
    );
    assert_eq!(
        fork_model_info_for_slug("openai/gpt-5").expect("gpt-5").context_window,
        Some(272_000)
    );
}

#[test]
fn unknown_slug_has_no_fallback() {
    assert!(fork_model_info_for_slug("gpt-5.2-codex").is_none());
    assert!(fork_model_info_for_slug("other-model").is_none());
}
