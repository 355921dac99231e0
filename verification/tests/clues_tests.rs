use chat_compat::clues::MemoryClue;
use chat_compat::clues::MemoryType;
use chat_compat::clues::build_clues_prompt;
use chat_compat::clues::clues_need_regeneration;
use chat_compat::clues::compose_base_instructions_with_memory;
use chat_compat::clues::format_clues;

#[test]
fn format_clues_empty() {
    assert_eq!(format_clues(&Vec::new()), "No memories yet.\n");
}

#[test]
fn format_clues_mixed() {
    let clues = vec![
        MemoryClue {
            keywords: vec!["auth".to_string(), "JWT".to_string()],
            filename: "semantic/auth-flow.md".to_string(),
            summary: "JWT auth flow".to_string(),
            memory_type: MemoryType::Semantic,
            expires: None,
        },
        MemoryClue {
            keywords: vec!["bug-fix".to_string()],
            filename: "episodic/csrf-fix.md".to_string(),
            summary: "Fixed CSRF".to_string(),
            memory_type: MemoryType::Episodic,
            expires: Some("2026-03-15".to_string()),
        },
    ];
    let result = format_clues(&clues);
    assert!(result.contains("### Semantic Memories"));
    assert!(result.contains("[auth, JWT] \u{2192} semantic/auth-flow.md"));
    assert!(result.contains("### Episodic Memories"));
    assert!(result.contains("(expires: 2026-03-15)"));
    assert!(result.contains("desc: Fixed CSRF"));
}

#[test]
fn clue_template_renders() {
    let rendered = build_clues_prompt("test clues").expect("expected a rendered prompt");
    assert!(rendered.contains("## Project Memory"));
    assert!(rendered.contains("test clues"));
    assert!(rendered.contains("memory_retrieve"));
}

#[test]
fn clues_prompt_is_none_for_blank_content() {
    assert!(build_clues_prompt("   \n  \n").is_none());
    assert!(build_clues_prompt("").is_none());
}

#[test]
fn compose_returns_unchanged_when_experiment_disabled() {
    let base = "original instructions";
    let result = compose_base_instructions_with_memory(base, false, None, Some("clues"));
    assert_eq!(result, base);
}

#[test]
fn compose_appends_clues_when_experiment_enabled() {
    let base = "original instructions";
    let clues = build_clues_prompt("### Semantic Memories\n- [test]").unwrap();
    let result = compose_base_instructions_with_memory(base, true, None, Some(clues.as_str()));
    assert!(result.starts_with(base));
    assert!(result.contains("Project Memory"));
}

#[test]
fn compose_unchanged_when_no_clues_exist() {
    let base = "original instructions";
    let result = compose_base_instructions_with_memory(base, true, None, None);
    assert_eq!(result, base);
}

#[test]
fn regeneration_needed_only_when_memories_lack_an_index() {
    assert!(clues_need_regeneration(false, false, false));
    assert!(clues_need_regeneration(false, true, true));
    assert!(!clues_need_regeneration(false, true, false));
    assert!(!clues_need_regeneration(true, false, false));
}
