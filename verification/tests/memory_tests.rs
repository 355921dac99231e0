use chat_compat::catalog::ReasoningEffort;
use chat_compat::memory::ExperimentConfig;
use chat_compat::memory::ExperimentConfigRaw;
use chat_compat::memory::get_project_memory_root;
use chat_compat::memory::is_enabled;

fn empty_raw() -> ExperimentConfigRaw {
    ExperimentConfigRaw::default()
}

#[test]
fn project_memory_root_is_deterministic() {
    let home = "/tmp/codex_home";
    let cwd = "/tmp/no_git_repo_here";
    let root1 = get_project_memory_root(home, cwd);
    let root2 = get_project_memory_root(home, cwd);
    assert_eq!(root1, root2);
    assert!(root1.starts_with("/tmp/codex_home/memories_experiment"));
}

#[test]
fn project_memory_root_uses_folder_name() {
    let root = get_project_memory_root("/tmp/codex_home", "/tmp/my-project");
    assert_eq!(root, "/tmp/codex_home/memories_experiment/my-project");
}

#[test]
fn different_cwds_produce_different_roots() {
    let home = "/tmp/codex_home";
    let root_a = get_project_memory_root(home, "/project/a");
    let root_b = get_project_memory_root(home, "/project/b");
    assert_ne!(root_a, root_b);
}

#[test]
fn root_path_falls_back_to_hash() {
    let root = get_project_memory_root("/tmp/codex_home", "/");
    let name = root.rsplit('/').next().unwrap();
    assert_eq!(name.len(), 16);
    assert!(name.chars().all(|c| c.is_ascii_hexdigit()));
}

#[test]
fn is_enabled_returns_false_when_no_config_and_no_flag() {
    assert!(!is_enabled(false, false));
}

#[test]
fn is_enabled_returns_true_when_feature_flag_enabled() {
    assert!(is_enabled(true, false));
}

#[test]
fn is_enabled_returns_true_when_project_config_exists() {
    assert!(is_enabled(false, true));
}

#[test]
fn experiment_config_defaults() {
    let config = ExperimentConfig::default();
    assert_eq!(config.retrieval_model, "MiniMax-M2.5");
    assert_eq!(config.retrieval_provider, Some("minimax".to_string()));
    assert_eq!(config.retrieval_reasoning_effort, None);
    assert_eq!(config.archive_model, "MiniMax-M2.5");
    assert_eq!(config.archive_provider, Some("minimax".to_string()));
    assert_eq!(config.archive_reasoning_effort, None);
    assert_eq!(config.episodic_expiry_days, 30);
}

#[test]
fn raw_config_merge_project_overrides_global() {
    let mut global = empty_raw();
    global.retrieval_model = Some("global-model".to_string());
    global.retrieval_provider = Some("openai".to_string());
    let mut project = empty_raw();
    project.retrieval_model = Some("project-model".to_string());
    let merged = global.merge(project);
    assert_eq!(merged.retrieval_model, Some("project-model".to_string()));
    assert_eq!(merged.retrieval_provider, Some("openai".to_string()));
}

#[test]
fn raw_config_into_config_applies_defaults() {
    let raw = empty_raw();
    let config: ExperimentConfig = raw.into_config();
    assert_eq!(config, ExperimentConfig::default());
}

#[test]
fn raw_config_into_config_keeps_explicit_values() {
    let mut raw = empty_raw();
    raw.retrieval_model = Some("custom-model".to_string());
    raw.episodic_expiry_days = Some(7);
    raw.archive_reasoning_effort = Some(ReasoningEffort::Medium);
    let config = raw.into_config();
    assert_eq!(config.retrieval_model, "custom-model");
    assert_eq!(config.episodic_expiry_days, 7);
    assert_eq!(config.archive_reasoning_effort, Some(ReasoningEffort::Medium));
    assert_eq!(config.archive_model, "MiniMax-M2.5");
}

#[test]
fn layered_merge_matches_global_then_project() {
    let mut global = empty_raw();
    global.retrieval_model = Some("global-retrieval".to_string());
    global.archive_model = Some("global-archive".to_string());
    let mut project = empty_raw();
    project.retrieval_model = Some("project-retrieval".to_string());
    let config = global.merge(project).into_config();
    assert_eq!(config.retrieval_model, "project-retrieval");
    assert_eq!(config.archive_model, "global-archive");
    assert_eq!(config.retrieval_provider, Some("minimax".to_string()));
}
