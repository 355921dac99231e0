use chat_compat::clues::MemoryType;
use chat_compat::expiration::should_prune;
use chat_compat::frontmatter::parse_frontmatter;
use chat_compat::retrieve::format_memory_files;
use chat_compat::retrieve::retrieval_outcome;
use chat_compat::retrieve::wrap_retrieved_output;
use chat_compat::tools::JsonSchema;
use chat_compat::tools::MemoryRetrieveHandler;
use chat_compat::tools::ToolKind;
use chat_compat::tools::ToolSpec;
use chat_compat::tools::tool_spec;

#[test]
fn parse_frontmatter_roundtrip() {
    let input = "---\ntype: semantic\nkeywords: [auth, JWT]\nrelated_files: [src/auth.rs]\nsummary: Auth flow\ncreated: \"2026-02-10T14:32:00Z\"\nlast_updated: \"2026-02-13T09:15:00Z\"\n---\n\n# Authentication Flow\nJWT-based auth.\n";
    let (meta, body) = parse_frontmatter(input).unwrap();
    assert_eq!(meta.memory_type, MemoryType::Semantic);
    assert_eq!(meta.keywords, vec!["auth", "JWT"]);
    assert_eq!(meta.summary, "Auth flow");
    assert_eq!(meta.expires, None);
    assert!(body.contains("Authentication Flow"));
}

#[test]
fn parse_frontmatter_episodic_with_expires() {
    let input = "---\ntype: episodic\nkeywords: [bug-fix, CSRF]\nsummary: Fixed CSRF bug\ncreated: \"2026-02-13T00:00:00Z\"\nlast_updated: \"2026-02-13T00:00:00Z\"\nexpires: \"2026-03-15T00:00:00Z\"\n---\n\nFixed the CSRF token validation.\n";
    let (meta, body) = parse_frontmatter(input).unwrap();
    assert_eq!(meta.memory_type, MemoryType::Episodic);
    assert_eq!(meta.expires, Some("2026-03-15T00:00:00Z".to_string()));
    assert!(body.contains("CSRF token"));
}

#[test]
fn parse_frontmatter_returns_none_for_missing_delimiters() {
    assert!(parse_frontmatter("no frontmatter here").is_none());
    assert!(parse_frontmatter("---\nno closing delimiter").is_none());
}

#[test]
fn parse_frontmatter_requires_mandatory_fields() {
    let missing_keywords =
        "---\ntype: semantic\nsummary: s\ncreated: \"x\"\nlast_updated: \"y\"\n---\nbody";
    assert!(parse_frontmatter(missing_keywords).is_none());
    let bad_type =
        "---\ntype: procedural\nkeywords: [a]\nsummary: s\ncreated: \"x\"\nlast_updated: \"y\"\n---\nbody";
    assert!(parse_frontmatter(bad_type).is_none());
}

#[test]
fn prune_decision_by_rfc3339_timestamp() {
    let now = 1_750_000_000i64;
    assert!(should_prune(&Some("2020-06-01T00:00:00Z".to_string()), now));
    assert!(!should_prune(&Some("2050-06-01T00:00:00Z".to_string()), now));
}

#[test]
fn prune_decision_handles_date_only_format() {
    let now = 1_750_000_000i64;
    assert!(should_prune(&Some("2020-06-01".to_string()), now));
    assert!(!should_prune(&Some("2050-06-01".to_string()), now));
}

#[test]
fn prune_preserves_files_without_expires_field() {
    assert!(!should_prune(&None, 1_750_000_000));
}

#[test]
fn prune_ignores_unparseable_timestamps() {
    assert!(!should_prune(&Some("sometime soon".to_string()), 1_750_000_000));
}

#[test]
fn memory_files_assembled_with_separators() {
    let files = vec![
        ("semantic/auth.md".to_string(), Some("Auth content.\n".to_string())),
        ("semantic/db.md".to_string(), Some("DB content.".to_string())),
    ];
    let out = format_memory_files(&files);
    assert!(out.contains("## File: semantic/auth.md"));
    assert!(out.contains("Auth content."));
    assert!(out.contains("## File: semantic/db.md"));
    assert!(out.contains("DB content."));
    assert!(out.contains("---"));
}

#[test]
fn memory_files_mixed_found_and_missing() {
    let files = vec![
        ("semantic/real.md".to_string(), Some("Real content.".to_string())),
        ("semantic/missing.md".to_string(), None),
    ];
    let out = format_memory_files(&files);
    assert!(out.contains("## File: semantic/real.md"));
    assert!(out.contains("Real content."));
    assert!(out.contains("[File not found: semantic/missing.md]"));
}

#[test]
fn memory_files_none_found() {
    let files = vec![("nonexistent.md".to_string(), None)];
    assert_eq!(format_memory_files(&files), "No matching memory files found.");
}

#[test]
fn retrieval_outcome_messages() {
    assert_eq!(retrieval_outcome(true, false, None), "No memories found for this project.");
    assert_eq!(
        retrieval_outcome(false, false, None),
        "No relevant memories found for your query."
    );
    assert_eq!(retrieval_outcome(false, true, None), "Memory retrieval was interrupted.");
    assert_eq!(
        retrieval_outcome(false, true, Some("synthesis".to_string())),
        "synthesis"
    );
}

#[test]
fn retrieved_output_is_wrapped() {
    assert_eq!(
        wrap_retrieved_output("facts"),
        "<memory triggered>\nfacts\n</memory triggered>"
    );
}

#[test]
fn memory_retrieve_tool_spec_shape() {
    let handler = MemoryRetrieveHandler;
    assert_eq!(handler.kind(), ToolKind::Function);
    let ToolSpec::Function(f) = tool_spec();
    assert_eq!(f.name, "memory_retrieve");
    match f.parameters {
        JsonSchema::Object { properties, required, .. } => {
            assert_eq!(properties.len(), 1);
            assert_eq!(properties[0].0, "query");
            assert_eq!(required.unwrap(), vec!["query".to_string()]);
        },
        _ => panic!("expected object schema"),
    }
}
