use chat_compat::edit::EditError;
use chat_compat::edit::generate_create_patch;
use chat_compat::edit::generate_delete_patch;
use chat_compat::edit::generate_str_replace_patch;
use chat_compat::tools::JsonSchema;
use chat_compat::tools::StructuredEditHandler;
use chat_compat::tools::ToolKind;
use chat_compat::tools::ToolSpec;
use chat_compat::tools::create_text_editor_tool;

#[test]
fn create_patch_has_expected_shape() {
    let patch = generate_create_patch("new_file.txt", "hello\nworld\n");
    assert_eq!(
        patch,
        "*** Begin Patch\n*** Add File: new_file.txt\n+hello\n+world\n*** End Patch\n"
    );
}

#[test]
fn create_patch_handles_missing_final_newline() {
    let patch = generate_create_patch("f.txt", "solo");
    assert_eq!(patch, "*** Begin Patch\n*** Add File: f.txt\n+solo\n*** End Patch\n");
}

#[test]
fn delete_patch_has_expected_shape() {
    let patch = generate_delete_patch("to_delete.txt");
    assert_eq!(patch, "*** Begin Patch\n*** Delete File: to_delete.txt\n*** End Patch\n");
}

#[test]
fn str_replace_produces_update_patch() {
    let file_content = "line one\nline two\nline three\nline four\nline five\n";
    let patch =
        generate_str_replace_patch("test.txt", "line two", "line TWO", file_content).unwrap();
    assert!(patch.starts_with("*** Begin Patch\n*** Update File: test.txt\n@@\n"));
    assert!(patch.contains("-line two\n"));
    assert!(patch.contains("+line TWO\n"));
    assert!(patch.ends_with("*** End Patch\n"));
}

#[test]
fn str_replace_includes_context_lines() {
    let file_content = "aaa\nbbb\nccc\nddd\nTARGET\neee\nfff\nggg\nhhh\n";
    let patch = generate_str_replace_patch("f.txt", "TARGET", "REPLACED", file_content).unwrap();
    assert!(patch.contains(" bbb\n"));
    assert!(patch.contains(" ccc\n"));
    assert!(patch.contains(" ddd\n"));
    assert!(patch.contains("-TARGET\n"));
    assert!(patch.contains("+REPLACED\n"));
    assert!(patch.contains(" eee\n"));
    assert!(patch.contains(" fff\n"));
    assert!(patch.contains(" ggg\n"));
}

#[test]
fn str_replace_not_found_errors() {
    let result = generate_str_replace_patch("f.txt", "MISSING", "x", "hello\nworld\n");
    assert!(result.is_err());
    let EditError::RespondToModel(msg) = result.unwrap_err();
    assert!(msg.contains("not found"));
}

#[test]
fn str_replace_multiple_matches_errors() {
    let result = generate_str_replace_patch("f.txt", "line", "x", "line\nline\n");
    assert!(result.is_err());
    let EditError::RespondToModel(msg) = result.unwrap_err();
    assert!(msg.contains("appears 2 times"));
}

#[test]
fn str_replace_near_file_start() {
    let file_content = "first\nsecond\nthird\nfourth\n";
    let patch = generate_str_replace_patch("f.txt", "first", "FIRST", file_content).unwrap();
    assert!(patch.contains("-first\n"));
    assert!(patch.contains("+FIRST\n"));
    assert!(patch.contains(" second\n"));
}

#[test]
fn str_replace_near_file_end() {
    let file_content = "aaa\nbbb\nccc\nlast\n";
    let patch = generate_str_replace_patch("f.txt", "last", "LAST", file_content).unwrap();
    assert!(patch.contains("-last\n"));
    assert!(patch.contains("+LAST\n"));
    assert!(patch.contains(" ccc\n"));
}

#[test]
fn str_replace_spanning_lines() {
    let file_content = "alpha\nbeta\ngamma\n";
    let patch =
        generate_str_replace_patch("f.txt", "beta\ngamma", "delta", file_content).unwrap();
    assert!(patch.contains("-beta\n"));
    assert!(patch.contains("-gamma\n"));
    assert!(patch.contains("+delta\n"));
}

#[test]
fn build_patch_dispatches_commands() {
    let handler = StructuredEditHandler;
    assert_eq!(handler.kind(), ToolKind::Function);
    assert!(handler.is_mutating());

    let created = handler
        .build_patch("create", "a.txt", Some("hi\n".to_string()), None, None, None)
        .unwrap();
    assert!(created.contains("*** Add File: a.txt"));

    let deleted = handler.build_patch("delete", "a.txt", None, None, None, None).unwrap();
    assert!(deleted.contains("*** Delete File: a.txt"));

    let missing_text = handler.build_patch("create", "a.txt", None, None, None, None);
    assert!(missing_text.is_err());

    let unknown = handler.build_patch("frobnicate", "a.txt", None, None, None, None);
    let EditError::RespondToModel(msg) = unknown.unwrap_err();
    assert!(msg.contains("unknown command 'frobnicate'"));

    let replaced = handler
        .build_patch(
            "str_replace",
            "a.txt",
            None,
            Some("old".to_string()),
            Some("new".to_string()),
            Some("before\nold\nafter\n".to_string()),
        )
        .unwrap();
    assert!(replaced.contains("-old\n"));
    assert!(replaced.contains("+new\n"));

    let missing_old = handler.build_patch(
        "str_replace",
        "a.txt",
        None,
        None,
        None,
        Some("content".to_string()),
    );
    assert!(missing_old.is_err());
}

#[test]
fn text_editor_tool_spec_shape() {
    let ToolSpec::Function(f) = create_text_editor_tool();
    assert_eq!(f.name, "text_editor");
    assert!(!f.strict);
    match f.parameters {
        JsonSchema::Object { properties, required, additional_properties } => {
            let keys: Vec<&str> = properties.iter().map(|p| p.0.as_str()).collect();
            assert_eq!(keys, vec!["command", "file_text", "new_str", "old_str", "path"]);
            assert_eq!(required.unwrap(), vec!["command".to_string(), "path".to_string()]);
            assert_eq!(additional_properties, Some(false));
        },
        _ => panic!("expected object schema"),
    }
}
