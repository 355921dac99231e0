use chat_compat::archiver::HistoryItem;
use chat_compat::archiver::is_system_message;
use chat_compat::archiver::serialize_history;
use chat_compat::archiver::strip_think_tags;
use chat_compat::archiver::truncate_text;
use chat_compat::events::ContentItem;

fn user_message(text: &str) -> HistoryItem {
    HistoryItem::Message {
        role: "user".to_string(),
        content: vec![ContentItem::InputText { text: text.to_string() }],
    }
}

fn assistant_message(text: &str) -> HistoryItem {
    HistoryItem::Message {
        role: "assistant".to_string(),
        content: vec![ContentItem::OutputText { text: text.to_string() }],
    }
}

#[test]
fn serialize_history_extracts_messages() {
    let items = vec![
        user_message("How does auth work?"),
        assistant_message("Auth uses JWT tokens."),
    ];
    let transcript = serialize_history(&items);
    assert!(transcript.contains("[user]\nHow does auth work?"));
    assert!(transcript.contains("[assistant]\nAuth uses JWT tokens."));
}

#[test]
fn serialize_history_includes_tool_calls() {
    let items = vec![
        user_message("Hello"),
        HistoryItem::FunctionCall {
            name: "text_editor".to_string(),
            arguments: "{\"command\":\"view\",\"path\":\"/src/main.rs\"}".to_string(),
        },
        HistoryItem::FunctionCallOutput { output: "fn main() {}".to_string() },
        HistoryItem::LocalShellCall {
            command: vec!["cargo".to_string(), "test".to_string()],
        },
    ];
    let transcript = serialize_history(&items);
    assert!(transcript.contains("[user]\nHello"));
    assert!(transcript.contains("[tool_call: text_editor]"));
    assert!(transcript.contains("{\"command\":\"view\",\"path\":\"/src/main.rs\"}"));
    assert!(transcript.contains("[tool_result]\nfn main() {}"));
    assert!(transcript.contains("[tool_call: shell]\ncargo test"));
}

#[test]
fn serialize_history_truncates_long_tool_results() {
    let long_output = "x".repeat(3000);
    let items = vec![HistoryItem::FunctionCallOutput { output: long_output }];
    let transcript = serialize_history(&items);
    assert!(transcript.contains("... [truncated]"));
    assert!(transcript.len() < 2200);
}

#[test]
fn serialize_history_empty() {
    let transcript = serialize_history(&Vec::new());
    assert_eq!(transcript, "");
}

#[test]
fn serialize_history_filters_system_messages() {
    let items = vec![
        HistoryItem::Message {
            role: "developer".to_string(),
            content: vec![ContentItem::InputText {
                text: "You are a helpful assistant.".to_string(),
            }],
        },
        user_message("# AGENTS.md\n\nCollaboration instructions..."),
        user_message("<permissions>\nallow all\n</permissions>"),
        user_message("<environment_context>\nOS: macOS\n</environment_context>"),
        user_message("[System: memory archiving complete.]"),
        user_message("How does auth work?"),
        assistant_message("Auth uses JWT tokens."),
    ];
    let transcript = serialize_history(&items);
    assert_eq!(
        transcript,
        "[user]\nHow does auth work?\n\n[assistant]\nAuth uses JWT tokens."
    );
}

#[test]
fn is_system_message_detects_known_prefixes() {
    assert!(is_system_message("<permissions>\nallow all\n</permissions>"));
    assert!(is_system_message("# AGENTS.md\ncontent"));
    assert!(is_system_message("<environment_context>\nOS: macOS"));
    assert!(is_system_message("<INSTRUCTIONS>\nsome instructions"));
    assert!(is_system_message("<collaboration_mode>\nmode"));
    assert!(is_system_message("[System: memory archiving complete.]"));
    assert!(is_system_message("  <permissions>\nindented"));
}

#[test]
fn is_system_message_allows_normal_text() {
    assert!(!is_system_message("How does auth work?"));
    assert!(!is_system_message("Hello, can you help me?"));
    assert!(!is_system_message(""));
}

#[test]
fn truncate_text_short_string() {
    assert_eq!(truncate_text("hello", 10), "hello");
}

#[test]
fn truncate_text_exact_limit() {
    let text = "a".repeat(100);
    assert_eq!(truncate_text(&text, 100), text);
}

#[test]
fn truncate_text_over_limit() {
    let text = "a".repeat(200);
    let result = truncate_text(&text, 100);
    assert!(result.ends_with("... [truncated]"));
    assert!(result.len() < 200);
}

#[test]
fn truncate_text_respects_character_boundaries() {
    let text = "aaé".repeat(50);
    let result = truncate_text(&text, 5);
    assert!(result.ends_with("... [truncated]"));
    assert!(result.starts_with("aa"));
}

#[test]
fn strip_think_tags_removes_blocks() {
    let input = "<think>\nLet me check the code.\n</think>\nHere is the answer.";
    assert_eq!(strip_think_tags(input), "Here is the answer.");
}

#[test]
fn strip_think_tags_no_tags() {
    assert_eq!(strip_think_tags("plain text"), "plain text");
}

#[test]
fn strip_think_tags_multiple_blocks() {
    let input = "<think>first</think>middle<think>second</think>end";
    assert_eq!(strip_think_tags(input), "middleend");
}

#[test]
fn strip_think_tags_unclosed() {
    let input = "before<think>unclosed reasoning";
    assert_eq!(strip_think_tags(input), "before");
}

#[test]
fn serialize_history_strips_think_from_assistant() {
    let items = vec![assistant_message(
        "<think>\nLet me reason.\n</think>\nThe answer is 42.",
    )];
    let transcript = serialize_history(&items);
    assert_eq!(transcript, "[assistant]\nThe answer is 42.");
    assert!(!transcript.contains("<think>"));
}
