use chat_compat::request::inject_zhipu_params;
use chat_compat::request::merge_split_assistant_messages;
use serde_json::Value;

fn messages(json: &str) -> Vec<Value> {
    serde_json::from_str(json).expect("test fixture parses")
}

#[test]
fn merges_split_assistant_content_and_tool_calls() {
    let input = messages(
        "[{\"role\":\"system\",\"content\":\"You are helpful.\"},{\"role\":\"user\",\"content\":\"Do something\"},{\"role\":\"assistant\",\"content\":\"<think>plan</think>I'll do it\"},{\"role\":\"assistant\",\"content\":null,\"tool_calls\":[{\"id\":\"call_1\",\"type\":\"function\",\"function\":{\"name\":\"shell\",\"arguments\":\"{}\"}}]},{\"role\":\"tool\",\"tool_call_id\":\"call_1\",\"content\":\"done\"}]",
    );
    let merged = merge_split_assistant_messages(input);
    assert_eq!(merged.len(), 4);
    assert_eq!(merged[2]["role"], "assistant");
    assert_eq!(merged[2]["content"], "<think>plan</think>I'll do it");
    assert!(merged[2]["tool_calls"].is_array());
    assert_eq!(merged[2]["tool_calls"][0]["id"], "call_1");
}

#[test]
fn preserves_reasoning_field_during_merge() {
    let input = messages(
        "[{\"role\":\"assistant\",\"content\":\"text\",\"reasoning\":\"thought\"},{\"role\":\"assistant\",\"content\":null,\"tool_calls\":[{\"id\":\"c1\",\"type\":\"function\",\"function\":{\"name\":\"f\",\"arguments\":\"{}\"}}]}]",
    );
    let merged = merge_split_assistant_messages(input);
    assert_eq!(merged.len(), 1);
    assert_eq!(merged[0]["content"], "text");
    assert_eq!(merged[0]["reasoning"], "thought");
    assert!(merged[0]["tool_calls"].is_array());
}

#[test]
fn does_not_merge_when_already_combined() {
    let input = messages(
        "[{\"role\":\"assistant\",\"content\":\"hello\",\"tool_calls\":[{\"id\":\"c1\",\"type\":\"function\",\"function\":{\"name\":\"f\",\"arguments\":\"{}\"}}]}]",
    );
    let merged = merge_split_assistant_messages(input);
    assert_eq!(merged.len(), 1);
}

#[test]
fn does_not_merge_non_consecutive_roles() {
    let input = messages(
        "[{\"role\":\"assistant\",\"content\":\"hello\"},{\"role\":\"user\",\"content\":\"world\"},{\"role\":\"assistant\",\"content\":null,\"tool_calls\":[{\"id\":\"c1\",\"type\":\"function\",\"function\":{\"name\":\"f\",\"arguments\":\"{}\"}}]}]",
    );
    let merged = merge_split_assistant_messages(input);
    assert_eq!(merged.len(), 3);
}

#[test]
fn handles_multiple_split_pairs() {
    let input = messages(
        "[{\"role\":\"assistant\",\"content\":\"first\"},{\"role\":\"assistant\",\"content\":null,\"tool_calls\":[{\"id\":\"c1\",\"type\":\"function\",\"function\":{\"name\":\"f1\",\"arguments\":\"{}\"}}]},{\"role\":\"tool\",\"tool_call_id\":\"c1\",\"content\":\"r1\"},{\"role\":\"assistant\",\"content\":\"second\"},{\"role\":\"assistant\",\"content\":null,\"tool_calls\":[{\"id\":\"c2\",\"type\":\"function\",\"function\":{\"name\":\"f2\",\"arguments\":\"{}\"}}]},{\"role\":\"tool\",\"tool_call_id\":\"c2\",\"content\":\"r2\"}]",
    );
    let merged = merge_split_assistant_messages(input);
    assert_eq!(merged.len(), 4);
    assert_eq!(merged[0]["content"], "first");
    assert!(merged[0]["tool_calls"].is_array());
    assert_eq!(merged[2]["content"], "second");
    assert!(merged[2]["tool_calls"].is_array());
}

#[test]
fn zhipu_params_are_injected() {
    let mut body: Value =
        serde_json::from_str("{\"model\":\"glm-5\",\"messages\":[]}").expect("fixture");
    inject_zhipu_params(&mut body);
    assert_eq!(body["thinking"]["type"], "enabled");
    assert_eq!(body["tool_stream"], true);
}
