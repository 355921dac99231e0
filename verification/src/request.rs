//! Outbound-request fixups for chat-completions providers: merging the
//! split assistant message pair, and the extra parameters one provider
//! needs.  The messages are opaque JSON values, so the contracts here say
//! only that the message list never grows; the merge decision is plain
//! verified-total code over whatever the JSON accessors answer, with its
//! behaviour covered by tests.

use vstd::prelude::*;

use crate::json::json_clone;
use crate::json::json_get;
use crate::json::json_is_null;
use crate::json::json_object_insert;
use crate::json::json_parse;
use crate::json::json_as_string;
use crate::text::str_eq;

verus! {

/// Whether a message carries the given role.
fn has_role(message: &serde_json::Value, role: &str) -> (r: bool) {
    match json_get(message, "role") {
        Some(v) => match json_as_string(v) {
            Some(s) => str_eq(s.as_str(), role),
            None => false,
        },
        None => false,
    }
}

/// Whether an adjacent pair of messages is one assistant turn split in two:
/// first the content, then the tool calls with a null content.
fn should_merge_pair(a: &serde_json::Value, b: &serde_json::Value) -> (r: bool) {
    let a_assistant = has_role(a, "assistant");
    let b_assistant = has_role(b, "assistant");
    let a_has_content = match json_get(a, "content") {
        Some(c) => !json_is_null(c),
        None => false,
    };
    let a_has_tool_calls = json_get(a, "tool_calls").is_some();
    let b_has_tool_calls = json_get(b, "tool_calls").is_some();
    let b_content_null_or_absent = match json_get(b, "content") {
        Some(c) => json_is_null(c),
        None => true,
    };
    a_assistant && b_assistant && a_has_content && !a_has_tool_calls && b_has_tool_calls
        && b_content_null_or_absent
}

/// Merges consecutive assistant messages where the first carries the
/// content and the second the tool calls: the chat-completions format
/// expects one message carrying both, and a split pair confuses providers
/// on the next turn.  The loop re-checks the merged position, so runs of
/// splits collapse; the result never grows.
pub fn merge_split_assistant_messages(messages: Vec<serde_json::Value>) -> (r: Vec<
    serde_json::Value,
>)
    ensures
        r@.len() <= messages@.len(),
{
    let mut messages = messages;
    let mut i: usize = 0;
    let ghost n0 = messages@.len();
    while messages.len() > 0 && i < messages.len() - 1
        invariant
            messages@.len() <= n0,
            i <= messages@.len(),
        decreases messages@.len() - i,
    {
        let merge = should_merge_pair(&messages[i], &messages[i + 1]);
        if merge {
            let first = messages.remove(i);
            let mut second = messages.remove(i);
            if let Some(content) = json_get(&first, "content") {
                let content = json_clone(content);
                json_object_insert(&mut second, "content", content);
            }
            if let Some(reasoning) = json_get(&first, "reasoning") {
                let reasoning = json_clone(reasoning);
                json_object_insert(&mut second, "reasoning", reasoning);
            }
            messages.insert(i, second);
            // The same index is rechecked: the next pair may merge too.
        } else {
            i = i + 1;
        }
    }
    messages
}

/// Injects the parameters one provider requires on every request: thinking
/// enabled, and streamed tool-call arguments.
pub fn inject_zhipu_params(body: &mut serde_json::Value) {
    if let Some(thinking) = json_parse("{\"type\":\"enabled\"}") {
        json_object_insert(body, "thinking", thinking);
    }
    if let Some(enabled) = json_parse("true") {
        json_object_insert(body, "tool_stream", enabled);
    }
}

} // verus!
