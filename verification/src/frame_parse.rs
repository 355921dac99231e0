//! Extraction of a plain `ChatFrame` from a parsed JSON value.
//!
//! The JSON value is opaque to the verifier, so these functions carry no
//! result contracts; they are verified to be total — no panic, whatever the
//! provider sent — and everything downstream of them operates on the plain
//! frame under exact contracts.

use vstd::prelude::*;

use crate::frame::ChatFrame;
use crate::frame::ChoiceDelta;
use crate::frame::FinishReason;
use crate::json::json_as_array;
use crate::json::json_as_i64;
use crate::json::json_as_string;
use crate::json::json_as_u64;
use crate::json::json_get;
use crate::json::json_is_array;
use crate::text::str_eq;
use crate::tool_calls::ToolCallDelta;
use crate::usage::UsageFields;

verus! {

/// The integer under `key`, if the object has one.
fn int_field(v: &serde_json::Value, key: &str) -> (r: Option<i64>) {
    match json_get(v, key) {
        Some(f) => json_as_i64(f),
        None => None,
    }
}

/// The string under `key`, if the object has one.
fn string_field(v: &serde_json::Value, key: &str) -> (r: Option<String>) {
    match json_get(v, key) {
        Some(f) => json_as_string(f),
        None => None,
    }
}

/// Reads the token-accounting fields of a usage object.
fn parse_usage_fields(u: &serde_json::Value) -> (f: UsageFields) {
    let reasoning_tokens = match json_get(u, "completion_tokens_details") {
        Some(d) => int_field(d, "reasoning_tokens"),
        None => None,
    };
    let cached_tokens = match json_get(u, "prompt_tokens_details") {
        Some(d) => int_field(d, "cached_tokens"),
        None => None,
    };
    UsageFields {
        prompt_tokens: int_field(u, "prompt_tokens"),
        completion_tokens: int_field(u, "completion_tokens"),
        total_tokens: int_field(u, "total_tokens"),
        reasoning_tokens,
        cached_tokens,
    }
}

/// Reads reasoning text in any of the three accepted shapes: a bare string,
/// an object with `text`, or an object with `content`.
fn reasoning_text_of(r: &serde_json::Value) -> (t: Option<String>) {
    match json_as_string(r) {
        Some(s) => Some(s),
        None => match string_field(r, "text") {
            Some(s) => Some(s),
            None => string_field(r, "content"),
        },
    }
}

/// Reads one tool-call fragment.
fn parse_tool_call_delta(tc: &serde_json::Value) -> (d: ToolCallDelta) {
    let index: Option<usize> = match json_get(tc, "index") {
        Some(i) => match json_as_u64(i) {
            Some(n) => Some(#[verifier::truncate] (n as usize)),
            None => None,
        },
        None => None,
    };
    let id = string_field(tc, "id");
    let (name, arguments) = match json_get(tc, "function") {
        Some(f) => (string_field(f, "name"), string_field(f, "arguments")),
        None => (None, None),
    };
    ToolCallDelta { index, id, name, arguments }
}

/// Reads the content fragments of a delta: a bare string, or an array of
/// `{text}` objects.
fn parse_content(content: &serde_json::Value) -> (texts: Vec<String>) {
    let mut texts: Vec<String> = Vec::new();
    if json_is_array(content) {
        if let Some(items) = json_as_array(content) {
            let n = items.len();
            let mut i: usize = 0;
            while i < n
                invariant
                    n == items@.len(),
                    i <= n,
                decreases n - i,
            {
                if let Some(t) = string_field(&items[i], "text") {
                    texts.push(t);
                }
                i = i + 1;
            }
        }
    } else if let Some(t) = json_as_string(content) {
        texts.push(t);
    }
    texts
}

/// Maps a finish-reason string to its meaning; unknown reasons are carried
/// as `Other` and change nothing downstream.
fn parse_finish_reason(s: &str) -> (r: FinishReason)
    ensures
        r == FinishReason::Stop <==> s@ =~= "stop"@,
        r == FinishReason::Length <==> s@ =~= "length"@,
        r == FinishReason::ToolCalls <==> s@ =~= "tool_calls"@,
{
    proof {
        reveal_strlit("stop");
        reveal_strlit("length");
        reveal_strlit("tool_calls");
    }
    if str_eq(s, "stop") {
        FinishReason::Stop
    } else if str_eq(s, "length") {
        FinishReason::Length
    } else if str_eq(s, "tool_calls") {
        FinishReason::ToolCalls
    } else {
        FinishReason::Other
    }
}

/// Reads one choice of a frame.
fn parse_choice(c: &serde_json::Value) -> (d: ChoiceDelta) {
    let mut reasoning: Option<String> = None;
    let mut content: Vec<String> = Vec::new();
    let mut tool_calls: Vec<ToolCallDelta> = Vec::new();
    if let Some(delta) = json_get(c, "delta") {
        if let Some(r) = json_get(delta, "reasoning") {
            reasoning = reasoning_text_of(r);
        }
        if let Some(cv) = json_get(delta, "content") {
            content = parse_content(cv);
        }
        if let Some(tcs) = json_get(delta, "tool_calls") {
            if let Some(items) = json_as_array(tcs) {
                let n = items.len();
                let mut i: usize = 0;
                while i < n
                    invariant
                        n == items@.len(),
                        i <= n,
                    decreases n - i,
                {
                    let d = parse_tool_call_delta(&items[i]);
                    tool_calls.push(d);
                    i = i + 1;
                }
            }
        }
    }
    let message_reasoning = match json_get(c, "message") {
        Some(m) => match json_get(m, "reasoning") {
            Some(r) => reasoning_text_of(r),
            None => None,
        },
        None => None,
    };
    let finish_reason = match json_get(c, "finish_reason") {
        Some(fr) => match json_as_string(fr) {
            Some(s) => Some(parse_finish_reason(s.as_str())),
            None => None,
        },
        None => None,
    };
    ChoiceDelta { reasoning, content, tool_calls, message_reasoning, finish_reason }
}

/// Reads a whole frame: the usage object when present, and the choices when
/// the frame has a well-formed `choices` array.
pub(crate) fn parse_frame(v: &serde_json::Value) -> (f: ChatFrame) {
    let usage = match json_get(v, "usage") {
        Some(u) => Some(parse_usage_fields(u)),
        None => None,
    };
    let choices = match json_get(v, "choices") {
        Some(cv) => match json_as_array(cv) {
            Some(items) => {
                let mut out: Vec<ChoiceDelta> = Vec::new();
                let n = items.len();
                let mut i: usize = 0;
                while i < n
                    invariant
                        n == items@.len(),
                        i <= n,
                    decreases n - i,
                {
                    let c = parse_choice(&items[i]);
                    out.push(c);
                    i = i + 1;
                }
                Some(out)
            },
            None => None,
        },
        None => None,
    };
    ChatFrame { usage, choices }
}

} // verus!
