use chat_compat::events::OutputEvent;
use chat_compat::events::OutputItem;
use chat_compat::events::ContentItem;
use chat_compat::events::ReasoningContent;
use chat_compat::events::StreamErrorKind;
use chat_compat::events::TokenUsage;
use chat_compat::router::TurnState;
use chat_compat::splitter::ChatReasoningFormat;

fn collect_events_with_format(frames: &[&str], format: ChatReasoningFormat) -> Vec<OutputEvent> {
    let mut turn = TurnState::new(format);
    let mut out = Vec::new();
    for f in frames {
        out.extend(turn.handle_data(f));
    }
    out.extend(turn.handle_stream_closed());
    out
}

fn collect_events(frames: &[&str]) -> Vec<OutputEvent> {
    collect_events_with_format(frames, ChatReasoningFormat::Standard)
}

fn assistant_text_deltas(events: &[OutputEvent]) -> Vec<String> {
    events
        .iter()
        .filter_map(|ev| match ev {
            OutputEvent::TextDelta(delta) => Some(delta.clone()),
            _ => None,
        })
        .collect()
}

fn reasoning_text_deltas(events: &[OutputEvent]) -> Vec<String> {
    events
        .iter()
        .filter_map(|ev| match ev {
            OutputEvent::ReasoningDelta { delta, .. } => Some(delta.clone()),
            _ => None,
        })
        .collect()
}

fn function_calls(events: &[OutputEvent]) -> Vec<(String, String, String)> {
    events
        .iter()
        .filter_map(|ev| match ev {
            OutputEvent::ItemDone(OutputItem::FunctionCall { name, arguments, call_id }) => Some((
                call_id.clone(),
                name.clone(),
                arguments.clone(),
            )),
            _ => None,
        })
        .collect()
}

fn completed_usage(events: &[OutputEvent]) -> Option<Option<TokenUsage>> {
    events.iter().find_map(|ev| match ev {
        OutputEvent::Completed { usage, .. } => Some(*usage),
        _ => None,
    })
}

#[test]
fn completes_on_done_sentinel_without_json() {
    let events = collect_events(&["[DONE]"]);
    assert_eq!(events.len(), 1);
    assert!(matches!(events[0], OutputEvent::Completed { .. }));
}

#[test]
fn sentinel_only_stream_completes_with_no_usage() {
    let mut turn = TurnState::new(ChatReasoningFormat::Standard);
    let events = turn.handle_data("[DONE]");
    assert_eq!(
        events,
        vec![OutputEvent::Completed { response_id: String::new(), usage: None }]
    );
    assert!(turn.handle_data("{\"choices\":[]}").is_empty());
}

#[test]
fn sentinel_padded_with_unicode_whitespace_completes() {
    let events = collect_events(&["\u{00A0}[DONE]\u{2009}\n"]);
    assert_eq!(events.len(), 1);
    assert!(matches!(events[0], OutputEvent::Completed { .. }));
}

#[test]
fn bare_done_sentinel_completes() {
    let events = collect_events(&["DONE"]);
    assert_eq!(events.len(), 1);
    assert!(matches!(events[0], OutputEvent::Completed { .. }));
}

#[test]
fn concatenates_tool_call_arguments_across_deltas() {
    let events = collect_events(&[
        "{\"choices\":[{\"delta\":{\"tool_calls\":[{\"id\":\"call_a\",\"index\":0,\"function\":{\"name\":\"do_a\"}}]}}]}",
        "{\"choices\":[{\"delta\":{\"tool_calls\":[{\"index\":0,\"function\":{\"arguments\":\"{ \\\"foo\\\":\"}}]}}]}",
        "{\"choices\":[{\"delta\":{\"tool_calls\":[{\"index\":0,\"function\":{\"arguments\":\"1}\"}}]}}]}",
        "{\"choices\":[{\"finish_reason\":\"tool_calls\"}]}",
    ]);
    assert_eq!(
        function_calls(&events),
        vec![("call_a".to_string(), "do_a".to_string(), "{ \"foo\":1}".to_string())]
    );
    assert!(matches!(events.last(), Some(OutputEvent::Completed { .. })));
}

#[test]
fn emits_multiple_tool_calls() {
    let events = collect_events(&[
        "{\"choices\":[{\"delta\":{\"tool_calls\":[{\"id\":\"call_a\",\"function\":{\"name\":\"do_a\",\"arguments\":\"{\\\"foo\\\":1}\"}}]}}]}",
        "{\"choices\":[{\"delta\":{\"tool_calls\":[{\"id\":\"call_b\",\"function\":{\"name\":\"do_b\",\"arguments\":\"{\\\"bar\\\":2}\"}}]}}]}",
        "{\"choices\":[{\"finish_reason\":\"tool_calls\"}]}",
    ]);
    assert_eq!(
        function_calls(&events),
        vec![
            ("call_a".to_string(), "do_a".to_string(), "{\"foo\":1}".to_string()),
            ("call_b".to_string(), "do_b".to_string(), "{\"bar\":2}".to_string()),
        ]
    );
}

#[test]
fn emits_tool_calls_for_multiple_choices() {
    let events = collect_events(&[
        "{\"choices\":[{\"delta\":{\"tool_calls\":[{\"id\":\"call_a\",\"index\":0,\"function\":{\"name\":\"do_a\",\"arguments\":\"{}\"}}]},\"finish_reason\":\"tool_calls\"},{\"delta\":{\"tool_calls\":[{\"id\":\"call_b\",\"index\":0,\"function\":{\"name\":\"do_b\",\"arguments\":\"{}\"}}]},\"finish_reason\":\"tool_calls\"}]}",
    ]);
    assert_eq!(
        function_calls(&events),
        vec![
            ("call_a".to_string(), "do_a".to_string(), "{}".to_string()),
            ("call_b".to_string(), "do_b".to_string(), "{}".to_string()),
        ]
    );
}

#[test]
fn merges_tool_calls_by_index_when_id_missing_on_subsequent_deltas() {
    let events = collect_events(&[
        "{\"choices\":[{\"delta\":{\"tool_calls\":[{\"index\":0,\"id\":\"call_a\",\"function\":{\"name\":\"do_a\",\"arguments\":\"{ \\\"foo\\\":\"}}]}}]}",
        "{\"choices\":[{\"delta\":{\"tool_calls\":[{\"index\":0,\"function\":{\"arguments\":\"1}\"}}]}}]}",
        "{\"choices\":[{\"finish_reason\":\"tool_calls\"}]}",
    ]);
    assert_eq!(
        function_calls(&events),
        vec![("call_a".to_string(), "do_a".to_string(), "{ \"foo\":1}".to_string())]
    );
}

#[test]
fn preserves_tool_call_name_when_empty_deltas_arrive() {
    let events = collect_events(&[
        "{\"choices\":[{\"delta\":{\"tool_calls\":[{\"id\":\"call_a\",\"function\":{\"name\":\"do_a\"}}]}}]}",
        "{\"choices\":[{\"delta\":{\"tool_calls\":[{\"id\":\"call_a\",\"function\":{\"name\":\"\",\"arguments\":\"{}\"}}]}}]}",
        "{\"choices\":[{\"finish_reason\":\"tool_calls\"}]}",
    ]);
    assert_eq!(
        function_calls(&events),
        vec![("call_a".to_string(), "do_a".to_string(), "{}".to_string())]
    );
}

#[test]
fn emits_tool_calls_even_when_content_and_reasoning_present() {
    let events = collect_events(&[
        "{\"choices\":[{\"delta\":{\"content\":[{\"text\":\"hi\"}],\"reasoning\":\"because\",\"tool_calls\":[{\"id\":\"call_a\",\"function\":{\"name\":\"do_a\",\"arguments\":\"{}\"}}]}}]}",
        "{\"choices\":[{\"finish_reason\":\"tool_calls\"}]}",
    ]);
    assert!(matches!(
        events[0],
        OutputEvent::ItemAdded(OutputItem::Reasoning { .. })
    ));
    assert!(matches!(events[1], OutputEvent::ReasoningDelta { .. }));
    assert!(matches!(
        events[2],
        OutputEvent::ItemAdded(OutputItem::Message { .. })
    ));
    assert_eq!(assistant_text_deltas(&events), vec!["hi".to_string()]);
    assert_eq!(
        function_calls(&events),
        vec![("call_a".to_string(), "do_a".to_string(), "{}".to_string())]
    );
    assert!(matches!(events.last(), Some(OutputEvent::Completed { .. })));
}

#[test]
fn minimax_think_tags_are_split_from_content() {
    let events = collect_events_with_format(
        &[
            "{\"choices\":[{\"delta\":{\"content\":\"<think>internal</think>visible\"}}]}",
            "{\"choices\":[{\"finish_reason\":\"stop\"}]}",
        ],
        ChatReasoningFormat::MinimaxThinkTags,
    );
    assert_eq!(assistant_text_deltas(&events), vec!["visible".to_string()]);
    assert_eq!(reasoning_text_deltas(&events), vec!["internal".to_string()]);
}

#[test]
fn minimax_think_tags_split_across_chunks_are_handled() {
    let events = collect_events_with_format(
        &[
            "{\"choices\":[{\"delta\":{\"content\":\"<th\"}}]}",
            "{\"choices\":[{\"delta\":{\"content\":\"ink>alpha</thi\"}}]}",
            "{\"choices\":[{\"delta\":{\"content\":\"nk>done\"}}]}",
            "{\"choices\":[{\"finish_reason\":\"stop\"}]}",
        ],
        ChatReasoningFormat::MinimaxThinkTags,
    );
    assert_eq!(assistant_text_deltas(&events), vec!["done".to_string()]);
    assert_eq!(reasoning_text_deltas(&events), vec!["alpha".to_string()]);
}

#[test]
fn markup_think_tags_yield_exact_deltas() {
    let events = collect_events_with_format(
        &[
            "{\"choices\":[{\"delta\":{\"content\":\"<think>x</think>y\"}}]}",
            "{\"choices\":[{\"finish_reason\":\"stop\"}]}",
        ],
        ChatReasoningFormat::MinimaxThinkTags,
    );
    assert_eq!(assistant_text_deltas(&events), vec!["y".to_string()]);
    assert_eq!(reasoning_text_deltas(&events), vec!["x".to_string()]);
}

#[test]
fn standard_mode_keeps_think_tags_in_assistant_content() {
    let events = collect_events_with_format(
        &[
            "{\"choices\":[{\"delta\":{\"content\":\"<think>x</think>y\"}}]}",
            "{\"choices\":[{\"finish_reason\":\"stop\"}]}",
        ],
        ChatReasoningFormat::Standard,
    );
    assert_eq!(
        assistant_text_deltas(&events),
        vec!["<think>x</think>y".to_string()]
    );
    assert_eq!(reasoning_text_deltas(&events), Vec::<String>::new());
}

#[test]
fn coalesces_assistant_output_item_content_when_streaming_multiple_chunks() {
    let events = collect_events(&[
        "{\"choices\":[{\"delta\":{\"content\":\"Hey! What \"}}]}",
        "{\"choices\":[{\"delta\":{\"content\":\"are you working on today?\"}}]}",
        "{\"choices\":[{\"finish_reason\":\"stop\"}]}",
    ]);
    let done_texts: Vec<Vec<String>> = events
        .iter()
        .filter_map(|ev| match ev {
            OutputEvent::ItemDone(OutputItem::Message { role, content }) if role == "assistant" => {
                Some(
                    content
                        .iter()
                        .map(|item| match item {
                            ContentItem::OutputText { text } => text.clone(),
                            ContentItem::InputText { text } => text.clone(),
                        })
                        .collect::<Vec<_>>(),
                )
            },
            _ => None,
        })
        .collect();
    assert_eq!(
        done_texts,
        vec![vec!["Hey! What are you working on today?".to_string()]]
    );
}

#[test]
fn coalesces_reasoning_output_item_content_when_streaming_multiple_chunks() {
    let events = collect_events(&[
        "{\"choices\":[{\"delta\":{\"reasoning\":\"thinking \"}}]}",
        "{\"choices\":[{\"delta\":{\"reasoning\":\"more\"}}]}",
        "{\"choices\":[{\"finish_reason\":\"stop\"}]}",
    ]);
    let reasoning_contents = events
        .iter()
        .find_map(|ev| match ev {
            OutputEvent::ItemDone(OutputItem::Reasoning { content }) => Some(content.clone()),
            _ => None,
        })
        .expect("expected reasoning output item");
    assert_eq!(
        reasoning_contents,
        vec![ReasoningContent::ReasoningText { text: "thinking more".to_string() }]
    );
}

#[test]
fn emits_tool_calls_on_stop_finish_reason() {
    let events = collect_events(&[
        "{\"choices\":[{\"delta\":{\"tool_calls\":[{\"id\":\"call_a\",\"function\":{\"name\":\"do_a\",\"arguments\":\"{}\"}}]}}]}",
        "{\"choices\":[{\"finish_reason\":\"stop\"}]}",
    ]);
    assert_eq!(
        function_calls(&events),
        vec![("call_a".to_string(), "do_a".to_string(), "{}".to_string())]
    );
    assert!(matches!(events.last(), Some(OutputEvent::Completed { .. })));
}

#[test]
fn drops_nameless_tool_calls_on_stop_finish_reason() {
    let events = collect_events(&[
        "{\"choices\":[{\"delta\":{\"tool_calls\":[{\"id\":\"call_a\",\"function\":{\"arguments\":\"{}\"}}]}}]}",
        "{\"choices\":[{\"finish_reason\":\"stop\"}]}",
    ]);
    assert!(function_calls(&events).is_empty());
    assert!(matches!(events.last(), Some(OutputEvent::Completed { .. })));
}

#[test]
fn emits_content_and_tool_calls_on_stop_finish_reason() {
    let events = collect_events(&[
        "{\"choices\":[{\"delta\":{\"content\":\"Let me search for that.\",\"tool_calls\":[{\"id\":\"call_a\",\"function\":{\"name\":\"search\",\"arguments\":\"{\\\"q\\\":\\\"test\\\"}\"}}]}}]}",
        "{\"choices\":[{\"finish_reason\":\"stop\"}]}",
    ]);
    assert_eq!(
        assistant_text_deltas(&events),
        vec!["Let me search for that.".to_string()]
    );
    assert_eq!(
        function_calls(&events),
        vec![("call_a".to_string(), "search".to_string(), "{\"q\":\"test\"}".to_string())]
    );
}

#[test]
fn emits_single_tool_call_then_completed_on_stop() {
    let mut turn = TurnState::new(ChatReasoningFormat::Standard);
    let mut events = turn.handle_data(
        "{\"choices\":[{\"delta\":{\"tool_calls\":[{\"id\":\"a\",\"function\":{\"name\":\"do_a\",\"arguments\":\"{}\"}}]}}]}",
    );
    events.extend(turn.handle_data("{\"choices\":[{\"finish_reason\":\"stop\"}]}"));
    events.extend(turn.handle_stream_closed());
    assert_eq!(events.len(), 2);
    assert_eq!(
        events[0],
        OutputEvent::ItemDone(OutputItem::FunctionCall {
            name: "do_a".to_string(),
            arguments: "{}".to_string(),
            call_id: "a".to_string(),
        })
    );
    assert!(matches!(events[1], OutputEvent::Completed { .. }));
}

#[test]
fn extracts_token_usage_from_usage_chunk() {
    let events = collect_events(&[
        "{\"choices\":[{\"delta\":{\"content\":\"hi\"}}]}",
        "{\"choices\":[{\"finish_reason\":\"stop\"}]}",
        "{\"choices\":[],\"usage\":{\"prompt_tokens\":42,\"completion_tokens\":10,\"total_tokens\":52,\"completion_tokens_details\":{\"reasoning_tokens\":3},\"prompt_tokens_details\":{\"cached_tokens\":5}}}",
        "[DONE]",
    ]);
    assert_eq!(
        completed_usage(&events).expect("expected Completed event"),
        Some(TokenUsage {
            input_tokens: 42,
            cached_input_tokens: 5,
            output_tokens: 10,
            reasoning_output_tokens: 3,
            total_tokens: 52,
        })
    );
}

#[test]
fn usage_total_defaults_to_sum() {
    let events = collect_events(&[
        "{\"choices\":[],\"usage\":{\"prompt_tokens\":42,\"completion_tokens\":10}}",
        "[DONE]",
    ]);
    let usage = completed_usage(&events).expect("expected Completed event").expect("usage");
    assert_eq!(usage.total_tokens, 52);
    assert_eq!(usage.input_tokens, 42);
    assert_eq!(usage.output_tokens, 10);
    assert_eq!(usage.reasoning_output_tokens, 0);
    assert_eq!(usage.cached_input_tokens, 0);
}

#[test]
fn token_usage_is_none_when_no_usage_chunk() {
    let events = collect_events(&[
        "{\"choices\":[{\"delta\":{\"content\":\"hi\"}}]}",
        "{\"choices\":[{\"finish_reason\":\"stop\"}]}",
        "[DONE]",
    ]);
    assert_eq!(completed_usage(&events).expect("expected Completed event"), None);
}

#[test]
fn length_finish_reason_fails_the_stream() {
    let mut turn = TurnState::new(ChatReasoningFormat::Standard);
    let events = turn.handle_data("{\"choices\":[{\"finish_reason\":\"length\"}]}");
    assert_eq!(
        events,
        vec![OutputEvent::Error(StreamErrorKind::ContextWindowExceeded)]
    );
    assert!(turn.handle_data("{\"choices\":[{\"delta\":{\"content\":\"x\"}}]}").is_empty());
    assert!(turn.handle_stream_closed().is_empty());
}

#[test]
fn malformed_json_frames_are_skipped() {
    let events = collect_events(&[
        "this is not json",
        "{\"choices\":[{\"delta\":{\"content\":\"hi\"}}]}",
        "{\"choices\":[{\"finish_reason\":\"stop\"}]}",
    ]);
    assert_eq!(assistant_text_deltas(&events), vec!["hi".to_string()]);
    assert!(matches!(events.last(), Some(OutputEvent::Completed { .. })));
}

#[test]
fn transport_error_fails_the_stream() {
    let mut turn = TurnState::new(ChatReasoningFormat::Standard);
    let events = turn.handle_transport_error("connection reset".to_string());
    assert_eq!(
        events,
        vec![OutputEvent::Error(StreamErrorKind::Transport("connection reset".to_string()))]
    );
    assert!(turn.handle_stream_closed().is_empty());
}

#[test]
fn idle_timeout_fails_the_stream() {
    let mut turn = TurnState::new(ChatReasoningFormat::Standard);
    let events = turn.handle_idle_timeout();
    assert_eq!(events, vec![OutputEvent::Error(StreamErrorKind::IdleTimeout)]);
    assert!(turn.handle_data("[DONE]").is_empty());
}

#[test]
fn reused_id_after_flush_gets_fresh_call_id_fallback() {
    let mut turn = TurnState::new(ChatReasoningFormat::Standard);
    let mut events = turn.handle_data(
        "{\"choices\":[{\"delta\":{\"tool_calls\":[{\"function\":{\"name\":\"lone\",\"arguments\":\"1\"}}]}}]}",
    );
    events.extend(turn.handle_data("{\"choices\":[{\"finish_reason\":\"tool_calls\"}]}"));
    let calls = function_calls(&events);
    assert_eq!(calls.len(), 1);
    assert_eq!(calls[0].0, "tool-call-0");
    assert_eq!(calls[0].1, "lone");
}
