use chat_compat::events::TokenUsage;
use chat_compat::usage::UsageFields;
use chat_compat::usage::extract_usage;

fn fields(
    prompt: Option<i64>,
    completion: Option<i64>,
    total: Option<i64>,
    reasoning: Option<i64>,
    cached: Option<i64>,
) -> UsageFields {
    UsageFields {
        prompt_tokens: prompt,
        completion_tokens: completion,
        total_tokens: total,
        reasoning_tokens: reasoning,
        cached_tokens: cached,
    }
}

#[test]
fn total_defaults_to_sum_of_prompt_and_completion() {
    let usage = extract_usage(&fields(Some(42), Some(10), None, None, None)).unwrap();
    assert_eq!(
        usage,
        TokenUsage {
            input_tokens: 42,
            cached_input_tokens: 0,
            output_tokens: 10,
            reasoning_output_tokens: 0,
            total_tokens: 52,
        }
    );
}

#[test]
fn explicit_total_wins_over_sum() {
    let usage = extract_usage(&fields(Some(42), Some(10), Some(99), Some(3), Some(5))).unwrap();
    assert_eq!(usage.total_tokens, 99);
    assert_eq!(usage.reasoning_output_tokens, 3);
    assert_eq!(usage.cached_input_tokens, 5);
}

#[test]
fn missing_required_counts_yield_no_usage() {
    assert!(extract_usage(&fields(None, Some(10), None, None, None)).is_none());
    assert!(extract_usage(&fields(Some(42), None, None, None, None)).is_none());
    assert!(extract_usage(&fields(None, None, Some(52), None, None)).is_none());
}

#[test]
fn extreme_counts_do_not_wrap() {
    let usage = extract_usage(&fields(Some(i64::MAX), Some(i64::MAX), None, None, None)).unwrap();
    assert_eq!(usage.total_tokens, i64::MAX);
}
