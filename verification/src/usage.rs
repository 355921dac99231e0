//! Extraction of the canonical usage record from a provider usage object.

use vstd::prelude::*;

use crate::events::TokenUsage;

verus! {

/// The token-accounting fields a provider's usage object may carry, already
/// read out of the wire format as plain values.
#[derive(Debug, Clone, Copy, PartialEq, Eq)]
pub struct UsageFields {
    pub prompt_tokens: Option<i64>,
    pub completion_tokens: Option<i64>,
    pub total_tokens: Option<i64>,
    pub reasoning_tokens: Option<i64>,
    pub cached_tokens: Option<i64>,
}

/// An integer clipped to the signed 64-bit range.
pub open spec fn clip_i64(x: int) -> int {
    if x > i64::MAX as int {
        i64::MAX as int
    } else if x < i64::MIN as int {
        i64::MIN as int
    } else {
        x
    }
}

/// The canonical usage record for a set of fields: present exactly when both
/// `prompt_tokens` and `completion_tokens` are; the total defaults to their
/// sum, the reasoning and cached counts to zero.
pub open spec fn usage_of_fields(f: UsageFields) -> Option<TokenUsage> {
    if f.prompt_tokens is Some && f.completion_tokens is Some {
        let p = f.prompt_tokens.unwrap() as int;
        let c = f.completion_tokens.unwrap() as int;
        Some(
            TokenUsage {
                input_tokens: p as i64,
                cached_input_tokens: if f.cached_tokens is Some {
                    f.cached_tokens.unwrap()
                } else {
                    0
                },
                output_tokens: c as i64,
                reasoning_output_tokens: if f.reasoning_tokens is Some {
                    f.reasoning_tokens.unwrap()
                } else {
                    0
                },
                total_tokens: if f.total_tokens is Some {
                    f.total_tokens.unwrap()
                } else {
                    clip_i64(p + c) as i64
                },
            },
        )
    } else {
        None
    }
}

/// Addition on token counts; the sum clips at the 64-bit bounds, which no
/// real token count approaches.
fn add_clipped(a: i64, b: i64) -> (r: i64)
    ensures
        r as int == clip_i64(a as int + b as int),
{
    let s: i128 = a as i128 + b as i128;
    if s > i64::MAX as i128 {
        i64::MAX
    } else if s < i64::MIN as i128 {
        i64::MIN
    } else {
        s as i64
    }
}

/// Builds the canonical usage record, or nothing when either required count
/// is missing — a frame without usable usage is not an error.
pub fn extract_usage(f: &UsageFields) -> (r: Option<TokenUsage>)
    ensures
        r == usage_of_fields(*f),
{
    let (p, c) = match (f.prompt_tokens, f.completion_tokens) {
        (Some(p), Some(c)) => (p, c),
        _ => {
            return None;
        },
    };
    let total = match f.total_tokens {
        Some(t) => t,
        None => add_clipped(p, c),
    };
    Some(
        TokenUsage {
            input_tokens: p,
            cached_input_tokens: match f.cached_tokens {
                Some(v) => v,
                None => 0,
            },
            output_tokens: c,
            reasoning_output_tokens: match f.reasoning_tokens {
                Some(v) => v,
                None => 0,
            },
            total_tokens: total,
        },
    )
}

} // verus!
