//! One decoded wire frame, as plain values.

use vstd::prelude::*;

use crate::tool_calls::ToolCallDelta;
use crate::usage::UsageFields;

verus! {

/// A provider's reason for ending a choice's generation.
#[derive(Debug, Clone, Copy, PartialEq, Eq, Structural)]
pub enum FinishReason {
    Stop,
    Length,
    ToolCalls,
    Other,
}

/// Everything one choice of a frame can carry, in the order it is applied:
/// reasoning text, content fragments, tool-call fragments, a full-message
/// reasoning field, and the finish reason.
#[derive(Debug, Clone, PartialEq, Eq)]
pub struct ChoiceDelta {
    pub reasoning: Option<String>,
    pub content: Vec<String>,
    pub tool_calls: Vec<ToolCallDelta>,
    pub message_reasoning: Option<String>,
    pub finish_reason: Option<FinishReason>,
}

/// One parsed frame: an optional usage object and the choices, when the
/// frame carries a well-formed `choices` array at all.
#[derive(Debug, Clone, PartialEq, Eq)]
pub struct ChatFrame {
    pub usage: Option<UsageFields>,
    pub choices: Option<Vec<ChoiceDelta>>,
}

} // verus!
