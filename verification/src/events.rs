//! The canonical output of the stream: items, events, token usage.

use vstd::prelude::*;

use crate::tool_calls::ToolCallEntry;
use crate::tool_calls::EntryModel;
use crate::tool_calls::entry_model;

verus! {

/// Token accounting for one response snapshot.
#[derive(Debug, Clone, Copy, PartialEq, Eq, Structural)]
pub struct TokenUsage {
    pub input_tokens: i64,
    pub cached_input_tokens: i64,
    pub output_tokens: i64,
    pub reasoning_output_tokens: i64,
    pub total_tokens: i64,
}

/// One part of a message body.
#[derive(Debug, Clone, PartialEq, Eq)]
pub enum ContentItem {
    InputText { text: String },
    OutputText { text: String },
}

/// One part of a reasoning item body.
#[derive(Debug, Clone, PartialEq, Eq)]
pub enum ReasoningContent {
    ReasoningText { text: String },
    Text { text: String },
}

/// A completed or in-flight output item of the turn.
#[derive(Debug, Clone, PartialEq, Eq)]
pub enum OutputItem {
    Message { role: String, content: Vec<ContentItem> },
    Reasoning { content: Vec<ReasoningContent> },
    FunctionCall { name: String, arguments: String, call_id: String },
}

/// Why a stream ended in failure.
#[derive(Debug, Clone, PartialEq, Eq)]
pub enum StreamErrorKind {
    Transport(String),
    IdleTimeout,
    ContextWindowExceeded,
}

/// One canonical event handed to the consumer, in order.
#[derive(Debug, Clone, PartialEq, Eq)]
pub enum OutputEvent {
    ItemAdded(OutputItem),
    TextDelta(String),
    ReasoningDelta { delta: String, content_index: i64 },
    ItemDone(OutputItem),
    Completed { response_id: String, usage: Option<TokenUsage> },
    Error(StreamErrorKind),
}

/// The character of one decimal digit.
pub open spec fn digit_char(d: int) -> char {
    if d == 0 {
        '0'
    } else if d == 1 {
        '1'
    } else if d == 2 {
        '2'
    } else if d == 3 {
        '3'
    } else if d == 4 {
        '4'
    } else if d == 5 {
        '5'
    } else if d == 6 {
        '6'
    } else if d == 7 {
        '7'
    } else if d == 8 {
        '8'
    } else {
        '9'
    }
}

/// The decimal rendering of a nonnegative integer.
pub open spec fn decimal_digits(n: int) -> Seq<char>
    decreases n when n >= 0
{
    if n < 10 {
        seq![digit_char(n)]
    } else {
        decimal_digits(n / 10) + seq![digit_char(n % 10)]
    }
}

/// One decimal digit as a string slice.
pub(crate) fn digit_str(d: usize) -> (s: &'static str)
    requires
        d < 10,
    ensures
        s@ =~= seq![digit_char(d as int)],
{
    proof {
        reveal_strlit("0");
        reveal_strlit("1");
        reveal_strlit("2");
        reveal_strlit("3");
        reveal_strlit("4");
        reveal_strlit("5");
        reveal_strlit("6");
        reveal_strlit("7");
        reveal_strlit("8");
        reveal_strlit("9");
    }
    if d == 0 {
        "0"
    } else if d == 1 {
        "1"
    } else if d == 2 {
        "2"
    } else if d == 3 {
        "3"
    } else if d == 4 {
        "4"
    } else if d == 5 {
        "5"
    } else if d == 6 {
        "6"
    } else if d == 7 {
        "7"
    } else if d == 8 {
        "8"
    } else {
        "9"
    }
}

/// The decimal rendering of a machine integer.
pub fn usize_to_decimal(n: usize) -> (s: String)
    ensures
        s@ =~= decimal_digits(n as int),
    decreases n,
{
    if n < 10 {
        digit_str(n).to_owned()
    } else {
        let mut s = usize_to_decimal(n / 10);
        s.append(digit_str(n % 10));
        s
    }
}

/// The prefix of a synthesised call id.
pub open spec fn call_id_prefix() -> Seq<char> {
    seq!['t', 'o', 'o', 'l', '-', 'c', 'a', 'l', 'l', '-']
}

/// The call id an emitted call carries: the provider's id when one was seen,
/// otherwise a synthesised `tool-call-<index>` id.
pub open spec fn call_id_of(e: EntryModel) -> Seq<char> {
    match e.id {
        Some(id) => id,
        None => call_id_prefix() + decimal_digits(e.index as int),
    }
}

/// The function-call item emitted for one complete accumulated call.
pub fn function_call_item(e: ToolCallEntry) -> (item: OutputItem)
    requires
        e.name is Some,
    ensures
        ({
            let m = entry_model(e);
            match item {
                OutputItem::FunctionCall { name, arguments, call_id } => {
                    &&& name@ =~= m.name.unwrap()
                    &&& arguments@ =~= m.arguments
                    &&& call_id@ =~= call_id_of(m)
                },
                _ => false,
            }
        }),
{
    let name = match e.name {
        Some(n) => n,
        None => String::new(),
    };
    let call_id = match e.id {
        Some(id) => id,
        None => {
            let mut s = String::new();
            s.append("tool-call-");
            proof {
                reveal_strlit("tool-call-");
            }
            s.append(usize_to_decimal(e.index).as_str());
            s
        },
    };
    OutputItem::FunctionCall { name, arguments: e.arguments, call_id }
}

} // verus!
