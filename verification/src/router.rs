//! The turn state machine: one streamed turn, from raw frame payloads to the
//! canonical event sequence.
//!
//! The surrounding loop (transport, timers) feeds this machine one input at a
//! time — a frame payload, a transport error, an idle timeout, or the end of
//! the byte stream — and forwards the returned events to the consumer.  The
//! machine owns all per-turn state and is purely sequential.

use vstd::prelude::*;

use crate::tool_calls::AccumView;
use crate::tool_calls::EntryModel;
use crate::tool_calls::apply_deltas_spec;
use crate::events::OutputEvent;
use crate::events::OutputItem;
use crate::events::ContentItem;
use crate::events::ReasoningContent;
use crate::events::StreamErrorKind;
use crate::events::TokenUsage;
use crate::events::call_id_of;
use crate::events::function_call_item;
use crate::frame::ChatFrame;
use crate::frame::ChoiceDelta;
use crate::frame::FinishReason;
use crate::frame_parse::parse_frame;
use crate::json::json_parse;
use crate::splitter::ChatReasoningFormat;
use crate::splitter::ContentSegment;
use crate::splitter::ThinkTagStreamSplitter;
use crate::splitter::assistant_concat;
use crate::splitter::reasoning_concat;
use crate::splitter::splitter_wf;
use crate::splitter::seg_text;
use crate::splitter::split_model;
use crate::tool_calls::ToolCallAccumulator;
use crate::tool_calls::ToolCallDelta;
use crate::tool_calls::ToolCallEntry;
use crate::tool_calls::accum_wf;
use crate::tool_calls::entry_model;
use crate::tool_calls::calls_model;
use crate::tool_calls::is_named;
use crate::tool_calls::named_calls;
use crate::usage::usage_of_fields;

verus! {

/// Where the turn stands: streaming, completed successfully, or failed.
/// The two terminal states accept no further input.
#[derive(Debug, Clone, Copy, PartialEq, Eq, Structural)]
pub enum StreamStatus {
    Streaming,
    Completed,
    Failed,
}

/// All state of one streamed turn.
#[derive(Debug)]
pub struct TurnState {
    pub splitter: ThinkTagStreamSplitter,
    pub tools: ToolCallAccumulator,
    pub assistant_text: Option<String>,
    pub reasoning_text: Option<String>,
    pub token_usage: Option<TokenUsage>,
    pub status: StreamStatus,
}

/// Turn-state well-formedness.
pub open spec fn turn_wf(t: TurnState) -> bool {
    &&& splitter_wf(t.splitter)
    &&& accum_wf(t.tools@)
}

/// The accumulated text of an in-flight item, empty when none is open.
pub open spec fn opt_text(o: Option<String>) -> Seq<char> {
    match o {
        Some(s) => s@,
        None => Seq::empty(),
    }
}

/// The role string of the assistant message item.
pub open spec fn assistant_role() -> Seq<char> {
    seq!['a', 's', 's', 'i', 's', 't', 'a', 'n', 't']
}

/// An `ItemAdded` for a fresh assistant message with no content yet.
pub open spec fn is_assistant_added(e: OutputEvent) -> bool {
    match e {
        OutputEvent::ItemAdded(OutputItem::Message { role, content }) => role@ =~= assistant_role()
            && content@.len() == 0,
        _ => false,
    }
}

/// An `ItemAdded` for a fresh reasoning item with no content yet.
pub open spec fn is_reasoning_added(e: OutputEvent) -> bool {
    match e {
        OutputEvent::ItemAdded(OutputItem::Reasoning { content }) => content@.len() == 0,
        _ => false,
    }
}

/// A `TextDelta` carrying exactly `t`.
pub open spec fn is_text_delta(e: OutputEvent, t: Seq<char>) -> bool {
    match e {
        OutputEvent::TextDelta(s) => s@ =~= t,
        _ => false,
    }
}

/// A `ReasoningDelta` carrying exactly `t`.
pub open spec fn is_reasoning_delta(e: OutputEvent, t: Seq<char>) -> bool {
    match e {
        OutputEvent::ReasoningDelta { delta, content_index } => delta@ =~= t && content_index == 0,
        _ => false,
    }
}

/// An `ItemDone` for the assistant message whose accumulated text is `t`.
pub open spec fn is_message_done(e: OutputEvent, t: Seq<char>) -> bool {
    match e {
        OutputEvent::ItemDone(OutputItem::Message { role, content }) => {
            &&& role@ =~= assistant_role()
            &&& content@.len() == 1
            &&& match content@[0] {
                ContentItem::OutputText { text } => text@ =~= t,
                _ => false,
            }
        },
        _ => false,
    }
}

/// An `ItemDone` for the reasoning item whose accumulated text is `t`.
pub open spec fn is_reasoning_done(e: OutputEvent, t: Seq<char>) -> bool {
    match e {
        OutputEvent::ItemDone(OutputItem::Reasoning { content }) => {
            &&& content@.len() == 1
            &&& match content@[0] {
                ReasoningContent::ReasoningText { text } => text@ =~= t,
                _ => false,
            }
        },
        _ => false,
    }
}

/// A `Completed` event with an empty response id and the given usage.
pub open spec fn is_completed(e: OutputEvent, u: Option<TokenUsage>) -> bool {
    match e {
        OutputEvent::Completed { response_id, usage } => response_id@.len() == 0 && usage == u,
        _ => false,
    }
}

/// The context-window-exceeded error event.
pub open spec fn is_context_window_error(e: OutputEvent) -> bool {
    e == OutputEvent::Error(StreamErrorKind::ContextWindowExceeded)
}

/// An `ItemDone` for the complete tool call described by `m`.
pub open spec fn is_function_call_done(e: OutputEvent, m: EntryModel) -> bool {
    match e {
        OutputEvent::ItemDone(OutputItem::FunctionCall { name, arguments, call_id }) => {
            &&& m.name is Some
            &&& name@ =~= m.name.unwrap()
            &&& arguments@ =~= m.arguments
            &&& call_id@ =~= call_id_of(m)
        },
        _ => false,
    }
}

/// `evs` is exactly the finalisation of the calls `ms`, in order.
pub open spec fn fc_events_match(evs: Seq<OutputEvent>, ms: Seq<EntryModel>) -> bool {
    evs.len() == ms.len() && forall|i: int|
        0 <= i < evs.len() ==> is_function_call_done(#[trigger] evs[i], ms[i])
}

/// No event in `evs` is an error.
pub open spec fn no_error_events(evs: Seq<OutputEvent>) -> bool {
    forall|i: int| 0 <= i < evs.len() ==> !((#[trigger] evs[i]) is Error)
}

/// Every event in `evs` is an open or a delta, never a close or a terminal.
pub open spec fn delta_events_only(evs: Seq<OutputEvent>) -> bool {
    forall|i: int|
        0 <= i < evs.len() ==> ((#[trigger] evs[i]) is ItemAdded || evs[i] is TextDelta
            || evs[i] is ReasoningDelta)
}

/// Concatenation of the views of a sequence of content fragments.
pub open spec fn content_concat(cs: Seq<String>) -> Seq<char>
    decreases cs.len(),
{
    if cs.len() == 0 {
        Seq::empty()
    } else {
        content_concat(cs.drop_last()) + cs.last()@
    }
}

/// No event in `evs` is a `Completed`.
pub open spec fn no_completed_events(evs: Seq<OutputEvent>) -> bool {
    forall|i: int| 0 <= i < evs.len() ==> !((#[trigger] evs[i]) is Completed)
}

/// The assistant/reasoning decomposition the configured policy produces for
/// buffered and new content: the passthrough policy sends everything to the
/// assistant side; the markup policy splits at think tags.
pub open spec fn policy_split(
    format: ChatReasoningFormat,
    s: Seq<char>,
    in_block: bool,
) -> (Seq<char>, Seq<char>) {
    match format {
        ChatReasoningFormat::Standard => (s, Seq::empty()),
        ChatReasoningFormat::MinimaxThinkTags => split_model(s, in_block),
    }
}

/// Concatenation of the assistant text deltas in `evs`.
pub open spec fn text_deltas_concat(evs: Seq<OutputEvent>) -> Seq<char>
    decreases evs.len(),
{
    if evs.len() == 0 {
        Seq::empty()
    } else {
        text_deltas_concat(evs.drop_last()) + (match evs.last() {
            OutputEvent::TextDelta(s) => s@,
            _ => Seq::empty(),
        })
    }
}

/// Concatenation of the reasoning deltas in `evs`.
pub open spec fn reasoning_deltas_concat(evs: Seq<OutputEvent>) -> Seq<char>
    decreases evs.len(),
{
    if evs.len() == 0 {
        Seq::empty()
    } else {
        reasoning_deltas_concat(evs.drop_last()) + (match evs.last() {
            OutputEvent::ReasoningDelta { delta, .. } => delta@,
            _ => Seq::empty(),
        })
    }
}

impl TurnState {
    /// A fresh turn: empty splitter and accumulator, no open items, no usage,
    /// streaming.
    pub fn new(format: ChatReasoningFormat) -> (t: TurnState)
        ensures
            turn_wf(t),
            t.splitter.format == format,
            t.splitter.pending@.len() == 0,
            !t.splitter.in_think_block,
            t.assistant_text is None,
            t.reasoning_text is None,
            t.token_usage is None,
            t.status == StreamStatus::Streaming,
            t.tools@.calls =~= Seq::<EntryModel>::empty(),
    {
        TurnState {
            splitter: ThinkTagStreamSplitter::new(format),
            tools: ToolCallAccumulator::new(),
            assistant_text: None,
            reasoning_text: None,
            token_usage: None,
            status: StreamStatus::Streaming,
        }
    }

    /// Appends text to the assistant item, opening it first if no assistant
    /// item is in flight, and emits the corresponding events.
    fn append_assistant_text(&mut self, text: &str) -> (evs: Vec<OutputEvent>)
        ensures
            self_except_assistant_unchanged(*old(self), *final(self)),
            final(self).assistant_text is Some,
            opt_text(final(self).assistant_text) =~= opt_text(old(self).assistant_text) + text@,
            delta_events_only(evs@),
            no_error_events(evs@),
            text_deltas_concat(evs@) =~= text@,
            reasoning_deltas_concat(evs@) =~= Seq::<char>::empty(),
            old(self).assistant_text is None ==> evs@.len() == 2 && is_assistant_added(evs@[0])
                && is_text_delta(evs@[1], text@),
            old(self).assistant_text is Some ==> evs@.len() == 1 && is_text_delta(evs@[0], text@),
    {
        let mut evs: Vec<OutputEvent> = Vec::new();
        let acc = match self.assistant_text.take() {
            Some(s) => s,
            None => {
                proof {
                    reveal_strlit("assistant");
                }
                let role = "assistant".to_owned();
                let item = OutputItem::Message { role, content: Vec::new() };
                evs.push(OutputEvent::ItemAdded(item));
                String::new()
            },
        };
        let mut acc = acc;
        acc.append(text);
        self.assistant_text = Some(acc);
        evs.push(OutputEvent::TextDelta(text.to_owned()));
        proof {
            lemma_event_concats(evs@);
        }
        evs
    }

    /// Appends text to the reasoning item, opening it first if no reasoning
    /// item is in flight, and emits the corresponding events.
    fn append_reasoning_text(&mut self, text: &str) -> (evs: Vec<OutputEvent>)
        ensures
            self_except_reasoning_unchanged(*old(self), *final(self)),
            final(self).reasoning_text is Some,
            opt_text(final(self).reasoning_text) =~= opt_text(old(self).reasoning_text) + text@,
            delta_events_only(evs@),
            no_error_events(evs@),
            reasoning_deltas_concat(evs@) =~= text@,
            text_deltas_concat(evs@) =~= Seq::<char>::empty(),
            old(self).reasoning_text is None ==> evs@.len() == 2 && is_reasoning_added(evs@[0])
                && is_reasoning_delta(evs@[1], text@),
            old(self).reasoning_text is Some ==> evs@.len() == 1 && is_reasoning_delta(
                evs@[0],
                text@,
            ),
    {
        let mut evs: Vec<OutputEvent> = Vec::new();
        let acc = match self.reasoning_text.take() {
            Some(s) => s,
            None => {
                let item = OutputItem::Reasoning { content: Vec::new() };
                evs.push(OutputEvent::ItemAdded(item));
                String::new()
            },
        };
        let mut acc = acc;
        acc.append(text);
        self.reasoning_text = Some(acc);
        evs.push(OutputEvent::ReasoningDelta { delta: text.to_owned(), content_index: 0 });
        proof {
            lemma_event_concats(evs@);
        }
        evs
    }

    /// Routes a batch of splitter segments to the item each belongs to.
    fn append_segments(&mut self, segs: Vec<ContentSegment>) -> (evs: Vec<OutputEvent>)
        ensures
            self_except_items_unchanged(*old(self), *final(self)),
            opt_text(final(self).assistant_text) =~= opt_text(old(self).assistant_text)
                + assistant_concat(segs@),
            opt_text(final(self).reasoning_text) =~= opt_text(old(self).reasoning_text)
                + reasoning_concat(segs@),
            final(self).assistant_text is Some <==> (old(self).assistant_text is Some || exists|
                i: int,
            |
                0 <= i < segs@.len() && (#[trigger] segs@[i]) is Assistant),
            final(self).reasoning_text is Some <==> (old(self).reasoning_text is Some || exists|
                i: int,
            |
                0 <= i < segs@.len() && (#[trigger] segs@[i]) is Reasoning),
            delta_events_only(evs@),
            no_error_events(evs@),
            text_deltas_concat(evs@) =~= assistant_concat(segs@),
            reasoning_deltas_concat(evs@) =~= reasoning_concat(segs@),
    {
        let mut evs: Vec<OutputEvent> = Vec::new();
        let mut segs = segs;
        let ghost all = segs@;
        let ghost done: Seq<ContentSegment> = Seq::empty();
        let mut k: usize = 0;
        let n = segs.len();
        proof {
            assert(all.take(0) =~= Seq::<ContentSegment>::empty());
            assert(text_deltas_concat(evs@) =~= assistant_concat(all.take(0)));
            assert(reasoning_deltas_concat(evs@) =~= reasoning_concat(all.take(0)));
        }
        while k < n
            invariant
                n == segs@.len(),
                segs@ =~= all,
                k <= n,
                self_except_items_unchanged(*old(self), *self),
                opt_text(self.assistant_text) =~= opt_text(old(self).assistant_text)
                    + assistant_concat(all.take(k as int)),
                opt_text(self.reasoning_text) =~= opt_text(old(self).reasoning_text)
                    + reasoning_concat(all.take(k as int)),
                self.assistant_text is Some <==> (old(self).assistant_text is Some || exists|
                    i: int,
                |
                    0 <= i < k && (#[trigger] all[i]) is Assistant),
                self.reasoning_text is Some <==> (old(self).reasoning_text is Some || exists|
                    i: int,
                |
                    0 <= i < k && (#[trigger] all[i]) is Reasoning),
                delta_events_only(evs@),
                no_error_events(evs@),
                text_deltas_concat(evs@) =~= assistant_concat(all.take(k as int)),
                reasoning_deltas_concat(evs@) =~= reasoning_concat(all.take(k as int)),
            decreases n - k,
        {
            let ghost evs_before = evs@;
            let mut batch = match &segs[k] {
                ContentSegment::Assistant(t) => {
                    let text = t.clone();
                    self.append_assistant_text(text.as_str())
                },
                ContentSegment::Reasoning(t) => {
                    let text = t.clone();
                    self.append_reasoning_text(text.as_str())
                },
            };
            let ghost batch_view = batch@;
            evs.append(&mut batch);
            proof {
                assert(all[k as int] == segs@[k as int]);
                assert(evs@ =~= evs_before + batch_view);
                assert(evs@.take(evs_before.len() as int) =~= evs_before);
                assert(evs@.skip(evs_before.len() as int) =~= batch_view);
                lemma_concat_take_step(all, k as int);
                lemma_event_concat_append(evs_before, evs@);
            }
            k = k + 1;
        }
        proof {
            assert(all.take(n as int) =~= all);
        }
        evs
    }

    /// Closes the reasoning item if one is open, emitting its `ItemDone`.
    fn close_reasoning(&mut self) -> (evs: Vec<OutputEvent>)
        ensures
            self_except_reasoning_unchanged(*old(self), *final(self)),
            final(self).reasoning_text is None,
            old(self).reasoning_text is None ==> evs@.len() == 0,
            old(self).reasoning_text is Some ==> evs@.len() == 1 && is_reasoning_done(
                evs@[0],
                opt_text(old(self).reasoning_text),
            ),
            no_error_events(evs@),
    {
        let mut evs: Vec<OutputEvent> = Vec::new();
        if let Some(acc) = self.reasoning_text.take() {
            let mut content: Vec<ReasoningContent> = Vec::new();
            content.push(ReasoningContent::ReasoningText { text: acc });
            evs.push(OutputEvent::ItemDone(OutputItem::Reasoning { content }));
        }
        evs
    }

    /// Closes the assistant item if one is open, emitting its `ItemDone`.
    fn close_assistant(&mut self) -> (evs: Vec<OutputEvent>)
        ensures
            self_except_assistant_unchanged(*old(self), *final(self)),
            final(self).assistant_text is None,
            old(self).assistant_text is None ==> evs@.len() == 0,
            old(self).assistant_text is Some ==> evs@.len() == 1 && is_message_done(
                evs@[0],
                opt_text(old(self).assistant_text),
            ),
            no_error_events(evs@),
    {
        let mut evs: Vec<OutputEvent> = Vec::new();
        if let Some(acc) = self.assistant_text.take() {
            proof {
                reveal_strlit("assistant");
            }
            let mut content: Vec<ContentItem> = Vec::new();
            content.push(ContentItem::OutputText { text: acc });
            evs.push(
                OutputEvent::ItemDone(
                    OutputItem::Message { role: "assistant".to_owned(), content },
                ),
            );
        }
        evs
    }

    /// Finalises the accumulated tool calls: every call that received a name
    /// is emitted as a done function-call item, in first-seen order; calls
    /// without a name are dropped silently.
    fn flush_tool_calls(&mut self) -> (evs: Vec<OutputEvent>)
        requires
            accum_wf(old(self).tools@),
        ensures
            self_except_tools_unchanged(*old(self), *final(self)),
            accum_wf(final(self).tools@),
            final(self).tools@.calls =~= Seq::<EntryModel>::empty(),
            final(self).tools@.id_map =~= old(self).tools@.id_map,
            final(self).tools@.next_index == old(self).tools@.next_index,
            final(self).tools@.last_index == old(self).tools@.last_index,
            fc_events_match(evs@, named_calls(old(self).tools@.calls)),
            no_error_events(evs@),
    {
        let ghost named = named_calls(self.tools@.calls);
        let mut entries: Vec<ToolCallEntry> = self.tools.flush_calls();
        proof {
            crate::tool_calls::lemma_named_calls_all_named(old(self).tools@.calls);
        }
        let mut evs: Vec<OutputEvent> = Vec::new();
        let ghost total = entries@.len();
        let mut k: usize = 0;
        let n = entries.len();
        while k < n
            invariant
                n == entries@.len(),
                k <= n,
                calls_model(entries@) =~= named,
                forall|i: int| 0 <= i < named.len() ==> is_named(#[trigger] named[i]),
                evs@.len() == k,
                forall|i: int| 0 <= i < k ==> is_function_call_done(#[trigger] evs@[i], named[i]),
            decreases n - k,
        {
            let e = crate::tool_calls::clone_entry(&entries[k]);
            proof {
                assert(entry_model(entries@[k as int]) == named[k as int]);
            }
            let item = function_call_item(e);
            evs.push(OutputEvent::ItemDone(item));
            k = k + 1;
        }
        evs
    }

    /// The finish-reason handling of one choice, after its deltas have been
    /// applied.
    fn finish_choice(&mut self, reason: FinishReason) -> (r: (Vec<OutputEvent>, bool))
        requires
            turn_wf(*old(self)),
        ensures
            turn_wf(*final(self)),
            final(self).token_usage == old(self).token_usage,
            final(self).splitter.format == old(self).splitter.format,
            r.1 <==> reason == FinishReason::Length,
            final(self).status == (if r.1 {
                StreamStatus::Failed
            } else {
                old(self).status
            }),
            r.1 ==> r.0@.len() == 1 && is_context_window_error(r.0@[0]) && *final(self)
                == (TurnState { status: StreamStatus::Failed, ..*old(self) }),
            !r.1 ==> no_error_events(r.0@),
            no_completed_events(r.0@),
            reason == FinishReason::Stop || reason == FinishReason::ToolCalls ==> {
                &&& text_deltas_concat(r.0@) =~= split_model(
                    old(self).splitter.pending@,
                    old(self).splitter.in_think_block,
                ).0
                &&& reasoning_deltas_concat(r.0@) =~= split_model(
                    old(self).splitter.pending@,
                    old(self).splitter.in_think_block,
                ).1
            },
            reason == FinishReason::ToolCalls ==> {
                &&& (old(self).assistant_text is Some ==> final(self).assistant_text is Some)
                &&& opt_text(final(self).assistant_text) =~= opt_text(old(self).assistant_text)
                    + split_model(
                    old(self).splitter.pending@,
                    old(self).splitter.in_think_block,
                ).0
            },
            reason == FinishReason::Length || reason == FinishReason::Other ==> {
                &&& text_deltas_concat(r.0@) =~= Seq::<char>::empty()
                &&& reasoning_deltas_concat(r.0@) =~= Seq::<char>::empty()
            },
            reason == FinishReason::Stop ==> {
                &&& final(self).assistant_text is None
                &&& final(self).reasoning_text is None
                &&& final(self).tools@.calls =~= Seq::<EntryModel>::empty()
                &&& final(self).splitter.pending@.len() == 0
                &&& final(self).tools@.id_map =~= old(self).tools@.id_map
                &&& final(self).tools@.next_index == old(self).tools@.next_index
                &&& final(self).tools@.last_index == old(self).tools@.last_index
                &&& r.0@.len() >= named_calls(old(self).tools@.calls).len()
                &&& fc_events_match(
                    r.0@.skip(r.0@.len() - named_calls(old(self).tools@.calls).len() as int),
                    named_calls(old(self).tools@.calls),
                )
            },
            reason == FinishReason::ToolCalls ==> {
                &&& final(self).reasoning_text is None
                &&& final(self).tools@.calls =~= Seq::<EntryModel>::empty()
                &&& final(self).splitter.pending@.len() == 0
                &&& final(self).tools@.id_map =~= old(self).tools@.id_map
                &&& final(self).tools@.next_index == old(self).tools@.next_index
                &&& final(self).tools@.last_index == old(self).tools@.last_index
                &&& r.0@.len() >= named_calls(old(self).tools@.calls).len()
                &&& fc_events_match(
                    r.0@.skip(r.0@.len() - named_calls(old(self).tools@.calls).len() as int),
                    named_calls(old(self).tools@.calls),
                )
            },
            reason == FinishReason::Other ==> *final(self) == *old(self) && r.0@.len() == 0,
    {
        let mut evs: Vec<OutputEvent> = Vec::new();
        match reason {
            FinishReason::Stop => {
                let segs = self.splitter.flush_remaining();
                let ghost segs_view = segs@;
                let mut batch = self.append_segments(segs);
                let ghost e1 = batch@;
                evs.append(&mut batch);
                let ghost c1 = evs@;
                let mut batch = self.close_reasoning();
                let ghost e2 = batch@;
                evs.append(&mut batch);
                let ghost c2 = evs@;
                let mut batch = self.close_assistant();
                let ghost e3 = batch@;
                evs.append(&mut batch);
                let ghost c3 = evs@;
                let ghost before_fc = evs@.len() as int;
                let mut batch = self.flush_tool_calls();
                let ghost e4 = batch@;
                evs.append(&mut batch);
                proof {
                    assert(evs@.skip(before_fc) =~= e4);
                    assert(evs@.len() - named_calls(old(self).tools@.calls).len() as int
                        == before_fc);
                    assert forall|i: int| 0 <= i < e2.len() implies (#[trigger] e2[i])
                        is ItemDone by {
                        assert(i == 0);
                    }
                    assert forall|i: int| 0 <= i < e3.len() implies (#[trigger] e3[i])
                        is ItemDone by {
                        assert(i == 0);
                    }
                    assert forall|i: int| 0 <= i < e4.len() implies (#[trigger] e4[i])
                        is ItemDone by {
                        assert(is_function_call_done(
                            e4[i],
                            named_calls(old(self).tools@.calls)[i],
                        ));
                    }
                    lemma_finish_batch_concats(c1, c2, c3, evs@, e1, e2, e3, e4);
                }
                (evs, false)
            },
            FinishReason::Length => {
                evs.push(OutputEvent::Error(StreamErrorKind::ContextWindowExceeded));
                self.status = StreamStatus::Failed;
                proof {
                    assert forall|i: int|
                        0 <= i < evs@.len() implies !((#[trigger] evs@[i]) is TextDelta) && !(
                        evs@[i] is ReasoningDelta) && !(evs@[i] is Completed) by {}
                    lemma_concat_of_non_delta(evs@);
                }
                (evs, true)
            },
            FinishReason::ToolCalls => {
                let segs = self.splitter.flush_remaining();
                let ghost segs_view = segs@;
                let mut batch = self.append_segments(segs);
                let ghost e1 = batch@;
                evs.append(&mut batch);
                let ghost c1 = evs@;
                let mut batch = self.close_reasoning();
                let ghost e2 = batch@;
                evs.append(&mut batch);
                let ghost c2 = evs@;
                let ghost before_fc = evs@.len() as int;
                let mut batch = self.flush_tool_calls();
                let ghost e4 = batch@;
                evs.append(&mut batch);
                proof {
                    assert(evs@.skip(before_fc) =~= e4);
                    assert(evs@.len() - named_calls(old(self).tools@.calls).len() as int
                        == before_fc);
                    assert forall|i: int| 0 <= i < e2.len() implies (#[trigger] e2[i])
                        is ItemDone by {
                        assert(i == 0);
                    }
                    assert forall|i: int| 0 <= i < e4.len() implies (#[trigger] e4[i])
                        is ItemDone by {
                        assert(is_function_call_done(
                            e4[i],
                            named_calls(old(self).tools@.calls)[i],
                        ));
                    }
                    assert(c2 =~= c2 + Seq::<OutputEvent>::empty());
                    lemma_finish_batch_concats(c1, c2, c2, evs@, e1, e2, Seq::empty(), e4);
                }
                (evs, false)
            },
            FinishReason::Other => {
                proof {
                    assert(text_deltas_concat(evs@) =~= Seq::<char>::empty());
                    assert(reasoning_deltas_concat(evs@) =~= Seq::<char>::empty());
                }
                (evs, false)
            },
        }
    }

    /// Applies one choice: reasoning text, content through the splitter,
    /// tool-call fragments, full-message reasoning, then the finish reason.
    /// The second result is true when the choice failed the turn and the
    /// rest of the frame must not be processed.
    /// Applies one choice: reasoning text, content through the splitter,
    /// tool-call fragments, full-message reasoning, then the finish reason.
    /// The second result is true when the choice failed the turn and the
    /// rest of the frame must not be processed.  The contract pins the
    /// returned events: the text deltas carry exactly the assistant side of
    /// the policy decomposition of the content, the reasoning deltas carry
    /// the two reasoning fields around the reasoning side, and on a flush
    /// the trailing events are exactly the named accumulated calls.
    #[verifier::rlimit(60)]
    pub fn apply_choice(&mut self, choice: &ChoiceDelta) -> (r: (Vec<OutputEvent>, bool))
        requires
            turn_wf(*old(self)),
        ensures
            turn_wf(*final(self)),
            final(self).token_usage == old(self).token_usage,
            final(self).splitter.format == old(self).splitter.format,
            r.1 <==> choice.finish_reason == Some(FinishReason::Length),
            final(self).status == (if r.1 {
                StreamStatus::Failed
            } else {
                old(self).status
            }),
            r.1 ==> r.0@.len() >= 1 && is_context_window_error(r.0@.last()) && no_error_events(
                r.0@.take(r.0@.len() - 1),
            ),
            !r.1 ==> no_error_events(r.0@),
            no_completed_events(r.0@),
            choice.finish_reason == Some(FinishReason::Stop) ==> {
                &&& final(self).assistant_text is None
                &&& final(self).reasoning_text is None
                &&& final(self).tools@.calls =~= Seq::<EntryModel>::empty()
                &&& final(self).splitter.pending@.len() == 0
            },
            choice.finish_reason == Some(FinishReason::ToolCalls) ==> {
                &&& final(self).reasoning_text is None
                &&& final(self).tools@.calls =~= Seq::<EntryModel>::empty()
                &&& final(self).splitter.pending@.len() == 0
            },
            !(choice.finish_reason == Some(FinishReason::Stop) || choice.finish_reason == Some(
                FinishReason::ToolCalls,
            )) ==> final(self).tools@ =~= apply_deltas_spec(
                old(self).tools@,
                choice.tool_calls@,
            ),
            (choice.finish_reason == Some(FinishReason::Stop) || choice.finish_reason == Some(
                FinishReason::ToolCalls,
            )) ==> {
                let after = apply_deltas_spec(old(self).tools@, choice.tool_calls@);
                &&& final(self).tools@.id_map =~= after.id_map
                &&& final(self).tools@.next_index == after.next_index
                &&& final(self).tools@.last_index == after.last_index
                &&& fc_events_match(
                    r.0@.skip(r.0@.len() - named_calls(after.calls).len() as int),
                    named_calls(after.calls),
                )
            },
            choice.finish_reason != Some(FinishReason::Stop) ==> {
                &&& opt_text(final(self).assistant_text) =~= opt_text(old(self).assistant_text)
                    + text_deltas_concat(r.0@)
                &&& (old(self).assistant_text is Some ==> final(self).assistant_text is Some)
            },
            ({
                let whole = policy_split(
                    old(self).splitter.format,
                    old(self).splitter.pending@ + content_concat(choice.content@),
                    old(self).splitter.in_think_block,
                );
                &&& ((choice.finish_reason == Some(FinishReason::Stop) || choice.finish_reason
                    == Some(FinishReason::ToolCalls)) ==> {
                    &&& text_deltas_concat(r.0@) =~= whole.0
                    &&& exists|rc: Seq<char>, rf: Seq<char>|
                        #![trigger rc.add(rf)]
                        {
                            &&& rc + rf =~= whole.1
                            &&& reasoning_deltas_concat(r.0@) =~= opt_text(choice.reasoning) + rc
                                + opt_text(choice.message_reasoning) + rf
                        }
                })
                &&& (!(choice.finish_reason == Some(FinishReason::Stop) || choice.finish_reason
                    == Some(FinishReason::ToolCalls)) ==> {
                    &&& whole.0 =~= text_deltas_concat(r.0@) + policy_split(
                        old(self).splitter.format,
                        final(self).splitter.pending@,
                        final(self).splitter.in_think_block,
                    ).0
                    &&& exists|rc: Seq<char>|
                        #![trigger opt_text(choice.reasoning).add(rc)]
                        {
                            &&& whole.1 =~= rc + policy_split(
                                old(self).splitter.format,
                                final(self).splitter.pending@,
                                final(self).splitter.in_think_block,
                            ).1
                            &&& reasoning_deltas_concat(r.0@) =~= opt_text(choice.reasoning) + rc
                                + opt_text(choice.message_reasoning)
                        }
                })
            }),
    {
        let ghost fmt = self.splitter.format;
        let ghost p0 = self.splitter.pending@;
        let ghost b0 = self.splitter.in_think_block;
        let ghost tools0 = self.tools@;
        let mut evs: Vec<OutputEvent> = Vec::new();
        if let Some(rtext) = &choice.reasoning {
            let mut batch = self.append_reasoning_text(rtext.as_str());
            let ghost bv = batch@;
            evs.append(&mut batch);
            proof {
                assert(evs@ =~= bv);
            }
        }
        proof {
            if choice.reasoning is None {
                assert(text_deltas_concat(evs@) =~= Seq::<char>::empty());
                assert(reasoning_deltas_concat(evs@) =~= opt_text(choice.reasoning));
            }
        }
        let ghost mut at: Seq<char> = Seq::empty();
        let ghost mut rc: Seq<char> = Seq::empty();
        let nc = choice.content.len();
        let mut i: usize = 0;
        proof {
            assert(choice.content@.take(0) =~= Seq::<String>::empty());
            assert(content_concat(choice.content@.take(0)) =~= Seq::<char>::empty());
            if fmt is MinimaxThinkTags {
                assert forall|u: Seq<char>|
                    #![trigger split_model(p0 + content_concat(choice.content@.take(0)) + u, b0)]
                    {
                        &&& split_model(p0 + content_concat(choice.content@.take(0)) + u, b0).0
                            =~= at + split_model(
                            self.splitter.pending@ + u,
                            self.splitter.in_think_block,
                        ).0
                        &&& split_model(p0 + content_concat(choice.content@.take(0)) + u, b0).1
                            =~= rc + split_model(
                            self.splitter.pending@ + u,
                            self.splitter.in_think_block,
                        ).1
                    } by {
                    assert(p0 + content_concat(choice.content@.take(0)) + u =~= p0 + u);
                }
            }
        }
        while i < nc
            invariant
                nc == choice.content@.len(),
                i <= nc,
                turn_wf(*self),
                self.token_usage == old(self).token_usage,
                self.status == old(self).status,
                self.splitter.format == fmt,
                fmt == old(self).splitter.format,
                p0 == old(self).splitter.pending@,
                b0 == old(self).splitter.in_think_block,
                tools0 == old(self).tools@,
                self.tools@ =~= tools0,
                no_error_events(evs@),
                no_completed_events(evs@),
                text_deltas_concat(evs@) =~= at,
                reasoning_deltas_concat(evs@) =~= opt_text(choice.reasoning) + rc,
                opt_text(self.assistant_text) =~= opt_text(old(self).assistant_text) + at,
                (old(self).assistant_text is Some ==> self.assistant_text is Some),
                (fmt is Standard ==> at =~= content_concat(choice.content@.take(i as int)) && rc
                    =~= Seq::<char>::empty()),
                (fmt is MinimaxThinkTags ==> forall|u: Seq<char>|
                    #![trigger split_model(
                        p0 + content_concat(choice.content@.take(i as int)) + u,
                        b0,
                    )]
                    {
                        &&& split_model(
                            p0 + content_concat(choice.content@.take(i as int)) + u,
                            b0,
                        ).0 =~= at + split_model(
                            self.splitter.pending@ + u,
                            self.splitter.in_think_block,
                        ).0
                        &&& split_model(
                            p0 + content_concat(choice.content@.take(i as int)) + u,
                            b0,
                        ).1 =~= rc + split_model(
                            self.splitter.pending@ + u,
                            self.splitter.in_think_block,
                        ).1
                    }),
            decreases nc - i,
        {
            let ghost pend_i = self.splitter.pending@;
            let ghost b_i = self.splitter.in_think_block;
            let ghost evs_before = evs@;
            let ghost c_i = choice.content@[i as int]@;
            let segs = self.splitter.split_chunk(choice.content[i].as_str());
            let ghost segs_view = segs@;
            let mut batch = self.append_segments(segs);
            let ghost batch_view = batch@;
            evs.append(&mut batch);
            let ghost at2 = at + assistant_concat(segs_view);
            let ghost rc2 = rc + reasoning_concat(segs_view);
            proof {
                assert(evs@ =~= evs_before + batch_view);
                assert(evs@.take(evs_before.len() as int) =~= evs_before);
                assert(evs@.skip(evs_before.len() as int) =~= batch_view);
                lemma_event_concat_append(evs_before, evs@);
                lemma_event_append_pointwise(evs_before, evs@);
                assert(choice.content@.take(i as int + 1).drop_last() =~= choice.content@.take(
                    i as int,
                ));
                assert(choice.content@.take(i as int + 1).last() == choice.content@[i as int]);
                assert(content_concat(choice.content@.take(i as int + 1)) =~= content_concat(
                    choice.content@.take(i as int),
                ) + c_i);
                assert(text_deltas_concat(evs@) =~= at2);
                assert(reasoning_deltas_concat(evs@) =~= opt_text(choice.reasoning) + rc2);
                if fmt is Standard {
                    if c_i.len() == 0 {
                        assert(segs_view.len() == 0);
                        assert(assistant_concat(segs_view) =~= Seq::<char>::empty());
                        assert(reasoning_concat(segs_view) =~= Seq::<char>::empty());
                    } else {
                        assert(segs_view.len() == 1 && segs_view[0] is Assistant && seg_text(
                            segs_view[0],
                        ) =~= c_i);
                        assert(segs_view.skip(1) =~= Seq::<ContentSegment>::empty());
                        assert(assistant_concat(segs_view.skip(1)) =~= Seq::<char>::empty());
                        assert(reasoning_concat(segs_view.skip(1)) =~= Seq::<char>::empty());
                        assert(assistant_concat(segs_view) =~= c_i);
                        assert(reasoning_concat(segs_view) =~= Seq::<char>::empty());
                    }
                    assert(at2 =~= content_concat(choice.content@.take(i as int + 1)));
                    assert(rc2 =~= Seq::<char>::empty());
                } else {
                    assert forall|u: Seq<char>|
                        #![trigger split_model(
                            p0 + content_concat(choice.content@.take(i as int + 1)) + u,
                            b0,
                        )]
                        {
                            &&& split_model(
                                p0 + content_concat(choice.content@.take(i as int + 1)) + u,
                                b0,
                            ).0 =~= at2 + split_model(
                                self.splitter.pending@ + u,
                                self.splitter.in_think_block,
                            ).0
                            &&& split_model(
                                p0 + content_concat(choice.content@.take(i as int + 1)) + u,
                                b0,
                            ).1 =~= rc2 + split_model(
                                self.splitter.pending@ + u,
                                self.splitter.in_think_block,
                            ).1
                        } by {
                        let cu = c_i + u;
                        assert(p0 + content_concat(choice.content@.take(i as int + 1)) + u =~= p0
                            + content_concat(choice.content@.take(i as int)) + cu);
                        assert(split_model(
                            p0 + content_concat(choice.content@.take(i as int)) + cu,
                            b0,
                        ).0 =~= at + split_model(pend_i + cu, b_i).0);
                        assert(split_model(
                            p0 + content_concat(choice.content@.take(i as int)) + cu,
                            b0,
                        ).1 =~= rc + split_model(pend_i + cu, b_i).1);
                        if c_i.len() == 0 {
                            assert(segs_view.len() == 0);
                            assert(assistant_concat(segs_view) =~= Seq::<char>::empty());
                            assert(reasoning_concat(segs_view) =~= Seq::<char>::empty());
                            assert(pend_i + cu =~= self.splitter.pending@ + u);
                            assert(b_i == self.splitter.in_think_block);
                        } else {
                            assert(pend_i + c_i + u =~= pend_i + cu);
                            assert(split_model(pend_i + c_i + u, b_i).0 =~= assistant_concat(
                                segs_view,
                            ) + split_model(
                                self.splitter.pending@ + u,
                                self.splitter.in_think_block,
                            ).0);
                            assert(split_model(pend_i + c_i + u, b_i).1 =~= reasoning_concat(
                                segs_view,
                            ) + split_model(
                                self.splitter.pending@ + u,
                                self.splitter.in_think_block,
                            ).1);
                        }
                    }
                }
                at = at2;
                rc = rc2;
            }
            i = i + 1;
        }
        proof {
            assert(choice.content@.take(nc as int) =~= choice.content@);
        }
        let ghost pend_c = self.splitter.pending@;
        let ghost b_c = self.splitter.in_think_block;
        let ghost whole = policy_split(fmt, p0 + content_concat(choice.content@), b0);
        proof {
            if fmt is Standard {
                assert(p0.len() == 0);
                assert(p0 + content_concat(choice.content@) =~= content_concat(choice.content@));
                assert(whole.0 =~= at);
                assert(whole.1 =~= Seq::<char>::empty());
                assert(pend_c.len() == 0);
            } else {
                assert(p0 + content_concat(choice.content@) + Seq::<char>::empty() =~= p0
                    + content_concat(choice.content@));
                assert(pend_c + Seq::<char>::empty() =~= pend_c);
                assert(whole.0 =~= at + split_model(pend_c, b_c).0);
                assert(whole.1 =~= rc + split_model(pend_c, b_c).1);
            }
        }
        let nt = choice.tool_calls.len();
        let mut j: usize = 0;
        proof {
            assert(choice.tool_calls@.take(0) =~= Seq::<ToolCallDelta>::empty());
            assert(self.tools@ =~= apply_deltas_spec(tools0, choice.tool_calls@.take(0)));
        }
        let ghost items_a = self.assistant_text;
        let ghost items_r = self.reasoning_text;
        let ghost evs_c = evs@;
        while j < nt
            invariant
                nt == choice.tool_calls@.len(),
                j <= nt,
                turn_wf(*self),
                self.token_usage == old(self).token_usage,
                self.status == old(self).status,
                self.splitter.format == fmt,
                self.splitter.pending@ =~= pend_c,
                self.splitter.in_think_block == b_c,
                self.assistant_text == items_a,
                self.reasoning_text == items_r,
                evs@ =~= evs_c,
                self.tools@ =~= apply_deltas_spec(tools0, choice.tool_calls@.take(j as int)),
            decreases nt - j,
        {
            let ghost pre_tools = self.tools@;
            self.tools.apply_delta(&choice.tool_calls[j]);
            proof {
                assert(choice.tool_calls@.take(j as int + 1) =~= choice.tool_calls@.take(
                    j as int,
                ).push(choice.tool_calls@[j as int]));
                crate::tool_calls::lemma_apply_deltas_push(
                    tools0,
                    choice.tool_calls@.take(j as int),
                    choice.tool_calls@[j as int],
                );
                assert(pre_tools == apply_deltas_spec(tools0, choice.tool_calls@.take(j as int)));
                assert(self.tools@ =~= crate::tool_calls::apply_delta_spec(
                    pre_tools,
                    choice.tool_calls@[j as int],
                ));
            }
            j = j + 1;
        }
        proof {
            assert(choice.tool_calls@.take(nt as int) =~= choice.tool_calls@);
            assert(self.tools@ =~= apply_deltas_spec(tools0, choice.tool_calls@));
        }
        if let Some(mr) = &choice.message_reasoning {
            let ghost evs_before = evs@;
            let mut batch = self.append_reasoning_text(mr.as_str());
            let ghost batch_view = batch@;
            evs.append(&mut batch);
            proof {
                assert(evs@ =~= evs_before + batch_view);
                assert(evs@.take(evs_before.len() as int) =~= evs_before);
                assert(evs@.skip(evs_before.len() as int) =~= batch_view);
                lemma_event_concat_append(evs_before, evs@);
                lemma_event_append_pointwise(evs_before, evs@);
            }
        }
        proof {
            assert(text_deltas_concat(evs@) =~= at);
            assert(reasoning_deltas_concat(evs@) =~= opt_text(choice.reasoning) + rc + opt_text(
                choice.message_reasoning,
            ));
        }
        let ghost evs_m = evs@;
        match choice.finish_reason {
            Some(reason) => {
                let ghost pre = evs@;
                let ghost mid = *self;
                let (mut batch, halted) = self.finish_choice(reason);
                let ghost batch_view = batch@;
                evs.append(&mut batch);
                proof {
                    assert(evs@ =~= pre + batch_view);
                    assert(evs@.take(pre.len() as int) =~= pre);
                    assert(evs@.skip(pre.len() as int) =~= batch_view);
                    lemma_event_concat_append(pre, evs@);
                    lemma_event_append_pointwise(pre, evs@);
                    if halted {
                        assert(evs@.last() == batch_view[batch_view.len() - 1]);
                        assert(evs@.take(evs@.len() - 1) =~= pre);
                    }
                    if reason == FinishReason::Stop || reason == FinishReason::ToolCalls {
                        assert(text_deltas_concat(batch_view) =~= split_model(pend_c, b_c).0);
                        assert(reasoning_deltas_concat(batch_view) =~= split_model(
                            pend_c,
                            b_c,
                        ).1);
                        if fmt is Standard {
                            assert(split_model(pend_c, b_c).0 =~= Seq::<char>::empty());
                            assert(split_model(pend_c, b_c).1 =~= Seq::<char>::empty());
                        }
                        assert(text_deltas_concat(evs@) =~= whole.0);
                        let rc_w = rc;
                        let rf_w = split_model(pend_c, b_c).1;
                        assert(rc_w.add(rf_w) =~= whole.1);
                        assert(reasoning_deltas_concat(evs@) =~= opt_text(choice.reasoning) + rc_w
                            + opt_text(choice.message_reasoning) + rf_w);
                        let named = named_calls(apply_deltas_spec(
                            tools0,
                            choice.tool_calls@,
                        ).calls);
                        assert(mid.tools@.calls =~= apply_deltas_spec(
                            tools0,
                            choice.tool_calls@,
                        ).calls);
                        assert(named =~= named_calls(mid.tools@.calls));
                        assert(batch_view.len() >= named.len());
                        assert(evs@.skip(evs@.len() - named.len() as int) =~= batch_view.skip(
                            batch_view.len() - named.len() as int,
                        ));
                        assert(fc_events_match(
                            evs@.skip(evs@.len() - named.len() as int),
                            named,
                        ));
                        assert(mid.tools@ =~= apply_deltas_spec(tools0, choice.tool_calls@));
                        assert(self.tools@.id_map =~= mid.tools@.id_map);
                        assert(self.tools@.next_index == mid.tools@.next_index);
                        assert(self.tools@.last_index == mid.tools@.last_index);
                        assert(self.tools@.id_map =~= apply_deltas_spec(
                            tools0,
                            choice.tool_calls@,
                        ).id_map);
                    } else {
                        assert(text_deltas_concat(batch_view) =~= Seq::<char>::empty());
                        assert(reasoning_deltas_concat(batch_view) =~= Seq::<char>::empty());
                        assert(text_deltas_concat(evs@) =~= at);
                        assert(reasoning_deltas_concat(evs@) =~= opt_text(choice.reasoning) + rc
                            + opt_text(choice.message_reasoning));
                        assert(opt_text(choice.reasoning).add(rc) =~= opt_text(choice.reasoning)
                            + rc);
                    }
                }
                (evs, halted)
            },
            None => {
                proof {
                    assert(opt_text(choice.reasoning).add(rc) =~= opt_text(choice.reasoning)
                        + rc);
                }
                (evs, false)
            },
        }
    }

    /// Applies one parsed frame: a usage object overwrites the stored usage
    /// even when no choices are present; each choice is applied in order
    /// until one fails the turn.  In a terminal state the frame is ignored.
    pub fn apply_frame(&mut self, frame: &ChatFrame) -> (evs: Vec<OutputEvent>)
        requires
            turn_wf(*old(self)),
        ensures
            turn_wf(*final(self)),
            final(self).splitter.format == old(self).splitter.format,
            old(self).status != StreamStatus::Streaming ==> *final(self) == *old(self)
                && evs@.len() == 0,
            old(self).status == StreamStatus::Streaming ==> {
                &&& final(self).token_usage == (match frame.usage {
                    Some(f) => usage_of_fields(f),
                    None => old(self).token_usage,
                })
                &&& (final(self).status == StreamStatus::Streaming || final(self).status
                    == StreamStatus::Failed)
                &&& no_completed_events(evs@)
                &&& (final(self).status == StreamStatus::Failed <==> (frame.choices matches Some(
                    cs,
                ) && exists|i: int|
                    0 <= i < cs@.len() && (#[trigger] cs@[i]).finish_reason == Some(
                        FinishReason::Length,
                    )))
                &&& (final(self).status == StreamStatus::Streaming ==> no_error_events(evs@))
                &&& (final(self).status == StreamStatus::Failed ==> evs@.len() >= 1
                    && is_context_window_error(evs@.last()) && no_error_events(
                    evs@.take(evs@.len() - 1),
                ))
                &&& (frame.choices is None ==> evs@.len() == 0)
            },
    {
        if self.status != StreamStatus::Streaming {
            return Vec::new();
        }
        let mut evs: Vec<OutputEvent> = Vec::new();
        if let Some(f) = &frame.usage {
            self.token_usage = crate::usage::extract_usage(f);
        }
        let choices = match &frame.choices {
            Some(cs) => cs,
            None => {
                return evs;
            },
        };
        let n = choices.len();
        let mut i: usize = 0;
        while i < n
            invariant
                n == choices@.len(),
                i <= n,
                turn_wf(*self),
                old(self).status == StreamStatus::Streaming,
                self.splitter.format == old(self).splitter.format,
                self.token_usage == (match frame.usage {
                    Some(f) => usage_of_fields(f),
                    None => old(self).token_usage,
                }),
                self.status == StreamStatus::Streaming,
                no_error_events(evs@),
                no_completed_events(evs@),
                frame.choices matches Some(cs) && cs@ =~= choices@,
                forall|k: int|
                    0 <= k < i ==> (#[trigger] choices@[k]).finish_reason != Some(
                        FinishReason::Length,
                    ),
            decreases n - i,
        {
            let ghost pre = evs@;
            let (mut batch, halted) = self.apply_choice(&choices[i]);
            let ghost bv = batch@;
            evs.append(&mut batch);
            proof {
                assert(evs@ =~= pre + bv);
                assert(evs@.take(pre.len() as int) =~= pre);
                assert(evs@.skip(pre.len() as int) =~= bv);
                lemma_event_append_pointwise(pre, evs@);
            }
            if halted {
                proof {
                    assert(choices@[i as int].finish_reason == Some(FinishReason::Length));
                    assert(frame.choices matches Some(cs) && cs@[i as int].finish_reason
                        == Some(FinishReason::Length));
                    assert(evs@.last() == bv[bv.len() - 1]);
                    assert(evs@.take(evs@.len() - 1) =~= pre + bv.take(bv.len() - 1));
                    assert((pre + bv.take(bv.len() - 1)).take(pre.len() as int) =~= pre);
                    assert((pre + bv.take(bv.len() - 1)).skip(pre.len() as int) =~= bv.take(
                        bv.len() - 1,
                    ));
                    lemma_event_append_pointwise(pre, pre + bv.take(bv.len() - 1));
                }
                return evs;
            }
            i = i + 1;
        }
        evs
    }

    /// Flushes everything still pending and completes the turn: splitter
    /// remainder, open reasoning and assistant items, then a `Completed`
    /// carrying the last stored usage, which is consumed.
    fn flush_and_complete(&mut self) -> (evs: Vec<OutputEvent>)
        requires
            turn_wf(*old(self)),
            old(self).status == StreamStatus::Streaming,
        ensures
            turn_wf(*final(self)),
            final(self).status == StreamStatus::Completed,
            final(self).splitter.format == old(self).splitter.format,
            final(self).token_usage is None,
            final(self).assistant_text is None,
            final(self).reasoning_text is None,
            final(self).splitter.pending@.len() == 0,
            evs@.len() >= 1,
            is_completed(evs@.last(), old(self).token_usage),
            no_error_events(evs@),
            flush_events_match(evs@, *old(self)),
    {
        let ghost t0 = *self;
        let mut evs: Vec<OutputEvent> = Vec::new();
        let mut segs = self.splitter.flush_remaining();
        if segs.len() > 0 {
            let seg = segs.remove(0);
            let mut batch = match seg {
                ContentSegment::Assistant(text) => self.append_assistant_text(text.as_str()),
                ContentSegment::Reasoning(text) => self.append_reasoning_text(text.as_str()),
            };
            let ghost bv = batch@;
            evs.append(&mut batch);
            proof {
                assert(evs@ =~= bv);
            }
        }
        let ghost nseg = evs@.len() as int;
        let mut batch = self.close_reasoning();
        let ghost e_r = batch@;
        evs.append(&mut batch);
        let mut batch = self.close_assistant();
        let ghost e_a = batch@;
        evs.append(&mut batch);
        let usage = self.token_usage.take();
        evs.push(OutputEvent::Completed { response_id: String::new(), usage });
        self.status = StreamStatus::Completed;
        proof {
            let pend = t0.splitter.pending@;
            let b = t0.splitter.in_think_block;
            if pend.len() > 0 {
                assert(evs@.len() == nseg + e_r.len() + e_a.len() + 1);
            }
            assert(is_completed(evs@.last(), t0.token_usage));
        }
        evs
    }

    /// Handles one frame payload.  A terminal turn ignores it.  A sentinel
    /// payload completes the turn exactly like a graceful close; an empty
    /// payload is a no-op; a payload that does not parse as JSON is skipped
    /// and the stream continues; any other payload is applied as a frame.
    pub fn handle_data(&mut self, data: &str) -> (evs: Vec<OutputEvent>)
        requires
            turn_wf(*old(self)),
        ensures
            turn_wf(*final(self)),
            final(self).splitter.format == old(self).splitter.format,
            old(self).status != StreamStatus::Streaming ==> *final(self) == *old(self)
                && evs@.len() == 0,
            old(self).status == StreamStatus::Streaming && is_sentinel(
                crate::text_trim::trim_spec(data@),
            ) ==> {
                &&& final(self).status == StreamStatus::Completed
                &&& final(self).token_usage is None
                &&& evs@.len() >= 1
                &&& is_completed(evs@.last(), old(self).token_usage)
                &&& no_error_events(evs@)
                &&& flush_events_match(evs@, *old(self))
            },
            old(self).status == StreamStatus::Streaming && !is_sentinel(
                crate::text_trim::trim_spec(data@),
            ) ==> {
                &&& no_completed_events(evs@)
                &&& final(self).status != StreamStatus::Completed
            },
            old(self).status == StreamStatus::Streaming && crate::text_trim::trim_spec(
                data@,
            ).len() == 0 ==> *final(self) == *old(self) && evs@.len() == 0,
    {
        if self.status != StreamStatus::Streaming {
            return Vec::new();
        }
        let trimmed = crate::text_trim::trim_white(data);
        if trimmed.as_str().unicode_len() == 0 {
            return Vec::new();
        }
        let is_sent = {
            proof {
                reveal_strlit("[DONE]");
                reveal_strlit("DONE");
            }
            crate::text::str_eq(trimmed.as_str(), "[DONE]") || crate::text::str_eq(
                trimmed.as_str(),
                "DONE",
            )
        };
        if is_sent {
            return self.flush_and_complete();
        }
        match json_parse(trimmed.as_str()) {
            Some(v) => {
                let frame = parse_frame(&v);
                self.apply_frame(&frame)
            },
            None => Vec::new(),
        }
    }

    /// Handles the graceful end of the byte stream: flush and complete.
    /// This is the only place where usage collected after a stop finish
    /// reason reaches the output.
    pub fn handle_stream_closed(&mut self) -> (evs: Vec<OutputEvent>)
        requires
            turn_wf(*old(self)),
        ensures
            turn_wf(*final(self)),
            old(self).status != StreamStatus::Streaming ==> *final(self) == *old(self)
                && evs@.len() == 0,
            old(self).status == StreamStatus::Streaming ==> {
                &&& final(self).status == StreamStatus::Completed
                &&& final(self).token_usage is None
                &&& evs@.len() >= 1
                &&& is_completed(evs@.last(), old(self).token_usage)
                &&& no_error_events(evs@)
                &&& flush_events_match(evs@, *old(self))
            },
    {
        if self.status != StreamStatus::Streaming {
            return Vec::new();
        }
        self.flush_and_complete()
    }

    /// Handles a transport-level error: the turn fails with exactly one
    /// transport error event.
    pub fn handle_transport_error(&mut self, message: String) -> (evs: Vec<OutputEvent>)
        requires
            turn_wf(*old(self)),
        ensures
            turn_wf(*final(self)),
            old(self).status != StreamStatus::Streaming ==> *final(self) == *old(self)
                && evs@.len() == 0,
            old(self).status == StreamStatus::Streaming ==> {
                &&& final(self).status == StreamStatus::Failed
                &&& evs@.len() == 1
                &&& (match evs@[0] {
                    OutputEvent::Error(StreamErrorKind::Transport(m)) => m@ =~= message@,
                    _ => false,
                })
            },
    {
        if self.status != StreamStatus::Streaming {
            return Vec::new();
        }
        let mut evs: Vec<OutputEvent> = Vec::new();
        evs.push(OutputEvent::Error(StreamErrorKind::Transport(message)));
        self.status = StreamStatus::Failed;
        evs
    }

    /// Handles an idle timeout while waiting for the next frame: the turn
    /// fails with exactly one idle-timeout error event.
    pub fn handle_idle_timeout(&mut self) -> (evs: Vec<OutputEvent>)
        requires
            turn_wf(*old(self)),
        ensures
            turn_wf(*final(self)),
            old(self).status != StreamStatus::Streaming ==> *final(self) == *old(self)
                && evs@.len() == 0,
            old(self).status == StreamStatus::Streaming ==> {
                &&& final(self).status == StreamStatus::Failed
                &&& evs@.len() == 1
                &&& evs@[0] == OutputEvent::Error(StreamErrorKind::IdleTimeout)
            },
    {
        if self.status != StreamStatus::Streaming {
            return Vec::new();
        }
        let mut evs: Vec<OutputEvent> = Vec::new();
        evs.push(OutputEvent::Error(StreamErrorKind::IdleTimeout));
        self.status = StreamStatus::Failed;
        evs
    }
}

/// A stream-termination sentinel payload, in either accepted spelling.
pub open spec fn is_sentinel(t: Seq<char>) -> bool {
    t =~= seq!['[', 'D', 'O', 'N', 'E', ']'] || t =~= seq!['D', 'O', 'N', 'E']
}

/// Everything except the assistant item is unchanged.
pub open spec fn self_except_assistant_unchanged(a: TurnState, b: TurnState) -> bool {
    &&& b.splitter == a.splitter
    &&& b.tools@ == a.tools@
    &&& b.reasoning_text == a.reasoning_text
    &&& b.token_usage == a.token_usage
    &&& b.status == a.status
}

/// Everything except the reasoning item is unchanged.
pub open spec fn self_except_reasoning_unchanged(a: TurnState, b: TurnState) -> bool {
    &&& b.splitter == a.splitter
    &&& b.tools@ == a.tools@
    &&& b.assistant_text == a.assistant_text
    &&& b.token_usage == a.token_usage
    &&& b.status == a.status
}

/// Everything except the two in-flight items is unchanged.
pub open spec fn self_except_items_unchanged(a: TurnState, b: TurnState) -> bool {
    &&& b.splitter == a.splitter
    &&& b.tools@ == a.tools@
    &&& b.token_usage == a.token_usage
    &&& b.status == a.status
}

/// Everything except the tool-call accumulator is unchanged.
pub open spec fn self_except_tools_unchanged(a: TurnState, b: TurnState) -> bool {
    &&& b.splitter == a.splitter
    &&& b.assistant_text == a.assistant_text
    &&& b.reasoning_text == a.reasoning_text
    &&& b.token_usage == a.token_usage
    &&& b.status == a.status
}

/// The delta concatenations of a one- or two-event vector whose leading
/// event, if any, is an `ItemAdded`.
proof fn lemma_event_concats(e: Seq<OutputEvent>)
    requires
        1 <= e.len() <= 2,
        forall|i: int| 0 <= i < e.len() - 1 ==> (#[trigger] e[i]) is ItemAdded,
    ensures
        text_deltas_concat(e) =~= (match e.last() {
            OutputEvent::TextDelta(s) => s@,
            _ => Seq::empty(),
        }),
        reasoning_deltas_concat(e) =~= (match e.last() {
            OutputEvent::ReasoningDelta { delta, .. } => delta@,
            _ => Seq::empty(),
        }),
{
    reveal_with_fuel(text_deltas_concat, 3);
    reveal_with_fuel(reasoning_deltas_concat, 3);
    if e.len() == 2 {
        assert(e.drop_last().drop_last() =~= Seq::<OutputEvent>::empty());
        assert(e.drop_last().last() == e[0]);
        assert(e[0] is ItemAdded);
        assert(text_deltas_concat(e.drop_last()) =~= Seq::<char>::empty());
        assert(reasoning_deltas_concat(e.drop_last()) =~= Seq::<char>::empty());
    } else {
        assert(e.drop_last() =~= Seq::<OutputEvent>::empty());
        assert(text_deltas_concat(e.drop_last()) =~= Seq::<char>::empty());
        assert(reasoning_deltas_concat(e.drop_last()) =~= Seq::<char>::empty());
    }
}

/// The pointwise event classifications distribute over appending a batch.
proof fn lemma_event_append_pointwise(a: Seq<OutputEvent>, ab: Seq<OutputEvent>)
    requires
        a.len() <= ab.len(),
        ab.take(a.len() as int) =~= a,
    ensures
        no_completed_events(ab) <==> (no_completed_events(a) && no_completed_events(
            ab.skip(a.len() as int),
        )),
        no_error_events(ab) <==> (no_error_events(a) && no_error_events(
            ab.skip(a.len() as int),
        )),
{
    let b = ab.skip(a.len() as int);
    if no_completed_events(a) && no_completed_events(b) {
        assert forall|i: int| 0 <= i < ab.len() implies !((#[trigger] ab[i]) is Completed) by {
            if i < a.len() {
                assert(ab[i] == a[i]);
            } else {
                assert(ab[i] == b[i - a.len()]);
            }
        }
    }
    if no_completed_events(ab) {
        assert forall|i: int| 0 <= i < a.len() implies !((#[trigger] a[i]) is Completed) by {
            assert(a[i] == ab[i]);
        }
        assert forall|i: int| 0 <= i < b.len() implies !((#[trigger] b[i]) is Completed) by {
            assert(b[i] == ab[i + a.len()]);
        }
    }
    if no_error_events(a) && no_error_events(b) {
        assert forall|i: int| 0 <= i < ab.len() implies !((#[trigger] ab[i]) is Error) by {
            if i < a.len() {
                assert(ab[i] == a[i]);
            } else {
                assert(ab[i] == b[i - a.len()]);
            }
        }
    }
    if no_error_events(ab) {
        assert forall|i: int| 0 <= i < a.len() implies !((#[trigger] a[i]) is Error) by {
            assert(a[i] == ab[i]);
        }
        assert forall|i: int| 0 <= i < b.len() implies !((#[trigger] b[i]) is Error) by {
            assert(b[i] == ab[i + a.len()]);
        }
    }
}

/// Events that are all item-closes contribute nothing to the delta
/// concatenations.
proof fn lemma_concat_of_non_delta(evs: Seq<OutputEvent>)
    requires
        forall|i: int|
            0 <= i < evs.len() ==> !((#[trigger] evs[i]) is TextDelta) && !(evs[i]
                is ReasoningDelta),
    ensures
        text_deltas_concat(evs) =~= Seq::<char>::empty(),
        reasoning_deltas_concat(evs) =~= Seq::<char>::empty(),
    decreases evs.len(),
{
    if evs.len() > 0 {
        assert forall|i: int|
            0 <= i < evs.drop_last().len() implies !((#[trigger] evs.drop_last()[i]) is TextDelta)
            && !(evs.drop_last()[i] is ReasoningDelta) by {
            assert(evs.drop_last()[i] == evs[i]);
        }
        lemma_concat_of_non_delta(evs.drop_last());
        assert(evs.last() == evs[evs.len() - 1]);
    }
}

/// The exact event sequence of a flush-and-complete from pre-state `t`:
/// the buffered splitter remainder as one delta (with an `ItemAdded` when
/// it opens a fresh item), the `ItemDone` closes of the open reasoning and
/// assistant items with their accumulated text, and last the `Completed`
/// carrying the stored usage.  Every index of the sequence is pinned.
pub open spec fn flush_events_match(evs: Seq<OutputEvent>, t: TurnState) -> bool {
    let pend = t.splitter.pending@;
    let b = t.splitter.in_think_block;
    let open_r = t.reasoning_text is Some || (pend.len() > 0 && b);
    let open_a = t.assistant_text is Some || (pend.len() > 0 && !b);
    let r_total = opt_text(t.reasoning_text) + (if pend.len() > 0 && b {
        pend
    } else {
        Seq::<char>::empty()
    });
    let a_total = opt_text(t.assistant_text) + (if pend.len() > 0 && !b {
        pend
    } else {
        Seq::<char>::empty()
    });
    let nseg: int = if pend.len() == 0 {
        0
    } else if (b && t.reasoning_text is None) || (!b && t.assistant_text is None) {
        2
    } else {
        1
    };
    let nr: int = if open_r {
        1int
    } else {
        0int
    };
    let na: int = if open_a {
        1int
    } else {
        0int
    };
    &&& evs.len() == nseg + nr + na + 1
    &&& (pend.len() > 0 && b && t.reasoning_text is None ==> is_reasoning_added(evs[0]))
    &&& (pend.len() > 0 && !b && t.assistant_text is None ==> is_assistant_added(evs[0]))
    &&& (pend.len() > 0 ==> (if b {
        is_reasoning_delta(evs[nseg - 1], pend)
    } else {
        is_text_delta(evs[nseg - 1], pend)
    }))
    &&& (open_r ==> is_reasoning_done(evs[nseg], r_total))
    &&& (open_a ==> is_message_done(evs[nseg + nr], a_total))
    &&& is_completed(evs[nseg + nr + na], t.token_usage)
}

/// The finish-phase layering: segment deltas, then item closes, then
/// function-call closes.  Only the first layer carries deltas; no layer
/// carries a `Completed`.
proof fn lemma_finish_batch_concats(
    c1: Seq<OutputEvent>,
    c2: Seq<OutputEvent>,
    c3: Seq<OutputEvent>,
    whole: Seq<OutputEvent>,
    e1: Seq<OutputEvent>,
    e2: Seq<OutputEvent>,
    e3: Seq<OutputEvent>,
    e4: Seq<OutputEvent>,
)
    requires
        c1 =~= e1,
        c2 =~= c1 + e2,
        c3 =~= c2 + e3,
        whole =~= c3 + e4,
        delta_events_only(e1),
        forall|i: int| 0 <= i < e2.len() ==> (#[trigger] e2[i]) is ItemDone,
        forall|i: int| 0 <= i < e3.len() ==> (#[trigger] e3[i]) is ItemDone,
        forall|i: int| 0 <= i < e4.len() ==> (#[trigger] e4[i]) is ItemDone,
    ensures
        text_deltas_concat(whole) =~= text_deltas_concat(e1),
        reasoning_deltas_concat(whole) =~= reasoning_deltas_concat(e1),
        no_completed_events(whole),
{
    lemma_concat_of_non_delta(e2);
    lemma_concat_of_non_delta(e3);
    lemma_concat_of_non_delta(e4);
    assert(c2.take(c1.len() as int) =~= c1);
    assert(c2.skip(c1.len() as int) =~= e2);
    lemma_event_concat_append(c1, c2);
    assert(c3.take(c2.len() as int) =~= c2);
    assert(c3.skip(c2.len() as int) =~= e3);
    lemma_event_concat_append(c2, c3);
    assert(whole.take(c3.len() as int) =~= c3);
    assert(whole.skip(c3.len() as int) =~= e4);
    lemma_event_concat_append(c3, whole);
    assert(text_deltas_concat(c1) =~= text_deltas_concat(e1));
    assert(reasoning_deltas_concat(c1) =~= reasoning_deltas_concat(e1));
    assert forall|i: int| 0 <= i < whole.len() implies !((#[trigger] whole[i]) is Completed) by {
        if i < c1.len() {
            assert(whole[i] == e1[i]);
            assert(e1[i] is ItemAdded || e1[i] is TextDelta || e1[i] is ReasoningDelta);
        } else if i < c2.len() {
            assert(whole[i] == e2[i - c1.len()]);
        } else if i < c3.len() {
            assert(whole[i] == e3[i - c2.len()]);
        } else {
            assert(whole[i] == e4[i - c3.len()]);
        }
    }
}

/// Concatenations distribute over appending a batch of events.
proof fn lemma_event_concat_append(a: Seq<OutputEvent>, ab: Seq<OutputEvent>)
    requires
        a.len() <= ab.len(),
        ab.take(a.len() as int) =~= a,
    ensures
        text_deltas_concat(ab) =~= text_deltas_concat(a) + text_deltas_concat(
            ab.skip(a.len() as int),
        ),
        reasoning_deltas_concat(ab) =~= reasoning_deltas_concat(a) + reasoning_deltas_concat(
            ab.skip(a.len() as int),
        ),
    decreases ab.len(),
{
    let b = ab.skip(a.len() as int);
    if ab.len() == a.len() {
        assert(ab =~= a);
        assert(b =~= Seq::<OutputEvent>::empty());
        assert(text_deltas_concat(b) =~= Seq::<char>::empty());
        assert(reasoning_deltas_concat(b) =~= Seq::<char>::empty());
    } else {
        let ab1 = ab.drop_last();
        assert(ab1.take(a.len() as int) =~= a);
        lemma_event_concat_append(a, ab1);
        assert(ab1.skip(a.len() as int) =~= b.drop_last());
        assert(ab.last() == b.last());
    }
}

/// One step of a take: the concatenations over `all.take(k + 1)` extend
/// those over `all.take(k)` by the segment at `k`.
proof fn lemma_concat_take_step(all: Seq<ContentSegment>, k: int)
    requires
        0 <= k < all.len(),
    ensures
        assistant_concat(all.take(k + 1)) =~= assistant_concat(all.take(k)) + (if all[k]
            is Assistant {
            seg_text(all[k])
        } else {
            Seq::empty()
        }),
        reasoning_concat(all.take(k + 1)) =~= reasoning_concat(all.take(k)) + (if all[k]
            is Reasoning {
            seg_text(all[k])
        } else {
            Seq::empty()
        }),
{
    assert(all.take(k + 1) =~= all.take(k).push(all[k]));
    crate::splitter::lemma_concat_push(all.take(k), all[k]);
}

} // verus!
