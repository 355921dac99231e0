//! Serialisation of conversation history into the archive agent's transcript,
//! with the text transforms it relies on.

use vstd::prelude::*;

use vstd::utf8::encode_utf8;
use vstd::utf8::is_char_boundary;
use vstd::string::StringSliceAdditionalSpecFns;

use crate::events::ContentItem;
use crate::splitter::open_tag;
use crate::splitter::close_tag;
use crate::text::find_str;
use crate::text::first_match;
use crate::text::is_prefix_of;
use crate::text::lemma_first_match_props;
use crate::text::match_at;
use crate::text::str_starts_with;
use crate::text_trim::trim_white;
use crate::text_trim::trim_front_white;
use crate::text_trim::trim_front_spec;
use crate::text_trim::trim_spec;

verus! {

/// One item of conversation history, reduced to the plain values the
/// transcript needs.
#[derive(Debug, Clone, PartialEq, Eq)]
pub enum HistoryItem {
    Message { role: String, content: Vec<ContentItem> },
    FunctionCall { name: String, arguments: String },
    FunctionCallOutput { output: String },
    LocalShellCall { command: Vec<String> },
    Other,
}

/// Maximum characters kept from a single tool result; longer output is cut
/// with a marker.
pub const TOOL_RESULT_MAX_CHARS: usize = 2000;

/// The concatenated text of a content list, or nothing when it has no text
/// part at all.
pub open spec fn content_text_spec(content: Seq<ContentItem>) -> Option<Seq<char>>
    decreases content.len(),
{
    if content.len() == 0 {
        None
    } else {
        let head = match content[0] {
            ContentItem::InputText { text } => text@,
            ContentItem::OutputText { text } => text@,
        };
        match content_text_spec(content.skip(1)) {
            Some(rest) => Some(head + rest),
            None => Some(head),
        }
    }
}

/// Joins the text parts of a message body; a body with no text part yields
/// nothing.
pub fn content_items_to_text(content: &Vec<ContentItem>) -> (r: Option<String>)
    ensures
        match r {
            Some(s) => content_text_spec(content@) == Some(s@),
            None => content_text_spec(content@) is None,
        },
{
    if content.len() == 0 {
        return None;
    }
    let mut out = String::new();
    let n = content.len();
    let mut i: usize = 0;
    proof {
        assert(content@.skip(0) =~= content@);
    }
    while i < n
        invariant
            n == content@.len(),
            n > 0,
            i <= n,
            content_text_spec(content@) matches Some(w) && w =~= out@ + (match content_text_spec(
                content@.skip(i as int),
            ) {
                Some(rest) => rest,
                None => Seq::<char>::empty(),
            }),
        decreases n - i,
    {
        proof {
            assert(content@.skip(i as int)[0] == content@[i as int]);
            assert(content@.skip(i as int).skip(1) =~= content@.skip(i as int + 1));
        }
        match &content[i] {
            ContentItem::InputText { text } => out.append(text.as_str()),
            ContentItem::OutputText { text } => out.append(text.as_str()),
        }
        i = i + 1;
    }
    proof {
        assert(content@.skip(n as int) =~= Seq::<ContentItem>::empty());
    }
    Some(out)
}

/// A system-injected message, detected by its content prefix after leading
/// whitespace.
pub open spec fn is_system_message_spec(t: Seq<char>) -> bool {
    let s = trim_front_spec(t);
    ||| is_prefix_of("<permissions"@, s)
    ||| is_prefix_of("# AGENTS.md"@, s)
    ||| is_prefix_of("<environment_context>"@, s)
    ||| is_prefix_of("<INSTRUCTIONS>"@, s)
    ||| is_prefix_of("<collaboration_mode>"@, s)
    ||| is_prefix_of("[System:"@, s)
}

/// Detects messages injected by the runtime rather than written by a user:
/// they carry no conversational knowledge worth archiving.
pub fn is_system_message(text: &str) -> (r: bool)
    ensures
        r == is_system_message_spec(text@),
{
    let trimmed = trim_front_white(text);
    let s = trimmed.as_str();
    str_starts_with(s, "<permissions") || str_starts_with(s, "# AGENTS.md") || str_starts_with(
        s,
        "<environment_context>",
    ) || str_starts_with(s, "<INSTRUCTIONS>") || str_starts_with(s, "<collaboration_mode>")
        || str_starts_with(s, "[System:")
}

/// The greatest character boundary at or below `max`.
pub open spec fn last_boundary(bytes: Seq<u8>, max: int) -> int
    decreases max when max >= 0
{
    if max <= 0 {
        0
    } else if is_char_boundary(bytes, max) {
        max
    } else {
        last_boundary(bytes, max - 1)
    }
}

/// A witness boundary with nothing above it pins down `last_boundary`.
proof fn lemma_last_boundary_is(bytes: Seq<u8>, max: int, b: int)
    requires
        0 <= b <= max,
        is_char_boundary(bytes, b),
        forall|b2: int| b < b2 <= max ==> !is_char_boundary(bytes, b2),
    ensures
        last_boundary(bytes, max) == b,
    decreases max,
{
    if max <= 0 {
    } else if is_char_boundary(bytes, max) {
        assert(b == max);
    } else {
        lemma_last_boundary_is(bytes, max - 1, b);
    }
}

/// What truncation returns: the text itself when it fits, else its longest
/// whole-character prefix within the limit, with the marker appended.
pub open spec fn truncate_spec(s: Seq<char>, max: int) -> Seq<char> {
    if encode_utf8(s).len() <= max {
        s
    } else {
        vstd::utf8::decode_utf8(encode_utf8(s).subrange(0, last_boundary(encode_utf8(s), max)))
            + "... [truncated]"@
    }
}

/// Truncates text to at most `max_chars` bytes, appending a marker when
/// anything was cut; the cut falls on the greatest character boundary not
/// beyond the limit, so no character is ever split.
pub fn truncate_text(text: &str, max_chars: usize) -> (r: String)
    ensures
        r@ =~= truncate_spec(text@, max_chars as int),
{
    proof {
        broadcast use vstd::utf8::encode_utf8_valid_utf8;
        broadcast use vstd::utf8::encode_utf8_decode_utf8;

    }
    let byte_len = text.as_bytes().len();
    proof {
        broadcast use vstd::slice::axiom_spec_len;

        assert(byte_len == text.spec_bytes().len());
    }
    if byte_len <= max_chars {
        return text.to_owned();
    }
    let mut b: usize = max_chars;
    while !text.is_char_boundary(b)
        invariant
            b <= max_chars,
            max_chars < text.spec_bytes().len(),
            vstd::utf8::valid_utf8(text.spec_bytes()),
            forall|b2: int| b < b2 <= max_chars ==> !is_char_boundary(text.spec_bytes(), b2),
        decreases b,
    {
        proof {
            assert(is_char_boundary(text.spec_bytes(), 0));
        }
        b = b - 1;
    }
    let (prefix, _) = text.split_at(b);
    let mut r = prefix.to_owned();
    r.append("... [truncated]");
    proof {
        lemma_last_boundary_is(text.spec_bytes(), max_chars as int, b as int);
        assert(encode_utf8(prefix@) =~= text.spec_bytes().subrange(0, b as int));
        assert(vstd::utf8::decode_utf8(encode_utf8(prefix@)) == prefix@);
    }
    r
}

/// The text with every complete `<think>…</think>` block removed; an
/// unclosed opening tag drops the rest of the text.
pub open spec fn strip_think_spec(s: Seq<char>) -> Seq<char>
    decreases s.len()
        via strip_think_spec_decreases
{
    match first_match(s, open_tag()) {
        None => s,
        Some(i) => match first_match(s.skip(i), close_tag()) {
            None => s.take(i),
            Some(j) => s.take(i) + strip_think_spec(s.skip(i + j + close_tag().len() as int)),
        },
    }
}

#[via_fn]
proof fn strip_think_spec_decreases(s: Seq<char>) {
    lemma_first_match_props(s, open_tag());
    if let Some(i) = first_match(s, open_tag()) {
        lemma_first_match_props(s.skip(i), close_tag());
        if let Some(j) = first_match(s.skip(i), close_tag()) {
            assert(close_tag().len() == 8);
            assert(match_at(s.skip(i), close_tag(), j));
        }
    }
}

/// Removes `<think>…</think>` blocks and trims the result.  Model reasoning
/// markup has no archival value and confuses archive agents that use the
/// same markup themselves.
pub fn strip_think_tags(text: &str) -> (r: String)
    ensures
        r@ =~= trim_spec(strip_think_spec(text@)),
{
    let open_lit = "<think>";
    let close_lit = "</think>";
    proof {
        reveal_strlit("<think>");
        reveal_strlit("</think>");
        assert(open_lit@ =~= open_tag());
        assert(close_lit@ =~= close_tag());
    }
    let mut result = String::new();
    let mut rest = text.to_owned();
    let mut scanning = true;
    while scanning
        invariant
            open_lit@ =~= open_tag(),
            close_lit@ =~= close_tag(),
            scanning ==> strip_think_spec(text@) =~= result@ + strip_think_spec(rest@),
            !scanning ==> strip_think_spec(text@) =~= result@,
        decreases (if scanning {
            1int
        } else {
            0int
        }), rest@.len(),
    {
        let ghost p = rest@;
        match find_str(rest.as_str(), open_lit) {
            None => {
                result.append(rest.as_str());
                scanning = false;
            },
            Some(start) => {
                proof {
                    lemma_first_match_props(p, open_tag());
                }
                let n = rest.as_str().unicode_len();
                let tail = rest.as_str().substring_char(start, n).to_owned();
                match find_str(tail.as_str(), close_lit) {
                    None => {
                        let kept = rest.as_str().substring_char(0, start).to_owned();
                        result.append(kept.as_str());
                        scanning = false;
                        proof {
                            assert(tail@ =~= p.skip(start as int));
                        }
                    },
                    Some(end) => {
                        proof {
                            lemma_first_match_props(tail@, close_tag());
                            assert(tail@ =~= p.skip(start as int));
                            assert(match_at(p.skip(start as int), close_tag(), end as int));
                        }
                        let kept = rest.as_str().substring_char(0, start).to_owned();
                        result.append(kept.as_str());
                        let next = rest.as_str().substring_char(start + end + 8, n).to_owned();
                        rest = next;
                        proof {
                            assert(rest@ =~= p.skip(start + end + 8));
                        }
                    },
                }
            },
        }
    }
    trim_white(result.as_str())
}

/// The transcript entry one history item contributes, or nothing for items
/// the archive skips: developer messages, system-injected user messages,
/// reasoning and other non-conversational metadata.
pub open spec fn entry_spec(item: HistoryItem) -> Option<Seq<char>> {
    match item {
        HistoryItem::Message { role, content } => match content_text_spec(content@) {
            None => None,
            Some(text) => if role@ =~= "developer"@ {
                None
            } else if role@ =~= "user"@ && is_system_message_spec(text) {
                None
            } else {
                let body = if role@ =~= "assistant"@ {
                    trim_spec(strip_think_spec(text))
                } else {
                    text
                };
                Some("["@ + role@ + "]\n"@ + body)
            },
        },
        HistoryItem::FunctionCall { name, arguments } => Some(
            "[tool_call: "@ + name@ + "]\n"@ + arguments@,
        ),
        HistoryItem::FunctionCallOutput { output } => Some(
            "[tool_result]\n"@ + truncate_spec(output@, TOOL_RESULT_MAX_CHARS as int),
        ),
        HistoryItem::LocalShellCall { command } => Some(
            "[tool_call: shell]\n"@ + join_spaces(command@),
        ),
        HistoryItem::Other => None,
    }
}

/// Command words joined with single spaces.
pub open spec fn join_spaces(ws: Seq<String>) -> Seq<char>
    decreases ws.len(),
{
    if ws.len() == 0 {
        Seq::empty()
    } else if ws.len() == 1 {
        ws[0]@
    } else {
        join_spaces(ws.drop_last()) + " "@ + ws.last()@
    }
}

/// The whole transcript: kept entries in order, separated by blank lines.
pub open spec fn transcript_spec(items: Seq<HistoryItem>) -> Seq<char>
    decreases items.len(),
{
    if items.len() == 0 {
        Seq::empty()
    } else {
        let rest = transcript_spec(items.drop_last());
        match entry_spec(items.last()) {
            None => rest,
            Some(e) => if rest.len() == 0 {
                e
            } else {
                rest + "\n\n"@ + e
            },
        }
    }
}

/// Serialises conversation history to a readable transcript: kept entries in
/// order, separated by blank lines.  Tool results are truncated, think-tag
/// markup is stripped from assistant messages, and system-injected content
/// is skipped.
pub fn serialize_history(items: &Vec<HistoryItem>) -> (r: String)
    ensures
        r@ =~= transcript_spec(items@),
{
    let mut transcript = String::new();
    let n = items.len();
    let mut i: usize = 0;
    while i < n
        invariant
            n == items@.len(),
            i <= n,
            transcript@ =~= transcript_spec(items@.take(i as int)),
        decreases n - i,
    {
        let ghost tk = items@.take(i as int + 1);
        proof {
            assert(tk.drop_last() =~= items@.take(i as int));
            assert(tk.last() == items@[i as int]);
        }
        let entry: Option<String> = match &items[i] {
            HistoryItem::Message { role, content } => {
                match content_items_to_text(content) {
                    None => None,
                    Some(text) => {
                        if crate::text::str_eq(role.as_str(), "developer") {
                            None
                        } else if crate::text::str_eq(role.as_str(), "user") && is_system_message(
                            text.as_str(),
                        ) {
                            None
                        } else {
                            let body = if crate::text::str_eq(role.as_str(), "assistant") {
                                strip_think_tags(text.as_str())
                            } else {
                                text
                            };
                            let mut e = String::new();
                            e.append("[");
                            e.append(role.as_str());
                            e.append("]\n");
                            e.append(body.as_str());
                            Some(e)
                        }
                    },
                }
            },
            HistoryItem::FunctionCall { name, arguments } => {
                let mut e = String::new();
                e.append("[tool_call: ");
                e.append(name.as_str());
                e.append("]\n");
                e.append(arguments.as_str());
                Some(e)
            },
            HistoryItem::FunctionCallOutput { output } => {
                let truncated = truncate_text(output.as_str(), TOOL_RESULT_MAX_CHARS);
                let mut e = String::new();
                e.append("[tool_result]\n");
                e.append(truncated.as_str());
                Some(e)
            },
            HistoryItem::LocalShellCall { command } => {
                let mut e = String::new();
                e.append("[tool_call: shell]\n");
                let m = command.len();
                let mut k: usize = 0;
                while k < m
                    invariant
                        m == command@.len(),
                        k <= m,
                        e@ =~= "[tool_call: shell]\n"@ + join_spaces(command@.take(k as int)),
                    decreases m - k,
                {
                    if k > 0 {
                        e.append(" ");
                    }
                    e.append(command[k].as_str());
                    proof {
                        let t = command@.take(k as int + 1);
                        assert(t.drop_last() =~= command@.take(k as int));
                        assert(t.last() == command@[k as int]);
                        if k == 0 {
                            assert(t.len() == 1);
                            assert(t[0] == command@[0]);
                        }
                    }
                    k = k + 1;
                }
                proof {
                    assert(command@.take(m as int) =~= command@);
                }
                Some(e)
            },
            HistoryItem::Other => None,
        };
        proof {
            assert(match entry {
                Some(e) => entry_spec(items@[i as int]) == Some(e@),
                None => entry_spec(items@[i as int]) is None,
            });
        }
        if let Some(e) = entry {
            if transcript.as_str().unicode_len() > 0 {
                transcript.append("\n\n");
            }
            transcript.append(e.as_str());
        }
        i = i + 1;
    }
    proof {
        assert(items@.take(n as int) =~= items@);
    }
    transcript
}

/// The handoff recorded in the parent conversation when archiving ends: a
/// system note and the assistant summary on success, fixed fallback text on
/// interruption.
pub fn archive_handoff_messages(last_message: Option<String>) -> (r: (String, String))
    ensures
        last_message matches Some(summary) ==> r.0@
            =~= "[System: memory archiving complete. The archive agent has finished writing memory files.]"@
            && r.1@ =~= summary@,
        last_message is None ==> r.0@ =~= "[System: memory archiving was interrupted.]"@ && r.1@
            =~= "Memory archiving was interrupted. You can re-run /archive to try again."@,
{
    match last_message {
        Some(summary) => (
            "[System: memory archiving complete. The archive agent has finished writing memory files.]".to_owned(),
            summary,
        ),
        None => (
            "[System: memory archiving was interrupted.]".to_owned(),
            "Memory archiving was interrupted. You can re-run /archive to try again.".to_owned(),
        ),
    }
}

} // verus!
