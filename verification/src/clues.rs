//! Memory clues: the lightweight index injected into the system prompt.

use vstd::prelude::*;

use crate::text_trim::trim_white;
use crate::text_trim::trim_spec;

verus! {

/// The two memory kinds the experiment stores.
#[derive(Debug, Clone, Copy, PartialEq, Eq, Structural)]
pub enum MemoryType {
    Semantic,
    Episodic,
}

/// A lightweight clue entry for the system prompt index — no full content.
#[derive(Debug, Clone, PartialEq, Eq)]
pub struct MemoryClue {
    pub keywords: Vec<String>,
    pub filename: String,
    pub summary: String,
    pub memory_type: MemoryType,
    pub expires: Option<String>,
}

/// Keywords joined with a comma and a space.
pub open spec fn keywords_joined(ks: Seq<String>) -> Seq<char>
    decreases ks.len(),
{
    if ks.len() == 0 {
        Seq::empty()
    } else if ks.len() == 1 {
        ks[0]@
    } else {
        keywords_joined(ks.drop_last()) + ", "@ + ks.last()@
    }
}

/// The two lines one clue contributes to the index.
pub open spec fn clue_entry_text(c: MemoryClue) -> Seq<char> {
    "- ["@ + keywords_joined(c.keywords@) + "] \u{2192} "@ + c.filename@ + (match c.expires {
        Some(e) => " (expires: "@ + e@ + ")"@,
        None => Seq::empty(),
    }) + "\n  desc: "@ + c.summary@ + "\n"@
}

/// The concatenated entries of one memory kind, in order.
pub open spec fn entries_concat(clues: Seq<MemoryClue>, t: MemoryType) -> Seq<char>
    decreases clues.len(),
{
    if clues.len() == 0 {
        Seq::empty()
    } else {
        entries_concat(clues.drop_last(), t) + (if clues.last().memory_type == t {
            clue_entry_text(clues.last())
        } else {
            Seq::empty()
        })
    }
}

/// The whole clues index: a semantic section, an episodic section, and a
/// placeholder when there are no memories at all.
pub open spec fn format_clues_spec(clues: Seq<MemoryClue>) -> Seq<char> {
    let sem = entries_concat(clues, MemoryType::Semantic);
    let epi = entries_concat(clues, MemoryType::Episodic);
    let head = (if sem.len() > 0 {
        "### Semantic Memories (Concepts)\n"@ + sem + "\n"@
    } else {
        Seq::empty()
    }) + (if epi.len() > 0 {
        "### Episodic Memories (Events)\n"@ + epi + "\n"@
    } else {
        Seq::empty()
    });
    if head.len() == 0 {
        "No memories yet.\n"@
    } else {
        head
    }
}

/// Appends the comma-joined keywords of a clue.
fn append_keywords(out: &mut String, ks: &Vec<String>)
    ensures
        final(out)@ =~= old(out)@ + keywords_joined(ks@),
{
    let n = ks.len();
    let mut i: usize = 0;
    while i < n
        invariant
            n == ks@.len(),
            i <= n,
            out@ =~= old(out)@ + keywords_joined(ks@.take(i as int)),
        decreases n - i,
    {
        if i > 0 {
            out.append(", ");
        }
        out.append(ks[i].as_str());
        proof {
            let t = ks@.take(i as int + 1);
            assert(t.drop_last() =~= ks@.take(i as int));
            assert(t.last() == ks@[i as int]);
            if i == 0 {
                assert(t.len() == 1);
                assert(t[0] == ks@[0]);
            }
        }
        i = i + 1;
    }
    proof {
        assert(ks@.take(n as int) =~= ks@);
    }
}

/// Appends the two index lines of one clue.
pub fn format_clue_entry(out: &mut String, clue: &MemoryClue)
    ensures
        final(out)@ =~= old(out)@ + clue_entry_text(*clue),
{
    out.append("- [");
    append_keywords(out, &clue.keywords);
    out.append("] \u{2192} ");
    out.append(clue.filename.as_str());
    if let Some(e) = &clue.expires {
        out.append(" (expires: ");
        out.append(e.as_str());
        out.append(")");
    }
    out.append("\n  desc: ");
    out.append(clue.summary.as_str());
    out.append("\n");
}

/// Appends the entries of one memory kind, in order.
fn append_entries(out: &mut String, clues: &Vec<MemoryClue>, semantic: bool)
    ensures
        final(out)@ =~= old(out)@ + entries_concat(
            clues@,
            if semantic {
                MemoryType::Semantic
            } else {
                MemoryType::Episodic
            },
        ),
{
    let ghost t = if semantic {
        MemoryType::Semantic
    } else {
        MemoryType::Episodic
    };
    let n = clues.len();
    let mut i: usize = 0;
    while i < n
        invariant
            n == clues@.len(),
            i <= n,
            t == (if semantic {
                MemoryType::Semantic
            } else {
                MemoryType::Episodic
            }),
            out@ =~= old(out)@ + entries_concat(clues@.take(i as int), t),
        decreases n - i,
    {
        let kind = clues[i].memory_type;
        let matches_kind = if semantic {
            kind == MemoryType::Semantic
        } else {
            kind == MemoryType::Episodic
        };
        proof {
            assert(kind == clues@[i as int].memory_type);
            if semantic {
                assert(t == MemoryType::Semantic);
                assert(matches_kind == (kind == MemoryType::Semantic));
            } else {
                assert(t == MemoryType::Episodic);
                assert(matches_kind == (kind == MemoryType::Episodic));
            }
            assert(matches_kind == (clues@[i as int].memory_type == t));
        }
        if matches_kind {
            format_clue_entry(out, &clues[i]);
        }
        proof {
            let tk = clues@.take(i as int + 1);
            assert(tk.drop_last() =~= clues@.take(i as int));
            assert(tk.last() == clues@[i as int]);
        }
        i = i + 1;
    }
    proof {
        assert(clues@.take(n as int) =~= clues@);
    }
}

/// Formats the clues into the markdown content of the index file: the
/// semantic section, then the episodic section, or a placeholder when there
/// is nothing to list.
pub fn format_clues(clues: &Vec<MemoryClue>) -> (r: String)
    ensures
        r@ =~= format_clues_spec(clues@),
{
    let mut sem = String::new();
    append_entries(&mut sem, clues, true);
    let mut epi = String::new();
    append_entries(&mut epi, clues, false);

    let mut out = String::new();
    if sem.as_str().unicode_len() > 0 {
        out.append("### Semantic Memories (Concepts)\n");
        out.append(sem.as_str());
        out.append("\n");
    }
    if epi.as_str().unicode_len() > 0 {
        out.append("### Episodic Memories (Events)\n");
        out.append(epi.as_str());
        out.append("\n");
    }
    if out.as_str().unicode_len() == 0 {
        out.append("No memories yet.\n");
    }
    out
}

/// The prompt block built around a non-empty clues index.
pub open spec fn clues_prompt_spec(trimmed: Seq<char>) -> Seq<char> {
    "## Project Memory\n\nThis project has stored memories, indexed below. When a task matches a clue, call the memory_retrieve tool with a detailed query to load the relevant context before answering.\n\n"@
        + trimmed + "\n"@
}

/// Builds the memory-clues prompt for system-prompt injection, or nothing
/// when the index is empty after trimming.
pub fn build_clues_prompt(clues_content: &str) -> (r: Option<String>)
    ensures
        trim_spec(clues_content@).len() == 0 <==> r is None,
        r matches Some(s) ==> s@ =~= clues_prompt_spec(trim_spec(clues_content@)),
{
    let trimmed = trim_white(clues_content);
    if trimmed.as_str().unicode_len() == 0 {
        return None;
    }
    let mut out = String::new();
    out.append(
        "## Project Memory\n\nThis project has stored memories, indexed below. When a task matches a clue, call the memory_retrieve tool with a detailed query to load the relevant context before answering.\n\n",
    );
    out.append(trimmed.as_str());
    out.append("\n");
    Some(out)
}

/// Composes the base instructions with memory content: when the experiment
/// is active, the memory-tool summary and the clues prompt are appended at
/// the end, keeping the static prefix cacheable; otherwise the instructions
/// pass through unchanged.
pub fn compose_base_instructions_with_memory(
    base_instructions: &str,
    enabled: bool,
    memory_prompt: Option<&str>,
    clues_prompt: Option<&str>,
) -> (r: String)
    ensures
        !enabled ==> r@ =~= base_instructions@,
        enabled ==> r@ =~= base_instructions@ + (match memory_prompt {
            Some(m) => "\n\n"@ + m@,
            None => Seq::empty(),
        }) + (match clues_prompt {
            Some(c) => "\n\n"@ + c@,
            None => Seq::empty(),
        }),
{
    let mut composed = base_instructions.to_owned();
    if !enabled {
        return composed;
    }
    if let Some(m) = memory_prompt {
        composed.append("\n\n");
        composed.append(m);
    }
    if let Some(c) = clues_prompt {
        composed.append("\n\n");
        composed.append(c);
    }
    composed
}

/// Whether the clues index needs regenerating at session start: memories
/// exist, but the index file is missing or blank.
pub fn clues_need_regeneration(
    memory_empty: bool,
    clues_file_exists: bool,
    clues_content_blank: bool,
) -> (r: bool)
    ensures
        r == (!memory_empty && (!clues_file_exists || clues_content_blank)),
{
    !memory_empty && (!clues_file_exists || clues_content_blank)
}

} // verus!
