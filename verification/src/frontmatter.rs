//! Memory-file frontmatter: the delimiter layout is parsed here; the YAML
//! inside it is read through `serde_yaml`.

use vstd::prelude::*;

use crate::clues::MemoryType;
use crate::text::find_str;
use crate::text::first_match;
use crate::text::is_prefix_of;
use crate::text::lemma_first_match_props;
use crate::text::str_eq;
use crate::text::str_starts_with;
use crate::text_trim::trim_front_white;
use crate::text_trim::trim_front_spec;

verus! {

#[verifier::external_type_specification]
#[verifier::external_body]
pub struct ExYamlValue(serde_yaml::Value);

/// Relies on `serde_yaml::from_str`: parses a YAML document, or fails.
#[verifier::external_body]
fn yaml_parse(s: &str) -> (r: Option<serde_yaml::Value>) {
    serde_yaml::from_str(s).ok()
}

/// Relies on `serde_yaml::Value::get`: the value under a key of a mapping.
#[verifier::external_body]
fn yaml_get<'a>(v: &'a serde_yaml::Value, key: &str) -> (r: Option<&'a serde_yaml::Value>) {
    v.get(key)
}

/// Relies on `serde_yaml::Value::as_str`: the text of a YAML string.
#[verifier::external_body]
fn yaml_as_string(v: &serde_yaml::Value) -> (r: Option<String>) {
    v.as_str().map(str::to_string)
}

/// Relies on `serde_yaml::Value::as_sequence`: the elements of a YAML list.
#[verifier::external_body]
fn yaml_as_sequence<'a>(v: &'a serde_yaml::Value) -> (r: Option<&'a Vec<serde_yaml::Value>>) {
    v.as_sequence()
}

/// Metadata carried in a memory file's frontmatter.
#[derive(Debug, Clone, PartialEq, Eq)]
pub struct MemoryMetadata {
    pub memory_type: MemoryType,
    pub keywords: Vec<String>,
    pub related_files: Vec<String>,
    pub summary: String,
    pub created: String,
    pub last_updated: String,
    pub expires: Option<String>,
}

/// The frontmatter layout: after leading whitespace the text starts with
/// `---`, optionally followed by a newline, and the block ends at the first
/// `\n---`.
pub open spec fn has_frontmatter_shape(content: Seq<char>) -> bool {
    let t = trim_front_spec(content);
    &&& is_prefix_of("---"@, t)
    &&& ({
        let rest = if t.len() > 3 && t[3] == '\n' {
            t.skip(4)
        } else {
            t.skip(3)
        };
        first_match(rest, seq!['\n', '-', '-', '-']) is Some
    })
}

/// The markdown body after the frontmatter block: everything past the
/// closing delimiter, less one leading newline.
pub open spec fn frontmatter_body(content: Seq<char>) -> Seq<char> {
    let t = trim_front_spec(content);
    let rest = if t.len() > 3 && t[3] == '\n' {
        t.skip(4)
    } else {
        t.skip(3)
    };
    let i = first_match(rest, seq!['\n', '-', '-', '-']).unwrap();
    let b = rest.skip(i + 4);
    if b.len() > 0 && b[0] == '\n' {
        b.skip(1)
    } else {
        b
    }
}

/// Reads a list of strings; a list with a non-string element is rejected,
/// like a failed deserialisation.
fn string_list(v: &serde_yaml::Value) -> (r: Option<Vec<String>>) {
    let items = match yaml_as_sequence(v) {
        Some(items) => items,
        None => {
            return None;
        },
    };
    let mut out: Vec<String> = Vec::new();
    let n = items.len();
    let mut i: usize = 0;
    while i < n
        invariant
            n == items@.len(),
            i <= n,
        decreases n - i,
    {
        match yaml_as_string(&items[i]) {
            Some(s) => out.push(s),
            None => {
                return None;
            },
        }
        i = i + 1;
    }
    Some(out)
}

/// Reads the metadata out of a parsed frontmatter document.  The type,
/// keywords, summary and the two timestamps are required; related files
/// default to none and the expiry is optional.
fn metadata_of_yaml(doc: &serde_yaml::Value) -> (r: Option<MemoryMetadata>) {
    let type_str = match yaml_get(doc, "type") {
        Some(t) => match yaml_as_string(t) {
            Some(s) => s,
            None => {
                return None;
            },
        },
        None => {
            return None;
        },
    };
    let memory_type = if str_eq(type_str.as_str(), "semantic") {
        MemoryType::Semantic
    } else if str_eq(type_str.as_str(), "episodic") {
        MemoryType::Episodic
    } else {
        return None;
    };
    let keywords = match yaml_get(doc, "keywords") {
        Some(k) => match string_list(k) {
            Some(ks) => ks,
            None => {
                return None;
            },
        },
        None => {
            return None;
        },
    };
    let related_files = match yaml_get(doc, "related_files") {
        Some(k) => match string_list(k) {
            Some(ks) => ks,
            None => {
                return None;
            },
        },
        None => Vec::new(),
    };
    let summary = match yaml_get(doc, "summary") {
        Some(s) => match yaml_as_string(s) {
            Some(t) => t,
            None => {
                return None;
            },
        },
        None => {
            return None;
        },
    };
    let created = match yaml_get(doc, "created") {
        Some(s) => match yaml_as_string(s) {
            Some(t) => t,
            None => {
                return None;
            },
        },
        None => {
            return None;
        },
    };
    let last_updated = match yaml_get(doc, "last_updated") {
        Some(s) => match yaml_as_string(s) {
            Some(t) => t,
            None => {
                return None;
            },
        },
        None => {
            return None;
        },
    };
    let expires = match yaml_get(doc, "expires") {
        Some(s) => yaml_as_string(s),
        None => None,
    };
    Some(MemoryMetadata { memory_type, keywords, related_files, summary, created, last_updated, expires })
}

/// Parses the YAML frontmatter of a memory file: the file must start with
/// `---`, the block ends at the next line of dashes, and what follows is the
/// body.  A missing delimiter, or YAML that does not carry the required
/// fields, yields nothing.
pub fn parse_frontmatter(content: &str) -> (r: Option<(MemoryMetadata, String)>)
    ensures
        !has_frontmatter_shape(content@) ==> r is None,
        r is Some ==> has_frontmatter_shape(content@),
        r matches Some(p) ==> p.1@ =~= frontmatter_body(content@),
{
    proof {
        reveal_strlit("---");
        reveal_strlit("\n---");
        assert("\n---"@ =~= seq!['\n', '-', '-', '-']);
    }
    let trimmed = trim_front_white(content);
    let t = trimmed.as_str();
    if !str_starts_with(t, "---") {
        return None;
    }
    let n = t.unicode_len();
    let after = if n > 3 && t.get_char(3) == '\n' {
        t.substring_char(4, n)
    } else {
        t.substring_char(3, n)
    };
    let end_idx = match find_str(after, "\n---") {
        Some(i) => i,
        None => {
            return None;
        },
    };
    proof {
        lemma_first_match_props(after@, "\n---"@);
        assert(has_frontmatter_shape(content@));
    }
    let after_len = after.unicode_len();
    let yaml_str = after.substring_char(0, end_idx);
    let body_start = end_idx + 4;
    let body = if body_start < after_len {
        let b = after.substring_char(body_start, after_len);
        if b.unicode_len() > 0 {
            let first = b.get_char(0);
            if first == '\n' {
                b.substring_char(1, b.unicode_len()).to_owned()
            } else {
                b.to_owned()
            }
        } else {
            b.to_owned()
        }
    } else {
        String::new()
    };
    proof {
        assert(end_idx + 4 <= after@.len());
        if body_start < after_len {
            assert(after@.skip(end_idx + 4) =~= after@.subrange(
                body_start as int,
                after_len as int,
            ));
        } else {
            assert(after@.skip(end_idx + 4) =~= Seq::<char>::empty());
        }
        assert(body@ =~= frontmatter_body(content@));
    }
    let doc = match yaml_parse(yaml_str) {
        Some(d) => d,
        None => {
            return None;
        },
    };
    match metadata_of_yaml(&doc) {
        Some(meta) => Some((meta, body)),
        None => None,
    }
}

} // verus!
