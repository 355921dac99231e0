//! Verified core of a streaming chat-completions protocol adapter.
//!
//! The library normalises a provider's Server-Sent-Events chat stream into a
//! canonical sequence of output events: think-tag extraction, tool-call
//! reassembly, usage accounting and finish-reason handling, together with the
//! provider catalog and the project-memory bookkeeping built around it.
//! Transport, timers and file I/O live outside the library; everything here is
//! pure logic with contracts.

pub mod archiver;
pub mod catalog;
pub mod clues;
pub mod edit;
pub mod events;
pub mod expiration;
pub mod frame;
mod frame_parse;
pub mod frontmatter;
mod json;
pub mod memory;
pub mod providers;
pub mod request;
pub mod retrieve;
pub mod router;
pub mod splitter;
pub mod text;
pub mod text_trim;
pub mod tool_calls;
pub mod tools;
pub mod usage;
