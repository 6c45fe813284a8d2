//! Character-bounded persistent memory for AI agents, and the text logic of
//! a desktop OAuth PKCE flow.
//!
//! Memory lives in two markdown documents: MEMORY.md, the agent's personal
//! notes, and USER.md, the user profile. Entries are delimited by the section
//! sign. The character limit forces curation: when a document is full, a
//! stale entry must be replaced to make room.
//!
//! The functions here compute on the text of the documents; reading and
//! writing the files is left to the caller.

pub mod text;
pub mod types;
pub mod entries;
pub mod memory;
pub mod prompt;
pub mod oauth;
pub mod pkce;
pub mod flow;
pub mod commands;
pub mod json;
pub mod keychain;

pub use types::{
    MemoryConfig, MemoryEntry, MemoryError, MemorySnapshot, MemoryTarget, DEFAULT_MEMORY_LIMIT,
    DEFAULT_USER_LIMIT,
};
pub use memory::{add_entry, list_entries, load_snapshot, remove_entry, replace_entry};
pub use prompt::build_memory_prompt;

use vstd::prelude::*;

verus! {

/// The character that delimits entries in a memory document.
pub const ENTRY_DELIMITER: &'static str = "\u{a7}";

} // verus!
