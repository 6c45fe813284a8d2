//! The memory documents, their entries, snapshots, configuration and errors.

use vstd::prelude::*;
use crate::text::decimal;
use crate::text::push_decimal;

verus! {

/// Default character limit of the agent's notes.
pub const DEFAULT_MEMORY_LIMIT: usize = 2200;

/// Default character limit of the user profile.
pub const DEFAULT_USER_LIMIT: usize = 1375;

/// Which memory document an operation addresses.
#[derive(Debug, Clone, Copy, PartialEq, Eq, Structural)]
pub enum MemoryTarget {
    /// MEMORY.md: the agent's personal notes.
    Agent,
    /// USER.md: the user profile.
    User,
}

/// The file name of a target's document.
pub open spec fn spec_filename(t: MemoryTarget) -> Seq<char> {
    match t {
        MemoryTarget::Agent => "MEMORY.md"@,
        MemoryTarget::User => "USER.md"@,
    }
}

/// The label under which a target's document is shown.
pub open spec fn spec_label(t: MemoryTarget) -> Seq<char> {
    match t {
        MemoryTarget::Agent => "MEMORY"@,
        MemoryTarget::User => "USER PROFILE"@,
    }
}

impl MemoryTarget {
    /// The file name of this target's document.
    pub fn filename(&self) -> (r: &'static str)
        ensures
            r@ == spec_filename(*self),
    {
        match self {
            MemoryTarget::Agent => "MEMORY.md",
            MemoryTarget::User => "USER.md",
        }
    }

    /// The label under which this target's document is shown.
    pub fn label(&self) -> (r: &'static str)
        ensures
            r@ == spec_label(*self),
    {
        match self {
            MemoryTarget::Agent => "MEMORY",
            MemoryTarget::User => "USER PROFILE",
        }
    }
}

/// One entry of a memory document with its position.
#[derive(Debug, Clone)]
pub struct MemoryEntry {
    pub index: usize,
    pub text: String,
}

/// A frozen view of both memory documents.
#[derive(Debug, Clone)]
pub struct MemorySnapshot {
    pub agent_entries: Vec<MemoryEntry>,
    pub agent_chars: usize,
    pub agent_limit: usize,
    pub user_entries: Vec<MemoryEntry>,
    pub user_chars: usize,
    pub user_limit: usize,
}

/// The character limits of the two documents.
#[derive(Debug, Clone)]
pub struct MemoryConfig {
    pub memory_limit: usize,
    pub user_limit: usize,
}

impl Default for MemoryConfig {
    fn default() -> (r: Self)
        ensures
            r.memory_limit == DEFAULT_MEMORY_LIMIT,
            r.user_limit == DEFAULT_USER_LIMIT,
    {
        MemoryConfig { memory_limit: DEFAULT_MEMORY_LIMIT, user_limit: DEFAULT_USER_LIMIT }
    }
}

/// The limit that applies to a target's document.
pub open spec fn spec_limit_for(t: MemoryTarget, config: MemoryConfig) -> usize {
    match t {
        MemoryTarget::Agent => config.memory_limit,
        MemoryTarget::User => config.user_limit,
    }
}

/// The limit that applies to a target's document.
pub fn limit_for(target: MemoryTarget, config: &MemoryConfig) -> (r: usize)
    ensures
        r == spec_limit_for(target, *config),
{
    match target {
        MemoryTarget::Agent => config.memory_limit,
        MemoryTarget::User => config.user_limit,
    }
}

/// Why a memory operation was refused.
#[derive(Debug, Clone)]
pub enum MemoryError {
    /// Reading or writing a document failed; the text describes the cause.
    Io(String),
    /// The entry would take the document past its character limit.
    LimitExceeded {
        target: String,
        current: usize,
        limit: usize,
        entry_size: usize,
        percent: usize,
    },
    /// The index names no entry of the document.
    IndexOutOfRange { index: usize, count: usize },
}

/// The text that describes an error to the agent.
pub open spec fn spec_error_message(e: MemoryError) -> Seq<char> {
    match e {
        MemoryError::Io(cause) => "IO error: "@ + cause@,
        MemoryError::LimitExceeded { target, current, limit, entry_size, percent } => target@
            + " is at "@ + decimal(percent as nat) + "% capacity ("@ + decimal(current as nat)
            + "/"@ + decimal(limit as nat) + " chars). This entry ("@ + decimal(
            entry_size as nat,
        ) + " chars) would exceed the limit. "@
            + "Replace a stale entry with `replace_entry()` or `remove_entry()` to free space first."@,
        MemoryError::IndexOutOfRange { index, count } => "Entry index "@ + decimal(index as nat)
            + " out of range (file has "@ + decimal(count as nat) + " entries)"@,
    }
}

impl MemoryError {
    /// The text that describes this error to the agent.
    pub fn message(&self) -> (r: String)
        ensures
            r@ == spec_error_message(*self),
    {
        let mut s = String::new();
        match self {
            MemoryError::Io(cause) => {
                s.append("IO error: ");
                s.append(cause.as_str());
            },
            MemoryError::LimitExceeded { target, current, limit, entry_size, percent } => {
                s.append(target.as_str());
                s.append(" is at ");
                push_decimal(&mut s, *percent as u64);
                s.append("% capacity (");
                push_decimal(&mut s, *current as u64);
                s.append("/");
                push_decimal(&mut s, *limit as u64);
                s.append(" chars). This entry (");
                push_decimal(&mut s, *entry_size as u64);
                s.append(" chars) would exceed the limit. ");
                s.append(
                    "Replace a stale entry with `replace_entry()` or `remove_entry()` to free space first.",
                );
            },
            MemoryError::IndexOutOfRange { index, count } => {
                s.append("Entry index ");
                push_decimal(&mut s, *index as u64);
                s.append(" out of range (file has ");
                push_decimal(&mut s, *count as u64);
                s.append(" entries)");
            },
        }
        s
    }
}

} // verus!
