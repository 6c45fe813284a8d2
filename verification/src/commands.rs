//! What the desktop app's memory commands compute: the target named in a
//! request, and the snapshot sent back to the user interface.

use vstd::prelude::*;
use crate::text::same_text;
use crate::types::{MemoryEntry, MemorySnapshot, MemoryTarget};

verus! {

/// The target a request names, or why it names none.
pub open spec fn spec_parse_target(target: Seq<char>) -> Result<MemoryTarget, Seq<char>> {
    if target == "agent"@ {
        Ok(MemoryTarget::Agent)
    } else if target == "user"@ {
        Ok(MemoryTarget::User)
    } else {
        Err("Invalid memory target '"@ + target + "'. Use 'agent' or 'user'."@)
    }
}

/// Reads the target that a request names: `agent` or `user`.
pub fn parse_target(target: &str) -> (r: Result<MemoryTarget, String>)
    ensures
        match (r, spec_parse_target(target@)) {
            (Ok(t), Ok(u)) => t == u,
            (Err(m), Err(n)) => m@ == n,
            _ => false,
        },
{
    if same_text(target, "agent") {
        Ok(MemoryTarget::Agent)
    } else if same_text(target, "user") {
        Ok(MemoryTarget::User)
    } else {
        let mut m = String::from_str("Invalid memory target '");
        m.append(target);
        m.append("'. Use 'agent' or 'user'.");
        Err(m)
    }
}

/// One entry as the user interface receives it.
pub struct MemoryEntryResponse {
    pub index: usize,
    pub text: String,
}

/// Both documents as the user interface receives them.
pub struct MemorySnapshotResponse {
    pub agent_entries: Vec<MemoryEntryResponse>,
    pub agent_chars: usize,
    pub agent_limit: usize,
    pub user_entries: Vec<MemoryEntryResponse>,
    pub user_chars: usize,
    pub user_limit: usize,
}

/// `r` holds the entries of `v`, in order.
pub open spec fn responds(r: Seq<MemoryEntryResponse>, v: Seq<MemoryEntry>) -> bool {
    &&& r.len() == v.len()
    &&& forall|i: int| 0 <= i < v.len() ==> #[trigger] r[i].index == v[i].index && r[i].text@ == v[i].text@
}

fn entry_responses(entries: Vec<MemoryEntry>) -> (r: Vec<MemoryEntryResponse>)
    ensures
        responds(r@, entries@),
{
    let ghost all = entries@;
    let mut rest = entries;
    let mut rev: Vec<MemoryEntryResponse> = Vec::new();
    let n = rest.len();
    while rest.len() > 0
        invariant
            n == all.len(),
            rest@.len() + rev@.len() == n,
            forall|k: int| 0 <= k < rest@.len() ==> #[trigger] rest@[k] == all[k],
            forall|k: int|
                0 <= k < rev@.len() ==> #[trigger] rev@[k].index == all[n - 1 - k].index
                    && rev@[k].text@ == all[n - 1 - k].text@,
        decreases rest@.len(),
    {
        let e = rest.pop().unwrap();
        rev.push(MemoryEntryResponse { index: e.index, text: e.text });
    }
    let mut r: Vec<MemoryEntryResponse> = Vec::new();
    let mut i: usize = 0;
    while i < n
        invariant
            n == all.len(),
            i + rev@.len() == n,
            forall|k: int|
                0 <= k < rev@.len() ==> #[trigger] rev@[k].index == all[n - 1 - k].index
                    && rev@[k].text@ == all[n - 1 - k].text@,
            r@.len() == i,
            forall|k: int| 0 <= k < i ==> #[trigger] r@[k].index == all[k].index && r@[k].text@ == all[k].text@,
        decreases n - i,
    {
        let e = rev.pop().unwrap();
        r.push(e);
        i = i + 1;
    }
    r
}

/// The snapshot as the user interface receives it.
pub fn snapshot_response(snapshot: MemorySnapshot) -> (r: MemorySnapshotResponse)
    ensures
        responds(r.agent_entries@, snapshot.agent_entries@),
        r.agent_chars == snapshot.agent_chars,
        r.agent_limit == snapshot.agent_limit,
        responds(r.user_entries@, snapshot.user_entries@),
        r.user_chars == snapshot.user_chars,
        r.user_limit == snapshot.user_limit,
{
    MemorySnapshotResponse {
        agent_entries: entry_responses(snapshot.agent_entries),
        agent_chars: snapshot.agent_chars,
        agent_limit: snapshot.agent_limit,
        user_entries: entry_responses(snapshot.user_entries),
        user_chars: snapshot.user_chars,
        user_limit: snapshot.user_limit,
    }
}

} // verus!
