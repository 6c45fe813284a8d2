//! Reading and editing memory documents under their character limits.
//!
//! Each operation takes the current text of a document and gives back either
//! what it reads from it or the text to write in its place.

use vstd::prelude::*;
use crate::entries::{
    char_count, delimiter, document, entries_of, is_clean_entry, law_document_roundtrip,
    law_entries_are_clean, lemma_total_push, lemma_trim_shape, parse_entries, serialize_entries,
    total_chars, views,
};
use crate::text::{trim, trim_str, trim_start};
use crate::types::{
    limit_for, spec_label, spec_limit_for, MemoryConfig, MemoryEntry, MemoryError, MemorySnapshot,
    MemoryTarget,
};

verus! {

/// How full a document is, in whole percent of its limit (zero when the
/// limit is zero).
pub open spec fn spec_percent(chars: nat, limit: nat) -> nat {
    if limit > 0 {
        chars * 100 / limit
    } else {
        0
    }
}

/// How full a document is, in whole percent of its limit.
pub fn percent(chars: usize, limit: usize) -> (r: usize)
    requires
        chars * 100 <= usize::MAX,
    ensures
        r == spec_percent(chars as nat, limit as nat),
{
    if limit > 0 {
        (chars * 100) / limit
    } else {
        0
    }
}

/// `e` reports that a document of `target` holding `current` characters has no
/// room for an entry of `entry_size` characters under `limit`.
pub open spec fn is_limit_error(
    e: MemoryError,
    target: MemoryTarget,
    current: nat,
    limit: nat,
    entry_size: nat,
) -> bool {
    &&& e matches MemoryError::LimitExceeded { target: t, current: c, limit: l, entry_size: s, percent: p }
    &&& t@ == spec_label(target)
    &&& c == current
    &&& l == limit
    &&& s == entry_size
    &&& p == spec_percent(current, limit)
}

/// `e` reports that `index` names no entry of a document with `count` entries.
pub open spec fn is_index_error(e: MemoryError, index: nat, count: nat) -> bool {
    e matches MemoryError::IndexOutOfRange { index: i, count: c } && i == index && c == count
}

/// `v` lists the entries `es`, each with its position.
pub open spec fn lists(v: Seq<MemoryEntry>, es: Seq<Seq<char>>) -> bool {
    &&& v.len() == es.len()
    &&& forall|i: int| 0 <= i < es.len() ==> #[trigger] v[i].index == i && v[i].text@ == es[i]
}

/// The characters that a document's text counts: those of its entries.
pub open spec fn used(content: Seq<char>) -> nat {
    total_chars(entries_of(content))
}

/// Whether a document's usage can be reported in percent without overflow.
pub open spec fn countable(content: Seq<char>) -> bool {
    used(content) * 100 <= usize::MAX
}

fn limit_exceeded(target: MemoryTarget, current: usize, limit: usize, entry_size: usize) -> (e:
    MemoryError)
    requires
        current * 100 <= usize::MAX,
    ensures
        is_limit_error(e, target, current as nat, limit as nat, entry_size as nat),
{
    MemoryError::LimitExceeded {
        target: String::from_str(target.label()),
        current,
        limit,
        entry_size,
        percent: percent(current, limit),
    }
}

/// Checks that adding `text` keeps the document within its limit.
pub fn check_limit(
    target: MemoryTarget,
    entries: &Vec<String>,
    text: &str,
    config: &MemoryConfig,
) -> (r: Result<(), MemoryError>)
    requires
        total_chars(views(entries@)) * 100 <= usize::MAX,
    ensures
        ({
            let current = total_chars(views(entries@));
            let size = trim(text@).len();
            let limit = spec_limit_for(target, *config) as nat;
            match r {
                Ok(()) => current + size <= limit,
                Err(e) => current + size > limit && is_limit_error(e, target, current, limit, size),
            }
        }),
{
    let current = char_count(entries);
    let limit = limit_for(target, config);
    let entry_size = trim_str(text).as_str().unicode_len();
    if current > limit || entry_size > limit - current {
        Err(limit_exceeded(target, current, limit, entry_size))
    } else {
        Ok(())
    }
}

/// The characters of the entry at `index` are part of the total.
proof fn lemma_entry_within_total(es: Seq<Seq<char>>, index: int)
    requires
        0 <= index < es.len(),
    ensures
        es[index].len() <= total_chars(es),
    decreases es.len(),
{
    if index < es.len() - 1 {
        lemma_entry_within_total(es.drop_last(), index);
        assert(es.drop_last()[index] == es[index]);
    }
}

/// The characters of one entry.
fn entry_chars(entries: &Vec<String>, index: usize) -> (n: usize)
    requires
        index < entries@.len(),
    ensures
        n == views(entries@)[index as int].len(),
{
    entries[index].as_str().unicode_len()
}

/// Checks that putting `new_text` in place of the entry at `index` keeps the
/// document within its limit.
pub fn check_limit_for_replace(
    target: MemoryTarget,
    entries: &Vec<String>,
    index: usize,
    new_text: &str,
    config: &MemoryConfig,
) -> (r: Result<(), MemoryError>)
    requires
        index < entries@.len(),
        total_chars(views(entries@)) * 100 <= usize::MAX,
    ensures
        ({
            let current = total_chars(views(entries@));
            let old_size = views(entries@)[index as int].len();
            let size = trim(new_text@).len();
            let limit = spec_limit_for(target, *config) as nat;
            match r {
                Ok(()) => current - old_size + size <= limit,
                Err(e) => current - old_size + size > limit && is_limit_error(
                    e,
                    target,
                    current,
                    limit,
                    size,
                ),
            }
        }),
{
    proof {
        lemma_entry_within_total(views(entries@), index as int);
    }
    let current = char_count(entries);
    let old_size = entry_chars(entries, index);
    let rest = current - old_size;
    let limit = limit_for(target, config);
    let entry_size = trim_str(new_text).as_str().unicode_len();
    if rest > limit || entry_size > limit - rest {
        Err(limit_exceeded(target, current, limit, entry_size))
    } else {
        Ok(())
    }
}

/// The entries of a document, each with its position.
pub fn list_entries(content: &str) -> (r: Vec<MemoryEntry>)
    ensures
        lists(r@, entries_of(content@)),
{
    let strings = parse_entries(content);
    index_entries(strings)
}

/// Pairs each string with its position.
fn index_entries(strings: Vec<String>) -> (r: Vec<MemoryEntry>)
    ensures
        lists(r@, views(strings@)),
{
    let ghost es = views(strings@);
    let mut r: Vec<MemoryEntry> = Vec::new();
    let mut rest = strings;
    let mut i: usize = 0;
    let n = rest.len();
    let mut src: Vec<String> = Vec::new();
    // Move the strings out from the back, then lay them out from the front.
    while rest.len() > 0
        invariant
            n == es.len(),
            rest@.len() + src@.len() == n,
            forall|k: int| 0 <= k < rest@.len() ==> #[trigger] rest@[k]@ == es[k],
            forall|k: int| 0 <= k < src@.len() ==> #[trigger] src@[k]@ == es[n - 1 - k],
        decreases rest@.len(),
    {
        let s = rest.pop().unwrap();
        src.push(s);
    }
    while i < n
        invariant
            n == es.len(),
            i + src@.len() == n,
            forall|k: int| 0 <= k < src@.len() ==> #[trigger] src@[k]@ == es[n - 1 - k],
            r@.len() == i,
            forall|k: int| 0 <= k < i ==> #[trigger] r@[k].index == k && r@[k].text@ == es[k],
        decreases n - i,
    {
        let text = src.pop().unwrap();
        r.push(MemoryEntry { index: i, text });
        i = i + 1;
    }
    r
}

/// A frozen view of both documents, for injection into a system prompt.
pub fn load_snapshot(agent_content: &str, user_content: &str, config: &MemoryConfig) -> (r:
    MemorySnapshot)
    ensures
        lists(r.agent_entries@, entries_of(agent_content@)),
        r.agent_chars == used(agent_content@),
        r.agent_limit == config.memory_limit,
        lists(r.user_entries@, entries_of(user_content@)),
        r.user_chars == used(user_content@),
        r.user_limit == config.user_limit,
{
    let agent_strings = parse_entries(agent_content);
    let user_strings = parse_entries(user_content);
    let agent_chars = char_count(&agent_strings);
    let user_chars = char_count(&user_strings);
    MemorySnapshot {
        agent_entries: index_entries(agent_strings),
        agent_chars,
        agent_limit: config.memory_limit,
        user_entries: index_entries(user_strings),
        user_chars,
        user_limit: config.user_limit,
    }
}

/// What adding `text` to a document gives: the text of the document with the
/// trimmed entry at the end, or nothing when that would exceed the target's
/// limit.
pub open spec fn spec_add_entry(content: Seq<char>, target: MemoryTarget, text: Seq<char>, config: MemoryConfig) -> Option<
    Seq<char>,
> {
    if used(content) + trim(text).len() <= spec_limit_for(target, config) {
        Some(document(entries_of(content).push(trim(text))))
    } else {
        None
    }
}

/// What replacing the entry at `index` by `text` gives: the text of the
/// document with the trimmed entry in its place, or nothing when there is no
/// such entry or the document would exceed the target's limit.
pub open spec fn spec_replace_entry(
    content: Seq<char>,
    target: MemoryTarget,
    index: nat,
    text: Seq<char>,
    config: MemoryConfig,
) -> Option<Seq<char>> {
    let es = entries_of(content);
    if index < es.len() && used(content) - es[index as int].len() + trim(text).len()
        <= spec_limit_for(target, config) {
        Some(document(es.update(index as int, trim(text))))
    } else {
        None
    }
}

/// Adds an entry, trimmed, at the end of a document. Refused when the
/// document would exceed its limit; otherwise gives the new text of the
/// document.
pub fn add_entry(content: &str, target: MemoryTarget, text: &str, config: &MemoryConfig) -> (r:
    Result<String, MemoryError>)
    requires
        countable(content@),
    ensures
        ({
            let es = entries_of(content@);
            let size = trim(text@).len();
            let limit = spec_limit_for(target, *config) as nat;
            match r {
                Ok(doc) => used(content@) + size <= limit && doc@ == document(es.push(trim(text@))),
                Err(e) => used(content@) + size > limit && is_limit_error(
                    e,
                    target,
                    used(content@),
                    limit,
                    size,
                ),
            }
        }),
        match r {
            Ok(doc) => spec_add_entry(content@, target, text@, *config) == Some(doc@),
            Err(_) => spec_add_entry(content@, target, text@, *config) is None,
        },
{
    let mut entries = parse_entries(content);
    check_limit(target, &entries, text, config)?;
    let ghost before = entries@;
    entries.push(trim_str(text));
    proof {
        assert(views(entries@) == views(before).push(trim(text@)));
    }
    Ok(serialize_entries(&entries))
}

/// Puts `new_text`, trimmed, in place of the entry at `index`. Refused when
/// there is no such entry or when the document would exceed its limit;
/// otherwise gives the new text of the document.
pub fn replace_entry(
    content: &str,
    target: MemoryTarget,
    index: usize,
    new_text: &str,
    config: &MemoryConfig,
) -> (r: Result<String, MemoryError>)
    requires
        countable(content@),
    ensures
        ({
            let es = entries_of(content@);
            let size = trim(new_text@).len();
            let limit = spec_limit_for(target, *config) as nat;
            match r {
                Ok(doc) => index < es.len() && used(content@) - es[index as int].len() + size <= limit
                    && doc@ == document(es.update(index as int, trim(new_text@))),
                Err(e) => if index >= es.len() {
                    is_index_error(e, index as nat, es.len())
                } else {
                    used(content@) - es[index as int].len() + size > limit && is_limit_error(
                        e,
                        target,
                        used(content@),
                        limit,
                        size,
                    )
                },
            }
        }),
        match r {
            Ok(doc) => spec_replace_entry(content@, target, index as nat, new_text@, *config) == Some(
                doc@,
            ),
            Err(_) => spec_replace_entry(content@, target, index as nat, new_text@, *config) is None,
        },
{
    let mut entries = parse_entries(content);
    if index >= entries.len() {
        return Err(MemoryError::IndexOutOfRange { index, count: entries.len() });
    }
    check_limit_for_replace(target, &entries, index, new_text, config)?;
    let ghost before = entries@;
    entries.set(index, trim_str(new_text));
    proof {
        assert(views(entries@) == views(before).update(index as int, trim(new_text@)));
    }
    Ok(serialize_entries(&entries))
}

/// Removes the entry at `index`. Refused when there is no such entry;
/// otherwise gives the new text of the document.
pub fn remove_entry(content: &str, index: usize) -> (r: Result<String, MemoryError>)
    ensures
        ({
            let es = entries_of(content@);
            match r {
                Ok(doc) => index < es.len() && doc@ == document(es.remove(index as int)),
                Err(e) => index >= es.len() && is_index_error(e, index as nat, es.len()),
            }
        }),
{
    let mut entries = parse_entries(content);
    if index >= entries.len() {
        return Err(MemoryError::IndexOutOfRange { index, count: entries.len() });
    }
    let ghost before = entries@;
    entries.remove(index);
    proof {
        assert(views(entries@) == views(before).remove(index as int));
    }
    Ok(serialize_entries(&entries))
}

/// A text without the delimiter whose trimmed form is not empty makes a clean
/// entry.
proof fn lemma_trimmed_clean(text: Seq<char>)
    requires
        trim(text).len() > 0,
        forall|k: int| 0 <= k < text.len() ==> text[k] != delimiter(),
    ensures
        is_clean_entry(trim(text)),
{
    lemma_trim_shape(text);
    let t = trim(text);
    let lo = text.len() - trim_start(text).len();
    assert forall|k: int| 0 <= k < t.len() implies t[k] != delimiter() by {
        assert(t[k] == text[lo + k]);
    }
}

/// Law: rewriting a document from its own entries reads back the same
/// entries.
pub proof fn law_rewrite_is_stable(content: Seq<char>)
    ensures
        entries_of(document(entries_of(content))) == entries_of(content),
{
    law_entries_are_clean(content);
    law_document_roundtrip(entries_of(content));
}

/// Law: after an entry is added, reading the document gives the earlier
/// entries followed by the trimmed new one, provided that the new entry is not
/// empty once trimmed and holds no delimiter.
pub proof fn law_read_after_add(content: Seq<char>, text: Seq<char>)
    requires
        trim(text).len() > 0,
        forall|k: int| 0 <= k < text.len() ==> text[k] != delimiter(),
    ensures
        entries_of(document(entries_of(content).push(trim(text)))) == entries_of(content).push(
            trim(text),
        ),
        used(document(entries_of(content).push(trim(text)))) == used(content) + trim(text).len(),
{
    let es = entries_of(content);
    let es2 = es.push(trim(text));
    law_entries_are_clean(content);
    lemma_trimmed_clean(text);
    assert forall|i: int| 0 <= i < es2.len() implies is_clean_entry(#[trigger] es2[i]) by {
        if i < es.len() {
            assert(es2[i] == es[i]);
        }
    }
    law_document_roundtrip(es2);
    lemma_total_push(es, trim(text));
}

/// Law: after the entry at `index` is replaced, reading the document gives the
/// earlier entries with the trimmed new text at `index`, provided that it is
/// not empty once trimmed and holds no delimiter.
pub proof fn law_read_after_replace(content: Seq<char>, index: int, text: Seq<char>)
    requires
        0 <= index < entries_of(content).len(),
        trim(text).len() > 0,
        forall|k: int| 0 <= k < text.len() ==> text[k] != delimiter(),
    ensures
        entries_of(document(entries_of(content).update(index, trim(text)))) == entries_of(
            content,
        ).update(index, trim(text)),
{
    let es = entries_of(content);
    let es2 = es.update(index, trim(text));
    law_entries_are_clean(content);
    lemma_trimmed_clean(text);
    assert forall|i: int| 0 <= i < es2.len() implies is_clean_entry(#[trigger] es2[i]) by {
        if i != index {
            assert(es2[i] == es[i]);
        }
    }
    law_document_roundtrip(es2);
}

/// Law: after the entry at `index` is removed, reading the document gives the
/// earlier entries without it.
pub proof fn law_read_after_remove(content: Seq<char>, index: int)
    requires
        0 <= index < entries_of(content).len(),
    ensures
        entries_of(document(entries_of(content).remove(index))) == entries_of(content).remove(
            index,
        ),
{
    let es = entries_of(content);
    let es2 = es.remove(index);
    law_entries_are_clean(content);
    assert forall|i: int| 0 <= i < es2.len() implies is_clean_entry(#[trigger] es2[i]) by {
        if i < index {
            assert(es2[i] == es[i]);
        } else {
            assert(es2[i] == es[i + 1]);
        }
    }
    law_document_roundtrip(es2);
}

/// The total after an entry is replaced.
proof fn lemma_total_update(es: Seq<Seq<char>>, i: int, x: Seq<char>)
    requires
        0 <= i < es.len(),
    ensures
        total_chars(es.update(i, x)) == total_chars(es) - es[i].len() + x.len(),
    decreases es.len(),
{
    let u = es.update(i, x);
    if i == es.len() - 1 {
        assert(u.drop_last() == es.drop_last());
    } else {
        lemma_total_update(es.drop_last(), i, x);
        assert(u.drop_last() == es.drop_last().update(i, x));
    }
}

/// The total after an entry is removed.
proof fn lemma_total_remove(es: Seq<Seq<char>>, i: int)
    requires
        0 <= i < es.len(),
    ensures
        total_chars(es.remove(i)) == total_chars(es) - es[i].len(),
    decreases es.len(),
{
    let r = es.remove(i);
    if i == es.len() - 1 {
        assert(r == es.drop_last());
    } else {
        lemma_total_remove(es.drop_last(), i);
        assert(r.drop_last() == es.drop_last().remove(i));
        assert(r.last() == es.last());
    }
}

/// Law: an entry that passes the limit check leaves the document within its
/// limit once written, provided that it is not empty once trimmed and holds
/// no delimiter.
pub proof fn law_add_within_limit(content: Seq<char>, text: Seq<char>, limit: nat)
    requires
        trim(text).len() > 0,
        forall|k: int| 0 <= k < text.len() ==> text[k] != delimiter(),
        used(content) + trim(text).len() <= limit,
    ensures
        used(document(entries_of(content).push(trim(text)))) <= limit,
{
    law_read_after_add(content, text);
}

/// Law: replacing an entry changes the characters a document counts by the
/// difference between the new (trimmed) entry and the old one, which is what
/// the limit check for a replacement weighs.
pub proof fn law_replace_usage(content: Seq<char>, index: int, text: Seq<char>)
    requires
        0 <= index < entries_of(content).len(),
        trim(text).len() > 0,
        forall|k: int| 0 <= k < text.len() ==> text[k] != delimiter(),
    ensures
        used(document(entries_of(content).update(index, trim(text)))) == used(content)
            - entries_of(content)[index].len() + trim(text).len(),
{
    law_read_after_replace(content, index, text);
    lemma_total_update(entries_of(content), index, trim(text));
}

/// Law: removing an entry frees exactly its characters.
pub proof fn law_remove_usage(content: Seq<char>, index: int)
    requires
        0 <= index < entries_of(content).len(),
    ensures
        used(document(entries_of(content).remove(index))) == used(content) - entries_of(
            content,
        )[index].len(),
{
    law_read_after_remove(content, index);
    lemma_total_remove(entries_of(content), index);
}

/// Law: an entry is added exactly when the document, with the trimmed entry,
/// stays within the target's limit; the document written then reads back as
/// the earlier entries followed by the trimmed entry, and counts no more
/// characters than the limit. This holds of an entry that is not empty once
/// trimmed and holds no delimiter.
pub proof fn law_add_entry(content: Seq<char>, target: MemoryTarget, text: Seq<char>, config: MemoryConfig)
    requires
        trim(text).len() > 0,
        forall|k: int| 0 <= k < text.len() ==> text[k] != delimiter(),
    ensures
        spec_add_entry(content, target, text, config) is Some <==> used(content) + trim(text).len()
            <= spec_limit_for(target, config),
        spec_add_entry(content, target, text, config) matches Some(d) ==> {
            &&& entries_of(d) == entries_of(content).push(trim(text))
            &&& used(d) == used(content) + trim(text).len()
            &&& used(d) <= spec_limit_for(target, config)
        },
{
    law_read_after_add(content, text);
}

/// Law: an entry is replaced exactly when it exists and the document, with the
/// trimmed entry in its place, stays within the target's limit; the document
/// written then reads back as the same number of entries, the others in place
/// and the trimmed entry at `index`, and counts no more characters than the
/// limit. This holds of an entry that is not empty once trimmed and holds no
/// delimiter.
pub proof fn law_replace_entry(
    content: Seq<char>,
    target: MemoryTarget,
    index: nat,
    text: Seq<char>,
    config: MemoryConfig,
)
    requires
        trim(text).len() > 0,
        forall|k: int| 0 <= k < text.len() ==> text[k] != delimiter(),
    ensures
        spec_replace_entry(content, target, index, text, config) is Some <==> (index < entries_of(
            content,
        ).len() && used(content) - entries_of(content)[index as int].len() + trim(text).len()
            <= spec_limit_for(target, config)),
        spec_replace_entry(content, target, index, text, config) matches Some(d) ==> {
            &&& entries_of(d) == entries_of(content).update(index as int, trim(text))
            &&& entries_of(d).len() == entries_of(content).len()
            &&& forall|i: int|
                0 <= i < entries_of(d).len() && i != index ==> #[trigger] entries_of(d)[i]
                    == entries_of(content)[i]
            &&& used(d) <= spec_limit_for(target, config)
        },
{
    if index < entries_of(content).len() {
        law_read_after_replace(content, index as int, text);
        law_replace_usage(content, index as int, text);
    }
}

} // verus!
