//! The memory block injected into a system prompt.

use vstd::prelude::*;
use crate::entries::{document, entries_of, serialize_entries, total_chars, views};
use crate::memory::{countable, percent, spec_percent};
use crate::text::{chars_of, decimal, decimal_string, digit_char, push_char, push_decimal};
use crate::types::{spec_label, spec_limit_for, MemoryConfig, MemoryTarget};

verus! {

/// Decimal digits grouped by thousands with commas, from the right.
pub open spec fn group_thousands(d: Seq<char>) -> Seq<char>
    decreases d.len(),
{
    if d.len() <= 3 {
        d
    } else {
        group_thousands(d.take(d.len() - 3)) + seq![','] + d.skip(d.len() - 3)
    }
}

/// `n` in decimal with comma separators (1375 is written "1,375").
pub open spec fn spec_format_number(n: nat) -> Seq<char> {
    group_thousands(decimal(n))
}

proof fn lemma_decimal_nonempty(n: nat)
    ensures
        decimal(n).len() >= 1,
    decreases n,
{
    if n >= 10 {
        lemma_decimal_nonempty(n / 10);
    }
}

/// Formats a number with comma separators (e.g. 1375 -> "1,375").
pub fn format_number(n: usize) -> (r: String)
    ensures
        r@ == spec_format_number(n as nat),
{
    let s = decimal_string(n as u64);
    let v = chars_of(s.as_str());
    proof {
        lemma_decimal_nonempty(n as nat);
    }
    let len = v.len();
    let first = (len - 1) % 3 + 1;
    let mut r = String::new();
    let mut i: usize = 0;
    while i < first
        invariant
            i <= first <= 3,
            first <= len == v@.len(),
            r@ == v@.take(i as int),
        decreases first - i,
    {
        push_char(&mut r, v[i]);
        assert(v@.take(i + 1) == v@.take(i as int).push(v@[i as int]));
        i = i + 1;
    }
    let mut pos = first;
    while pos < len
        invariant
            1 <= first <= pos <= len == v@.len(),
            (len - pos) % 3 == 0,
            r@ == group_thousands(v@.take(pos as int)),
        decreases len - pos,
    {
        let ghost before = r@;
        push_char(&mut r, ',');
        push_char(&mut r, v[pos]);
        push_char(&mut r, v[pos + 1]);
        push_char(&mut r, v[pos + 2]);
        proof {
            let d = v@.take(pos + 3);
            assert(d.take(d.len() - 3) == v@.take(pos as int));
            assert(d.skip(d.len() - 3) == v@.subrange(pos as int, pos + 3));
            assert(r@ == before + seq![','] + v@.subrange(pos as int, pos + 3));
        }
        pos = pos + 3;
    }
    proof {
        assert(v@.take(len as int) == v@);
    }
    r
}

/// The rule drawn above and below a section's label.
pub open spec fn rule() -> Seq<char> {
    Seq::new(38, |i: int| '\u{2550}')
}

fn push_rule(s: &mut String)
    ensures
        final(s)@ == old(s)@ + rule(),
{
    let mut i: usize = 0;
    while i < 38
        invariant
            i <= 38,
            s@ == old(s)@ + Seq::new(i as nat, |k: int| '\u{2550}'),
        decreases 38 - i,
    {
        push_char(s, '\u{2550}');
        assert(Seq::new((i + 1) as nat, |k: int| '\u{2550}') == Seq::new(i as nat, |k: int| '\u{2550}').push('\u{2550}'));
        i = i + 1;
    }
}

/// The label line of a section: the target's label, then its usage.
pub open spec fn section_label(target: MemoryTarget, chars: nat, limit: nat) -> Seq<char> {
    let head = match target {
        MemoryTarget::Agent => spec_label(target) + " (your personal notes)"@,
        MemoryTarget::User => spec_label(target),
    };
    head + " ["@ + decimal(spec_percent(chars, limit)) + "% \u{2014} "@ + spec_format_number(chars) + "/"@
        + spec_format_number(limit) + " chars]"@
}

/// The section that shows a document's entries, or none when it has none.
pub open spec fn spec_section(target: MemoryTarget, es: Seq<Seq<char>>, limit: nat) -> Option<
    Seq<char>,
> {
    if es.len() == 0 {
        None
    } else {
        Some(
            rule() + seq!['\n'] + section_label(target, total_chars(es), limit) + seq!['\n'] + rule()
                + seq!['\n'] + document(es),
        )
    }
}

/// Builds the section of one document, or nothing when it has no entries.
pub fn build_section(target: MemoryTarget, entries: &Vec<String>, limit: usize) -> (r: Option<
    String,
>)
    requires
        total_chars(views(entries@)) * 100 <= usize::MAX,
    ensures
        r matches Some(s) ==> spec_section(target, views(entries@), limit as nat) == Some(s@),
        r is None ==> spec_section(target, views(entries@), limit as nat) is None,
{
    if entries.len() == 0 {
        return None;
    }
    let chars = crate::entries::char_count(entries);
    let pct = percent(chars, limit);
    let mut s = String::new();
    push_rule(&mut s);
    push_char(&mut s, '\n');
    s.append(target.label());
    match target {
        MemoryTarget::Agent => {
            s.append(" (your personal notes)");
        },
        MemoryTarget::User => {},
    }
    s.append(" [");
    push_decimal(&mut s, pct as u64);
    s.append("% \u{2014} ");
    s.append(format_number(chars).as_str());
    s.append("/");
    s.append(format_number(limit).as_str());
    s.append(" chars]");
    push_char(&mut s, '\n');
    push_rule(&mut s);
    push_char(&mut s, '\n');
    s.append(serialize_entries(entries).as_str());
    Some(s)
}

/// The memory block made of the two sections that exist, separated by a blank
/// line.
pub open spec fn spec_prompt(agent: Option<Seq<char>>, user: Option<Seq<char>>) -> Seq<char> {
    match (agent, user) {
        (Some(a), Some(u)) => a + seq!['\n', '\n'] + u,
        (Some(a), None) => a,
        (None, Some(u)) => u,
        (None, None) => Seq::<char>::empty(),
    }
}

/// The memory block of both documents under `config`.
pub open spec fn spec_memory_prompt(agent: Seq<char>, user: Seq<char>, config: MemoryConfig) -> Seq<
    char,
> {
    spec_prompt(
        spec_section(
            MemoryTarget::Agent,
            entries_of(agent),
            spec_limit_for(MemoryTarget::Agent, config) as nat,
        ),
        spec_section(
            MemoryTarget::User,
            entries_of(user),
            spec_limit_for(MemoryTarget::User, config) as nat,
        ),
    )
}

/// Builds the memory block for system prompt injection from the text of both
/// documents. It is empty when neither document has an entry.
pub fn build_memory_prompt(agent_content: &str, user_content: &str, config: &MemoryConfig) -> (r:
    String)
    requires
        countable(agent_content@),
        countable(user_content@),
    ensures
        r@ == spec_memory_prompt(agent_content@, user_content@, *config),
        r@.len() == 0 <==> (entries_of(agent_content@).len() == 0 && entries_of(
            user_content@,
        ).len() == 0),
{
    let agent_entries = crate::entries::parse_entries(agent_content);
    let user_entries = crate::entries::parse_entries(user_content);
    let agent_section = build_section(
        MemoryTarget::Agent,
        &agent_entries,
        crate::types::limit_for(MemoryTarget::Agent, config),
    );
    let user_section = build_section(
        MemoryTarget::User,
        &user_entries,
        crate::types::limit_for(MemoryTarget::User, config),
    );
    match (agent_section, user_section) {
        (Some(a), Some(u)) => {
            let mut r = a;
            r.append("\n\n");
            r.append(u.as_str());
            proof {
                reveal_strlit("\n\n");
                assert("\n\n"@ == seq!['\n', '\n']);
            }
            r
        },
        (Some(a), None) => a,
        (None, Some(u)) => u,
        (None, None) => String::new(),
    }
}

/// `s` without its commas.
pub open spec fn drop_commas(s: Seq<char>) -> Seq<char>
    decreases s.len(),
{
    if s.len() == 0 {
        s
    } else if s.last() == ',' {
        drop_commas(s.drop_last())
    } else {
        drop_commas(s.drop_last()).push(s.last())
    }
}

proof fn lemma_drop_commas_concat(a: Seq<char>, b: Seq<char>)
    ensures
        drop_commas(a + b) == drop_commas(a) + drop_commas(b),
    decreases b.len(),
{
    if b.len() == 0 {
        assert(a + b == a);
    } else {
        lemma_drop_commas_concat(a, b.drop_last());
        assert((a + b).drop_last() == a + b.drop_last());
    }
}

proof fn lemma_drop_commas_none(d: Seq<char>)
    requires
        forall|i: int| 0 <= i < d.len() ==> d[i] != ',',
    ensures
        drop_commas(d) == d,
    decreases d.len(),
{
    if d.len() > 0 {
        lemma_drop_commas_none(d.drop_last());
        assert(d.drop_last().push(d.last()) == d);
    }
}

proof fn lemma_group_digits(d: Seq<char>)
    requires
        forall|i: int| 0 <= i < d.len() ==> d[i] != ',',
    ensures
        drop_commas(group_thousands(d)) == d,
    decreases d.len(),
{
    if d.len() <= 3 {
        lemma_drop_commas_none(d);
    } else {
        let head = d.take(d.len() - 3);
        let tail = d.skip(d.len() - 3);
        lemma_group_digits(head);
        lemma_drop_commas_none(tail);
        lemma_drop_commas_concat(group_thousands(head) + seq![','], tail);
        lemma_drop_commas_concat(group_thousands(head), seq![',']);
        assert(seq![','].drop_last() == Seq::<char>::empty());
        assert(drop_commas(Seq::<char>::empty()) == Seq::<char>::empty());
        assert(seq![','].last() == ',');
        assert(drop_commas(seq![',']) == Seq::<char>::empty());
        assert(head + tail == d);
    }
}

proof fn lemma_decimal_digits(n: nat)
    ensures
        forall|i: int| 0 <= i < decimal(n).len() ==> decimal(n)[i] != ',',
    decreases n,
{
    let c = digit_char(n % 10);
    assert(c as nat == 48 + n % 10);
    if n >= 10 {
        lemma_decimal_digits(n / 10);
        let p = decimal(n / 10);
        assert forall|i: int| 0 <= i < decimal(n).len() implies decimal(n)[i] != ',' by {
            if i < p.len() {
                assert(decimal(n)[i] == p[i]);
            } else {
                assert(decimal(n)[i] == c);
            }
        }
    } else {
        assert(decimal(n) == seq![c]);
    }
}

/// Law: the commas of a formatted number only group its digits: removing
/// them gives the plain decimal rendering.
pub proof fn law_format_number_digits(n: nat)
    ensures
        drop_commas(spec_format_number(n)) == decimal(n),
{
    lemma_decimal_digits(n);
    lemma_group_digits(decimal(n));
}

/// Law: the memory block is the agent section and the user section, those
/// that exist, joined by a blank line; a section exists exactly when its
/// document has entries, opens with the rule and ends with the document's
/// entries; so the block is empty exactly when neither document has an entry.
pub proof fn law_memory_prompt(agent: Seq<char>, user: Seq<char>, config: MemoryConfig)
    ensures
        spec_memory_prompt(agent, user, config) == spec_prompt(
            spec_section(MemoryTarget::Agent, entries_of(agent), config.memory_limit as nat),
            spec_section(MemoryTarget::User, entries_of(user), config.user_limit as nat),
        ),
        forall|t: MemoryTarget, es: Seq<Seq<char>>, limit: nat|
            #[trigger] spec_section(t, es, limit) is None <==> es.len() == 0,
        forall|t: MemoryTarget, es: Seq<Seq<char>>, limit: nat|
            #[trigger] spec_section(t, es, limit) is Some ==> {
                let s = spec_section(t, es, limit).unwrap();
                &&& s.take(38) == rule()
                &&& s.skip(s.len() - document(es).len()) == document(es)
            },
        spec_memory_prompt(agent, user, config).len() == 0 <==> (entries_of(agent).len() == 0
            && entries_of(user).len() == 0),
{
    assert forall|t: MemoryTarget, es: Seq<Seq<char>>, limit: nat|
        #[trigger] spec_section(t, es, limit) is Some implies {
            let s = spec_section(t, es, limit).unwrap();
            &&& s.take(38) == rule()
            &&& s.skip(s.len() - document(es).len()) == document(es)
        } by {
        let s = spec_section(t, es, limit).unwrap();
        let head = rule() + seq!['\n'] + section_label(t, total_chars(es), limit) + seq!['\n'] + rule()
            + seq!['\n'];
        assert(s == head + document(es));
        assert(s.take(38) == rule());
        assert(s.skip(s.len() - document(es).len()) == document(es));
    }
}

} // verus!
