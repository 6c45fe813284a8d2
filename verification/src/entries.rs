//! The entry format of a memory document: parsing, serialising, counting.
//!
//! A document is a sequence of entries delimited by the section sign. On
//! reading, every piece between delimiters is trimmed and empty pieces are
//! dropped; on writing, entries are joined by a delimiter on a line of its own.

use vstd::prelude::*;
use crate::text::{
    chars_of, is_char, is_ws, lemma_split_by_step, lemma_split_nonempty, lemma_trim_end_take,
    lemma_trim_start_skip, split_by, split_on, string_of, trim, trim_end, trim_range, trim_start,
};

verus! {

/// The character that delimits entries.
pub open spec fn delimiter() -> char {
    '\u{a7}'
}

/// What separates two entries in a written document: the delimiter on a line
/// of its own.
pub open spec fn entry_separator() -> Seq<char> {
    seq!['\n', delimiter(), '\n']
}

/// The trimmed pieces that are not empty, in order.
pub open spec fn clean(pieces: Seq<Seq<char>>) -> Seq<Seq<char>>
    decreases pieces.len(),
{
    if pieces.len() == 0 {
        Seq::<Seq<char>>::empty()
    } else {
        let rest = clean(pieces.drop_last());
        let t = trim(pieces.last());
        if t.len() > 0 {
            rest.push(t)
        } else {
            rest
        }
    }
}

/// The entries of a document's text.
pub open spec fn entries_of(content: Seq<char>) -> Seq<Seq<char>> {
    clean(split_on(content, delimiter()))
}

/// The character views of a list of strings.
pub open spec fn views(v: Seq<String>) -> Seq<Seq<char>> {
    v.map_values(|e: String| e@)
}

/// The total number of characters of a list of entries.
pub open spec fn total_chars(es: Seq<Seq<char>>) -> nat
    decreases es.len(),
{
    if es.len() == 0 {
        0
    } else {
        total_chars(es.drop_last()) + es.last().len()
    }
}

/// The pieces of `es` with `sep` between each two of them.
pub open spec fn join(es: Seq<Seq<char>>, sep: Seq<char>) -> Seq<char>
    decreases es.len(),
{
    if es.len() == 0 {
        Seq::<char>::empty()
    } else if es.len() == 1 {
        es[0]
    } else {
        join(es.drop_last(), sep) + sep + es.last()
    }
}

/// The text of a document that holds the entries `es`.
pub open spec fn document(es: Seq<Seq<char>>) -> Seq<char> {
    join(es, entry_separator())
}

/// An entry survives being written and read back unchanged: it is not empty,
/// neither begins nor ends with whitespace, and holds no delimiter.
pub open spec fn is_clean_entry(e: Seq<char>) -> bool {
    &&& e.len() > 0
    &&& !is_ws(e[0])
    &&& !is_ws(e.last())
    &&& forall|k: int| 0 <= k < e.len() ==> e[k] != delimiter()
}

/// How splitting on a character grows by one character.
pub proof fn lemma_split_on_step(s: Seq<char>, i: int, d: char)
    requires
        0 <= i < s.len(),
    ensures
        split_on(s.take(i), d).len() >= 1,
        s[i] == d ==> split_on(s.take(i + 1), d) == split_on(s.take(i), d).push(Seq::<char>::empty()),
        s[i] != d ==> split_on(s.take(i + 1), d) == split_on(s.take(i), d).update(
            split_on(s.take(i), d).len() - 1,
            split_on(s.take(i), d).last().push(s[i]),
        ),
{
    lemma_split_by_step(s, i, is_char(d));
}

/// The total of a list grown by one entry.
pub proof fn lemma_total_push(es: Seq<Seq<char>>, x: Seq<char>)
    ensures
        total_chars(es.push(x)) == total_chars(es) + x.len(),
{
    assert(es.push(x).drop_last() == es);
}

/// The clean pieces of a sequence of pieces, grown by one piece.
proof fn lemma_clean_push(pieces: Seq<Seq<char>>, x: Seq<char>)
    ensures
        clean(pieces.push(x)) == (if trim(x).len() > 0 {
            clean(pieces).push(trim(x))
        } else {
            clean(pieces)
        }),
{
    assert(pieces.push(x).drop_last() == pieces);
}

/// Parses the text of a document into its entries.
pub fn parse_entries(content: &str) -> (r: Vec<String>)
    ensures
        views(r@) == entries_of(content@),
        total_chars(views(r@)) <= content@.len(),
        content@.len() <= usize::MAX,
{
    let v = chars_of(content);
    let n = v.len();
    let mut out: Vec<String> = Vec::new();
    let mut start: usize = 0;
    let mut i: usize = 0;
    proof {
        lemma_split_nonempty(v@.take(0), is_char(delimiter()));
        assert(v@.take(0) == Seq::<char>::empty());
    }
    while i < n
        invariant
            v@ == content@,
            n == v@.len(),
            start <= i <= n,
            split_on(v@.take(i as int), delimiter()).len() >= 1,
            views(out@) == clean(split_on(v@.take(i as int), delimiter()).drop_last()),
            split_on(v@.take(i as int), delimiter()).last() == v@.subrange(start as int, i as int),
            total_chars(views(out@)) + (i - start) <= i,
        decreases n - i,
    {
        let ghost before = split_on(v@.take(i as int), delimiter());
        proof {
            lemma_split_on_step(v@, i as int, delimiter());
        }
        if v[i] == '\u{a7}' {
            let (lo, hi) = trim_range(v.as_slice(), start, i);
            let ghost t = trim(v@.subrange(start as int, i as int));
            if lo < hi {
                let piece = string_of(v.as_slice(), lo, hi);
                let ghost old_out = out@;
                out.push(piece);
                proof {
                    assert(views(out@) == views(old_out).push(t));
                    lemma_total_push(views(old_out), t);
                }
            }
            proof {
                let after = split_on(v@.take(i + 1), delimiter());
                assert(after.drop_last() == before);
                assert(before == before.drop_last().push(before.last()));
                lemma_clean_push(before.drop_last(), before.last());
                assert(after.last() == v@.subrange(i + 1, i + 1));
            }
            start = i + 1;
        } else {
            proof {
                let after = split_on(v@.take(i + 1), delimiter());
                assert(after.drop_last() == before.drop_last());
                assert(v@.subrange(start as int, i + 1) == v@.subrange(start as int, i as int).push(
                    v@[i as int],
                ));
            }
        }
        i = i + 1;
    }
    let (lo, hi) = trim_range(v.as_slice(), start, n);
    let ghost last_piece = split_on(v@.take(n as int), delimiter()).last();
    if lo < hi {
        let piece = string_of(v.as_slice(), lo, hi);
        let ghost old_out = out@;
        out.push(piece);
        proof {
            assert(views(out@) == views(old_out).push(trim(last_piece)));
            lemma_total_push(views(old_out), trim(last_piece));
        }
    }
    proof {
        let all = split_on(v@.take(n as int), delimiter());
        assert(all == all.drop_last().push(all.last()));
        lemma_clean_push(all.drop_last(), all.last());
        assert(v@.take(n as int) == v@);
    }
    out
}

/// The total of a prefix grows by the next entry's length.
proof fn lemma_total_take(es: Seq<Seq<char>>, i: int)
    requires
        0 <= i < es.len(),
    ensures
        total_chars(es.take(i + 1)) == total_chars(es.take(i)) + es[i].len(),
{
    assert(es.take(i + 1).drop_last() == es.take(i));
}

/// The total number of characters of the entries.
pub fn char_count(entries: &Vec<String>) -> (n: usize)
    requires
        total_chars(views(entries@)) <= usize::MAX,
    ensures
        n == total_chars(views(entries@)),
{
    let ghost es = views(entries@);
    let mut n: usize = 0;
    let mut i: usize = 0;
    proof {
        assert(es.take(0) == Seq::<Seq<char>>::empty());
    }
    while i < entries.len()
        invariant
            es == views(entries@),
            total_chars(es) <= usize::MAX,
            i <= entries@.len(),
            n == total_chars(es.take(i as int)),
        decreases entries@.len() - i,
    {
        proof {
            lemma_total_take(es, i as int);
            lemma_total_prefix(es, i + 1);
        }
        let k = entries[i].as_str().unicode_len();
        n = n + k;
        i = i + 1;
    }
    proof {
        assert(es.take(i as int) == es);
    }
    n
}

/// The total of a prefix is at most the total.
proof fn lemma_total_prefix(es: Seq<Seq<char>>, i: int)
    requires
        0 <= i <= es.len(),
    ensures
        total_chars(es.take(i)) <= total_chars(es),
    decreases es.len() - i,
{
    if i < es.len() {
        lemma_total_prefix(es, i + 1);
        lemma_total_take(es, i);
    } else {
        assert(es.take(i) == es);
    }
}

/// The strings of `list` with `sep` between each two of them.
pub fn join_strings(list: &Vec<String>, sep: &str) -> (r: String)
    ensures
        r@ == join(views(list@), sep@),
{
    let ghost es = views(list@);
    let mut r = String::new();
    let mut i: usize = 0;
    while i < list.len()
        invariant
            es == views(list@),
            i <= list@.len(),
            r@ == join(es.take(i as int), sep@),
        decreases list@.len() - i,
    {
        proof {
            assert(es.take(i + 1).drop_last() == es.take(i as int));
        }
        if i > 0 {
            r.append(sep);
        }
        r.append(list[i].as_str());
        i = i + 1;
    }
    proof {
        assert(es.take(i as int) == es);
    }
    r
}

/// The text of a document that holds the entries.
pub fn serialize_entries(entries: &Vec<String>) -> (r: String)
    ensures
        r@ == document(views(entries@)),
{
    proof {
        reveal_strlit("\n\u{a7}\n");
        assert("\n\u{a7}\n"@ =~= entry_separator());
    }
    join_strings(entries, "\n\u{a7}\n")
}

/// Splitting text that holds no separator gives the text itself.
pub proof fn lemma_split_none(s: Seq<char>, p: spec_fn(char) -> bool)
    requires
        forall|k: int| 0 <= k < s.len() ==> !p(#[trigger] s[k]),
    ensures
        split_by(s, p) == seq![s],
    decreases s.len(),
{
    if s.len() > 0 {
        let t = s.drop_last();
        assert forall|k: int| 0 <= k < t.len() implies !p(#[trigger] t[k]) by {
            assert(t[k] == s[k]);
        }
        lemma_split_none(t, p);
        assert(t.push(s.last()) == s);
    } else {
        assert(s == Seq::<char>::empty());
    }
}

/// Splitting at a separator splits the two sides independently.
pub proof fn lemma_split_concat(a: Seq<char>, d: char, b: Seq<char>, p: spec_fn(char) -> bool)
    requires
        p(d),
    ensures
        split_by(a.push(d) + b, p) == split_by(a, p) + split_by(b, p),
    decreases b.len(),
{
    let x = a.push(d) + b;
    if b.len() == 0 {
        assert(x == a.push(d));
        assert(a.push(d).drop_last() == a);
        assert(split_by(b, p) == seq![Seq::<char>::empty()]);
    } else {
        let b2 = b.drop_last();
        lemma_split_concat(a, d, b2, p);
        assert(x.drop_last() == a.push(d) + b2);
        assert(x.last() == b.last());
        lemma_split_nonempty(b2, p);
        lemma_split_nonempty(a, p);
        let l = split_by(a, p);
        let r = split_by(b2, p);
        if p(b.last()) {
            assert((l + r).push(Seq::<char>::empty()) == l + r.push(Seq::<char>::empty()));
        } else {
            assert((l + r).update((l + r).len() - 1, (l + r).last().push(b.last())) == l + r.update(
                r.len() - 1,
                r.last().push(b.last()),
            ));
        }
    }
}

/// An entry as it stands in a written document: a line break before it
/// unless it is the first, and one after it unless it is the last.
pub open spec fn framed(es: Seq<Seq<char>>, i: int) -> Seq<char> {
    (if i > 0 {
        seq!['\n']
    } else {
        Seq::<char>::empty()
    }) + es[i] + (if i < es.len() - 1 {
        seq!['\n']
    } else {
        Seq::<char>::empty()
    })
}

proof fn lemma_clean_entry_free(e: Seq<char>)
    requires
        is_clean_entry(e),
    ensures
        forall|k: int| 0 <= k < seq!['\n'].add(e).len() ==> #[trigger] seq!['\n'].add(e)[k]
            != delimiter(),
        forall|k: int| 0 <= k < e.len() ==> !is_char(delimiter())(#[trigger] e[k]),
{
    assert forall|k: int| 0 <= k < seq!['\n'].add(e).len() implies #[trigger] seq!['\n'].add(e)[k]
        != delimiter() by {
        if k > 0 {
            assert(seq!['\n'].add(e)[k] == e[k - 1]);
        }
    }
}

/// How a written document splits at its delimiters.
pub proof fn lemma_split_document(es: Seq<Seq<char>>)
    requires
        es.len() >= 1,
        forall|i: int| 0 <= i < es.len() ==> is_clean_entry(#[trigger] es[i]),
    ensures
        split_on(document(es), delimiter()) == Seq::new(es.len(), |i: int| framed(es, i)),
    decreases es.len(),
{
    let n = es.len();
    let d = delimiter();
    if n == 1 {
        lemma_clean_entry_free(es[0]);
        lemma_split_none(es[0], is_char(d));
        assert(framed(es, 0) == es[0]);
        assert(Seq::new(es.len(), |i: int| framed(es, i)) == seq![es[0]]);
    } else {
        let e2 = es.drop_last();
        let last = es.last();
        assert forall|i: int| 0 <= i < e2.len() implies is_clean_entry(#[trigger] e2[i]) by {
            assert(e2[i] == es[i]);
        }
        lemma_split_document(e2);
        let prev = document(e2);
        assert(document(es) == prev + entry_separator() + last);
        assert(prev + entry_separator() + last == prev.push('\n').push(d) + (seq!['\n'] + last));
        lemma_split_concat(prev.push('\n'), d, seq!['\n'] + last, is_char(d));
        lemma_clean_entry_free(last);
        lemma_split_none(seq!['\n'] + last, is_char(d));
        assert(prev.push('\n').drop_last() == prev);
        lemma_split_nonempty(prev, is_char(d));
        let sp = split_on(prev, d);
        let grown = sp.update(sp.len() - 1, sp.last().push('\n'));
        assert(split_on(prev.push('\n'), d) == grown);
        let want = Seq::new(es.len(), |i: int| framed(es, i));
        assert forall|i: int| 0 <= i < n implies (grown + seq![seq!['\n'] + last])[i] == #[trigger] want[i] by {
            if i < n - 2 {
                assert(framed(e2, i) == framed(es, i));
            } else if i == n - 2 {
                assert(framed(e2, i).push('\n') == framed(es, i));
            } else {
                assert(framed(es, i) == seq!['\n'] + last);
            }
        }
        assert(grown + seq![seq!['\n'] + last] == want);
    }
}

/// The shape of `trim_start`: a suffix that does not begin with whitespace.
pub proof fn lemma_trim_start_shape(s: Seq<char>)
    ensures
        trim_start(s).len() <= s.len(),
        trim_start(s) == s.skip(s.len() - trim_start(s).len()),
        trim_start(s).len() == 0 || !is_ws(trim_start(s)[0]),
    decreases s.len(),
{
    if s.len() > 0 && is_ws(s[0]) {
        lemma_trim_start_shape(s.drop_first());
        assert(s.drop_first().skip(s.drop_first().len() - trim_start(s).len()) == s.skip(
            s.len() - trim_start(s).len(),
        ));
    } else {
        assert(s.skip(0) == s);
    }
}

/// The shape of `trim_end`: a prefix that does not end with whitespace.
pub proof fn lemma_trim_end_shape(s: Seq<char>)
    ensures
        trim_end(s).len() <= s.len(),
        trim_end(s) == s.take(trim_end(s).len() as int),
        trim_end(s).len() == 0 || !is_ws(trim_end(s).last()),
    decreases s.len(),
{
    if s.len() > 0 && is_ws(s.last()) {
        lemma_trim_end_shape(s.drop_last());
        assert(s.drop_last().take(trim_end(s).len() as int) == s.take(trim_end(s).len() as int));
    } else {
        assert(s.take(s.len() as int) == s);
    }
}

/// Trimming keeps a contiguous part of the text, which neither begins nor ends
/// with whitespace.
pub proof fn lemma_trim_shape(s: Seq<char>)
    ensures
        trim(s).len() <= s.len(),
        trim_start(s).len() <= s.len(),
        s.len() - trim_start(s).len() + trim(s).len() <= s.len(),
        trim(s) == s.subrange(
            s.len() - trim_start(s).len(),
            s.len() - trim_start(s).len() + trim(s).len(),
        ),
        trim(s).len() == 0 || (!is_ws(trim(s)[0]) && !is_ws(trim(s).last())),
{
    let a = trim_start(s);
    lemma_trim_start_shape(s);
    lemma_trim_end_shape(a);
    let t = trim_end(a);
    let lo = s.len() - a.len();
    assert(t == s.subrange(lo, lo + t.len()));
    if t.len() > 0 {
        assert(t[0] == a[0]);
    }
}

/// Trimming a framed clean entry gives the entry back.
proof fn lemma_trim_framed(es: Seq<Seq<char>>, i: int)
    requires
        0 <= i < es.len(),
        is_clean_entry(es[i]),
    ensures
        trim(framed(es, i)) == es[i],
{
    let e = es[i];
    let x = framed(es, i);
    let pre: int = if i > 0 { 1 } else { 0 };
    assert forall|k: int| 0 <= k < pre implies is_ws(#[trigger] x[k]) by {
        assert(x[k] == '\n');
    }
    assert(x[pre] == e[0]);
    lemma_trim_start_skip(x, pre);
    let y = x.skip(pre);
    let post: int = if i < es.len() - 1 { 1 } else { 0 };
    assert(y.len() == e.len() + post);
    assert forall|k: int| e.len() <= k < y.len() implies is_ws(#[trigger] y[k]) by {
        assert(y[k] == '\n');
    }
    assert(y[e.len() - 1] == e.last());
    lemma_trim_end_take(y, e.len() as int);
    assert(y.take(e.len() as int) == e);
}

/// The clean pieces of pieces that each trim to a nonempty entry are those
/// entries.
proof fn lemma_clean_all(pieces: Seq<Seq<char>>, es: Seq<Seq<char>>)
    requires
        pieces.len() == es.len(),
        forall|i: int| 0 <= i < es.len() ==> trim(#[trigger] pieces[i]) == es[i] && es[i].len() > 0,
    ensures
        clean(pieces) == es,
    decreases es.len(),
{
    if es.len() > 0 {
        let p2 = pieces.drop_last();
        let e2 = es.drop_last();
        assert forall|i: int| 0 <= i < e2.len() implies trim(#[trigger] p2[i]) == e2[i] && e2[i].len() > 0 by {
            assert(p2[i] == pieces[i]);
            assert(e2[i] == es[i]);
        }
        lemma_clean_all(p2, e2);
        assert(trim(pieces.last()) == es.last());
        assert(e2.push(es.last()) == es);
    } else {
        assert(es == Seq::<Seq<char>>::empty());
    }
}

/// Law: reading back a written document gives the entries that were
/// written, provided each of them is clean.
pub proof fn law_document_roundtrip(es: Seq<Seq<char>>)
    requires
        forall|i: int| 0 <= i < es.len() ==> is_clean_entry(#[trigger] es[i]),
    ensures
        entries_of(document(es)) == es,
{
    if es.len() == 0 {
        let e = Seq::<char>::empty();
        assert(document(es) == e);
        assert(split_on(e, delimiter()) == seq![e]);
        assert(seq![e].drop_last() == Seq::<Seq<char>>::empty());
        assert(seq![e].last() == e);
        assert(trim_start(e) == e);
        assert(trim_end(e) == e);
        assert(trim(e).len() == 0);
        assert(clean(Seq::<Seq<char>>::empty()) == Seq::<Seq<char>>::empty());
        assert(clean(seq![e]) == Seq::<Seq<char>>::empty());
        assert(es == Seq::<Seq<char>>::empty());
    } else {
        lemma_split_document(es);
        let pieces = Seq::new(es.len(), |i: int| framed(es, i));
        assert forall|i: int| 0 <= i < es.len() implies trim(#[trigger] pieces[i]) == es[i] && es[i].len() > 0 by {
            lemma_trim_framed(es, i);
        }
        lemma_clean_all(pieces, es);
    }
}

/// No piece of a split holds the character split at.
pub proof fn lemma_split_pieces_free(s: Seq<char>, d: char)
    ensures
        forall|i: int, k: int|
            0 <= i < split_on(s, d).len() && 0 <= k < split_on(s, d)[i].len() ==> #[trigger] split_on(
                s,
                d,
            )[i][k] != d,
    decreases s.len(),
{
    if s.len() > 0 {
        let t = s.drop_last();
        lemma_split_pieces_free(t, d);
        lemma_split_nonempty(t, is_char(d));
        assert(s.take(s.len() - 1) == t);
        assert(s.take(s.len() as int) == s);
        lemma_split_on_step(s, s.len() - 1, d);
    }
}

/// The entries of pieces free of the delimiter are all clean.
proof fn lemma_clean_is_clean(pieces: Seq<Seq<char>>)
    requires
        forall|i: int, k: int|
            0 <= i < pieces.len() && 0 <= k < pieces[i].len() ==> #[trigger] pieces[i][k] != delimiter(),
    ensures
        forall|i: int| 0 <= i < clean(pieces).len() ==> is_clean_entry(#[trigger] clean(pieces)[i]),
    decreases pieces.len(),
{
    if pieces.len() > 0 {
        let p2 = pieces.drop_last();
        assert forall|i: int, k: int| 0 <= i < p2.len() && 0 <= k < p2[i].len() implies #[trigger] p2[i][k]
            != delimiter() by {
            assert(p2[i] == pieces[i]);
        }
        lemma_clean_is_clean(p2);
        let x = pieces.last();
        let t = trim(x);
        lemma_trim_shape(x);
        if t.len() > 0 {
            let lo = x.len() - trim_start(x).len();
            assert(lo + t.len() <= x.len());
            assert(t == x.subrange(lo, lo + t.len()));
            assert forall|k: int| 0 <= k < t.len() implies t[k] != delimiter() by {
                assert(t[k] == x[lo + k]);
                assert(x == pieces[pieces.len() - 1]);
            }
            assert(is_clean_entry(t));
            assert(clean(pieces) == clean(p2).push(t));
            assert forall|i: int| 0 <= i < clean(pieces).len() implies is_clean_entry(
                #[trigger] clean(pieces)[i],
            ) by {
                if i < clean(p2).len() {
                    assert(clean(pieces)[i] == clean(p2)[i]);
                }
            }
        } else {
            assert(clean(pieces) == clean(p2));
        }
    }
}

/// Law: every entry read from a document is clean: not empty, not framed
/// by whitespace, free of the delimiter.
pub proof fn law_entries_are_clean(content: Seq<char>)
    ensures
        forall|i: int| 0 <= i < entries_of(content).len() ==> is_clean_entry(#[trigger] entries_of(content)[i]),
{
    lemma_split_pieces_free(content, delimiter());
    lemma_clean_is_clean(split_on(content, delimiter()));
}

} // verus!
