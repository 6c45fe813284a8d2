//! Character-level text primitives with exact specifications: whitespace,
//! trimming, splitting, decimal rendering and string building.

use vstd::prelude::*;

verus! {

/// Whether `c` has the Unicode `White_Space` property, which is what
/// `char::is_whitespace` tests.
pub open spec fn is_ws(c: char) -> bool {
    ||| ('\u{9}' <= c && c <= '\u{d}')
    ||| c == ' '
    ||| c == '\u{85}'
    ||| c == '\u{a0}'
    ||| c == '\u{1680}'
    ||| ('\u{2000}' <= c && c <= '\u{200a}')
    ||| c == '\u{2028}'
    ||| c == '\u{2029}'
    ||| c == '\u{202f}'
    ||| c == '\u{205f}'
    ||| c == '\u{3000}'
}

/// `s` without its leading whitespace.
pub open spec fn trim_start(s: Seq<char>) -> Seq<char>
    decreases s.len(),
{
    if s.len() > 0 && is_ws(s[0]) {
        trim_start(s.drop_first())
    } else {
        s
    }
}

/// `s` without its trailing whitespace.
pub open spec fn trim_end(s: Seq<char>) -> Seq<char>
    decreases s.len(),
{
    if s.len() > 0 && is_ws(s.last()) {
        trim_end(s.drop_last())
    } else {
        s
    }
}

/// `s` without leading and trailing whitespace (what `str::trim` returns).
pub open spec fn trim(s: Seq<char>) -> Seq<char> {
    trim_end(trim_start(s))
}

/// The pieces of `s` between the characters that satisfy `p`, in order.
/// Like `str::split`, there is always at least one piece, and two adjacent
/// separators give an empty piece.
pub open spec fn split_by(s: Seq<char>, p: spec_fn(char) -> bool) -> Seq<Seq<char>>
    decreases s.len(),
{
    if s.len() == 0 {
        seq![Seq::<char>::empty()]
    } else {
        let pieces = split_by(s.drop_last(), p);
        if p(s.last()) {
            pieces.push(Seq::<char>::empty())
        } else {
            pieces.update(pieces.len() - 1, pieces.last().push(s.last()))
        }
    }
}

/// The test for the character `d`.
pub open spec fn is_char(d: char) -> spec_fn(char) -> bool {
    |c: char| c == d
}

/// The test for whitespace.
pub open spec fn ws_test() -> spec_fn(char) -> bool {
    |c: char| is_ws(c)
}

/// The pieces of `s` between occurrences of `d` (what `str::split(d)` yields).
pub open spec fn split_on(s: Seq<char>, d: char) -> Seq<Seq<char>> {
    split_by(s, is_char(d))
}

/// The pieces that are not empty, in order.
pub open spec fn keep_nonempty(pieces: Seq<Seq<char>>) -> Seq<Seq<char>>
    decreases pieces.len(),
{
    if pieces.len() == 0 {
        Seq::<Seq<char>>::empty()
    } else if pieces.last().len() > 0 {
        keep_nonempty(pieces.drop_last()).push(pieces.last())
    } else {
        keep_nonempty(pieces.drop_last())
    }
}

/// The nonempty pieces of `s` between whitespace characters (what
/// `str::split_whitespace` yields).
pub open spec fn words(s: Seq<char>) -> Seq<Seq<char>> {
    keep_nonempty(split_by(s, ws_test()))
}

/// Whether `s` begins with `prefix`.
pub open spec fn has_prefix(s: Seq<char>, prefix: Seq<char>) -> bool {
    prefix.len() <= s.len() && s.take(prefix.len() as int) == prefix
}

/// The character of a decimal digit.
pub open spec fn digit_char(d: nat) -> char {
    (48 + d) as char
}

/// The decimal rendering of `n`, without leading zeros (what
/// `usize::to_string` returns).
pub open spec fn decimal(n: nat) -> Seq<char>
    decreases n,
{
    if n < 10 {
        seq![digit_char(n)]
    } else {
        decimal(n / 10).push(digit_char(n % 10))
    }
}

/// Whether `c` is an ASCII decimal digit.
pub open spec fn is_digit(c: char) -> bool {
    '0' <= c && c <= '9'
}

/// The number that a string of decimal digits spells, most significant first.
pub open spec fn digits_value(d: Seq<char>) -> int
    decreases d.len(),
{
    if d.len() == 0 {
        0
    } else {
        digits_value(d.drop_last()) * 10 + (d.last() as int - 48)
    }
}

/// The decimal rendering of a number is made of digits, and reads back as the
/// number.
pub proof fn lemma_decimal_reads_back(n: nat)
    ensures
        decimal(n).len() > 0,
        forall|i: int| 0 <= i < decimal(n).len() ==> is_digit(#[trigger] decimal(n)[i]),
        digits_value(decimal(n)) == n,
    decreases n,
{
    let c = digit_char(n % 10);
    assert(c as int == 48 + n % 10);
    assert(is_digit(c));
    if n >= 10 {
        lemma_decimal_reads_back(n / 10);
        let p = decimal(n / 10);
        assert(decimal(n) == p.push(c));
        assert(decimal(n).drop_last() == p);
        assert forall|i: int| 0 <= i < decimal(n).len() implies is_digit(#[trigger] decimal(n)[i]) by {
            if i < p.len() {
                assert(decimal(n)[i] == p[i]);
            } else {
                assert(decimal(n)[i] == c);
            }
        }
        assert(n / 10 * 10 + n % 10 == n);
        assert(digits_value(decimal(n)) == digits_value(p) * 10 + (c as int - 48));
    } else {
        assert(decimal(n) == seq![c]);
        assert(decimal(n)[0] == c);
        assert(seq![c].drop_last() == Seq::<char>::empty());
        assert(digits_value(Seq::<char>::empty()) == 0);
        assert(digits_value(decimal(n)) == digits_value(Seq::<char>::empty()) * 10 + (c as int - 48));
    }
}

/// Appends one character to a string.
///
/// Trusted: `String::push` appends `c` at the end of `s`, as std documents.
#[verifier::external_body]
pub fn push_char(s: &mut String, c: char)
    ensures
        final(s)@ == old(s)@.push(c),
{
    s.push(c);
}

/// The characters of `s`, in order.
pub fn chars_of(s: &str) -> (v: Vec<char>)
    ensures
        v@ == s@,
{
    let mut v: Vec<char> = Vec::new();
    for c in it: s.chars()
        invariant
            v@ == it.seq().take(it.index() as int),
    {
        v.push(c);
    }
    v
}

/// The string made of `v[lo..hi]`.
pub fn string_of(v: &[char], lo: usize, hi: usize) -> (s: String)
    requires
        lo <= hi <= v@.len(),
    ensures
        s@ == v@.subrange(lo as int, hi as int),
{
    let mut s = String::new();
    let mut i = lo;
    while i < hi
        invariant
            lo <= i <= hi <= v@.len(),
            s@ == v@.subrange(lo as int, i as int),
        decreases hi - i,
    {
        push_char(&mut s, v[i]);
        assert(v@.subrange(lo as int, i + 1) == v@.subrange(lo as int, i as int).push(v@[i as int]));
        i = i + 1;
    }
    s
}

/// Tests `c` for the `White_Space` property.
pub fn is_whitespace(c: char) -> (b: bool)
    ensures
        b == is_ws(c),
{
    ('\u{9}' <= c && c <= '\u{d}') || c == ' ' || c == '\u{85}' || c == '\u{a0}' || c == '\u{1680}'
        || ('\u{2000}' <= c && c <= '\u{200a}') || c == '\u{2028}' || c == '\u{2029}' || c
        == '\u{202f}' || c == '\u{205f}' || c == '\u{3000}'
}

/// Trimming the start of `s` skips exactly its leading whitespace.
pub proof fn lemma_trim_start_skip(s: Seq<char>, i: int)
    requires
        0 <= i <= s.len(),
        forall|k: int| 0 <= k < i ==> is_ws(#[trigger] s[k]),
        i == s.len() || !is_ws(s[i]),
    ensures
        trim_start(s) == s.skip(i),
    decreases i,
{
    if i == 0 {
        assert(s.skip(0) == s);
    } else {
        let t = s.drop_first();
        assert forall|k: int| 0 <= k < i - 1 implies is_ws(#[trigger] t[k]) by {
            assert(t[k] == s[k + 1]);
        }
        if i - 1 < t.len() {
            assert(t[i - 1] == s[i]);
        }
        lemma_trim_start_skip(t, i - 1);
        assert(t.skip(i - 1) == s.skip(i));
    }
}

/// Trimming the end of `s` keeps exactly what precedes its trailing
/// whitespace.
pub proof fn lemma_trim_end_take(s: Seq<char>, j: int)
    requires
        0 <= j <= s.len(),
        forall|k: int| j <= k < s.len() ==> is_ws(#[trigger] s[k]),
        j == 0 || !is_ws(s[j - 1]),
    ensures
        trim_end(s) == s.take(j),
    decreases s.len() - j,
{
    if j == s.len() {
        assert(s.take(j) == s);
    } else {
        let t = s.drop_last();
        assert forall|k: int| j <= k < t.len() implies is_ws(#[trigger] t[k]) by {
            assert(t[k] == s[k]);
        }
        if j > 0 {
            assert(t[j - 1] == s[j - 1]);
        }
        lemma_trim_end_take(t, j);
        assert(t.take(j) == s.take(j));
    }
}

/// The bounds `(lo, hi)` of `v[start..end]` without its leading and trailing
/// whitespace.
pub fn trim_range(v: &[char], start: usize, end: usize) -> (r: (usize, usize))
    requires
        start <= end <= v@.len(),
    ensures
        start <= r.0 <= r.1 <= end,
        trim(v@.subrange(start as int, end as int)) == v@.subrange(r.0 as int, r.1 as int),
{
    let ghost s = v@.subrange(start as int, end as int);
    let mut lo: usize = start;
    while lo < end && is_whitespace(v[lo])
        invariant
            start <= lo <= end <= v@.len(),
            s == v@.subrange(start as int, end as int),
            forall|k: int| 0 <= k < lo - start ==> is_ws(#[trigger] s[k]),
        decreases end - lo,
    {
        assert(s[lo - start] == v@[lo as int]);
        lo = lo + 1;
    }
    proof {
        if lo < end {
            assert(s[lo - start] == v@[lo as int]);
        }
        lemma_trim_start_skip(s, lo - start);
    }
    let ghost t = s.skip(lo - start);
    let mut hi: usize = end;
    while hi > lo && is_whitespace(v[hi - 1])
        invariant
            start <= lo <= hi <= end <= v@.len(),
            t == v@.subrange(lo as int, end as int),
            forall|k: int| hi <= k < end ==> is_ws(#[trigger] v@[k]),
        decreases hi - lo,
    {
        hi = hi - 1;
    }
    proof {
        assert(t == v@.subrange(lo as int, end as int));
        assert forall|k: int| hi - lo <= k < t.len() implies is_ws(#[trigger] t[k]) by {
            assert(t[k] == v@[k + lo]);
        }
        if hi > lo {
            assert(t[hi - lo - 1] == v@[hi - 1]);
        }
        lemma_trim_end_take(t, hi - lo);
        assert(t.take(hi - lo) == v@.subrange(lo as int, hi as int));
    }
    (lo, hi)
}

/// `s` without leading and trailing whitespace.
pub fn trim_str(s: &str) -> (r: String)
    ensures
        r@ == trim(s@),
{
    let v = chars_of(s);
    let (lo, hi) = trim_range(v.as_slice(), 0, v.len());
    assert(v@.subrange(0, v@.len() as int) == v@);
    string_of(v.as_slice(), lo, hi)
}

/// Appends the decimal rendering of `n` to `s`.
pub fn push_decimal(s: &mut String, n: u64)
    ensures
        final(s)@ == old(s)@ + decimal(n as nat),
    decreases n,
{
    if n < 10 {
        push_char(s, ((n as u8) + 48u8) as char);
        assert(final(s)@ == old(s)@ + seq![digit_char(n as nat)]);
    } else {
        push_decimal(s, n / 10);
        push_char(s, (((n % 10) as u8) + 48u8) as char);
    }
}

/// The decimal rendering of `n`.
pub fn decimal_string(n: u64) -> (s: String)
    ensures
        s@ == decimal(n as nat),
{
    let mut s = String::new();
    push_decimal(&mut s, n);
    assert(s@ == Seq::<char>::empty() + decimal(n as nat));
    s
}

/// The character views of a list of character vectors.
pub open spec fn vviews(v: Seq<Vec<char>>) -> Seq<Seq<char>> {
    v.map_values(|p: Vec<char>| p@)
}

/// Splitting always gives at least one piece.
pub proof fn lemma_split_nonempty(s: Seq<char>, p: spec_fn(char) -> bool)
    ensures
        split_by(s, p).len() >= 1,
    decreases s.len(),
{
    if s.len() > 0 {
        lemma_split_nonempty(s.drop_last(), p);
    }
}

/// How splitting grows by one character.
pub proof fn lemma_split_by_step(s: Seq<char>, i: int, p: spec_fn(char) -> bool)
    requires
        0 <= i < s.len(),
    ensures
        split_by(s.take(i), p).len() >= 1,
        p(s[i]) ==> split_by(s.take(i + 1), p) == split_by(s.take(i), p).push(Seq::<char>::empty()),
        !p(s[i]) ==> split_by(s.take(i + 1), p) == split_by(s.take(i), p).update(
            split_by(s.take(i), p).len() - 1,
            split_by(s.take(i), p).last().push(s[i]),
        ),
{
    lemma_split_nonempty(s.take(i), p);
    assert(s.take(i + 1).drop_last() == s.take(i));
}

/// A text in which no character passes the test is one piece.
pub proof fn lemma_split_none(s: Seq<char>, p: spec_fn(char) -> bool)
    requires
        forall|i: int| 0 <= i < s.len() ==> !p(#[trigger] s[i]),
    ensures
        split_by(s, p) == seq![s],
    decreases s.len(),
{
    if s.len() > 0 {
        let t = s.drop_last();
        assert forall|i: int| 0 <= i < t.len() implies !p(#[trigger] t[i]) by {
            assert(t[i] == s[i]);
        }
        lemma_split_none(t, p);
        assert(!p(s[s.len() - 1]));
        assert(t.push(s.last()) == s);
        assert(seq![t].update(0, t.push(s.last())) == seq![s]);
    } else {
        assert(s == Seq::<char>::empty());
    }
}

/// Splitting at a separator `c` splits the text before it and the text
/// after it apart.
pub proof fn lemma_split_at(a: Seq<char>, c: char, b: Seq<char>, p: spec_fn(char) -> bool)
    requires
        p(c),
    ensures
        split_by(a.push(c) + b, p) == split_by(a, p) + split_by(b, p),
    decreases b.len(),
{
    let s = a.push(c) + b;
    if b.len() == 0 {
        assert(s == a.push(c));
        assert(s.drop_last() == a);
        assert(split_by(a, p).push(Seq::<char>::empty()) == split_by(a, p) + seq![Seq::<char>::empty()]);
    } else {
        lemma_split_at(a, c, b.drop_last(), p);
        assert(s.drop_last() == a.push(c) + b.drop_last());
        assert(s.last() == b.last());
        let x = split_by(a, p);
        let y = split_by(b.drop_last(), p);
        lemma_split_nonempty(b.drop_last(), p);
        if p(b.last()) {
            assert((x + y).push(Seq::<char>::empty()) == x + y.push(Seq::<char>::empty()));
        } else {
            assert((x + y).last() == y.last());
            assert((x + y).update((x + y).len() - 1, y.last().push(b.last())) == x + y.update(
                y.len() - 1,
                y.last().push(b.last()),
            ));
        }
    }
}

/// The pieces of `v` between occurrences of `d`.
pub fn split_char(v: &[char], d: char) -> (r: Vec<Vec<char>>)
    ensures
        vviews(r@) == split_on(v@, d),
{
    let mut r: Vec<Vec<char>> = Vec::new();
    let mut cur: Vec<char> = Vec::new();
    let mut i: usize = 0;
    proof {
        assert(v@.take(0) == Seq::<char>::empty());
    }
    while i < v.len()
        invariant
            i <= v@.len(),
            split_on(v@.take(i as int), d) == vviews(r@).push(cur@),
        decreases v@.len() - i,
    {
        proof {
            lemma_split_by_step(v@, i as int, is_char(d));
        }
        let ghost before = vviews(r@).push(cur@);
        if v[i] == d {
            let done = cur;
            r.push(done);
            cur = Vec::new();
            assert(vviews(r@).push(cur@) == before.push(Seq::<char>::empty()));
        } else {
            cur.push(v[i]);
            assert(vviews(r@).push(cur@) == before.update(before.len() - 1, before.last().push(v@[i as int])));
        }
        i = i + 1;
    }
    r.push(cur);
    proof {
        assert(v@.take(v@.len() as int) == v@);
    }
    r
}

/// The nonempty pieces of `v` between whitespace characters.
pub fn split_words(v: &[char]) -> (r: Vec<Vec<char>>)
    ensures
        vviews(r@) == words(v@),
{
    let mut r: Vec<Vec<char>> = Vec::new();
    let mut cur: Vec<char> = Vec::new();
    let mut i: usize = 0;
    proof {
        assert(v@.take(0) == Seq::<char>::empty());
    }
    while i < v.len()
        invariant
            i <= v@.len(),
            split_by(v@.take(i as int), ws_test()).len() >= 1,
            split_by(v@.take(i as int), ws_test()).last() == cur@,
            vviews(r@) == keep_nonempty(split_by(v@.take(i as int), ws_test()).drop_last()),
        decreases v@.len() - i,
    {
        let ghost before = split_by(v@.take(i as int), ws_test());
        proof {
            lemma_split_by_step(v@, i as int, ws_test());
        }
        if is_whitespace(v[i]) {
            let ghost old_r = vviews(r@);
            if cur.len() > 0 {
                let done = cur;
                r.push(done);
                assert(vviews(r@) == old_r.push(before.last()));
            }
            cur = Vec::new();
            proof {
                assert(before == before.drop_last().push(before.last()));
                assert(before.drop_last().push(before.last()).drop_last() == before.drop_last());
                assert(split_by(v@.take(i + 1), ws_test()).drop_last() == before);
            }
        } else {
            cur.push(v[i]);
            proof {
                assert(split_by(v@.take(i + 1), ws_test()).drop_last() == before.drop_last());
            }
        }
        i = i + 1;
    }
    let ghost all = split_by(v@.take(i as int), ws_test());
    let ghost old_r = vviews(r@);
    if cur.len() > 0 {
        r.push(cur);
        assert(vviews(r@) == old_r.push(all.last()));
    }
    proof {
        assert(all == all.drop_last().push(all.last()));
        assert(all.drop_last().push(all.last()).drop_last() == all.drop_last());
        assert(v@.take(v@.len() as int) == v@);
    }
    r
}

/// Whether `v` begins with `prefix`.
pub fn starts_with(v: &[char], prefix: &[char]) -> (b: bool)
    ensures
        b == has_prefix(v@, prefix@),
{
    if prefix.len() > v.len() {
        return false;
    }
    let mut i: usize = 0;
    while i < prefix.len()
        invariant
            i <= prefix@.len() <= v@.len(),
            forall|k: int| 0 <= k < i ==> v@[k] == prefix@[k],
        decreases prefix@.len() - i,
    {
        if v[i] != prefix[i] {
            assert(v@.take(prefix@.len() as int)[i as int] != prefix@[i as int]);
            return false;
        }
        i = i + 1;
    }
    assert(v@.take(prefix@.len() as int) == prefix@);
    true
}

/// Whether two texts are equal.
pub fn same_text(a: &str, b: &str) -> (r: bool)
    ensures
        r == (a@ == b@),
{
    let x = chars_of(a);
    let y = chars_of(b);
    if x.len() != y.len() {
        return false;
    }
    let r = starts_with(x.as_slice(), y.as_slice());
    proof {
        assert(x@.take(y@.len() as int) == x@);
    }
    r
}

} // verus!
