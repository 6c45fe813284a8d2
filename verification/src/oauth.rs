//! The text logic of the OAuth PKCE flow of a desktop app: percent-encoding,
//! the authorization URL, the parameters of the callback request, and the
//! page answered to the browser.

use vstd::prelude::*;
use vstd::utf8::encode_utf8;
use crate::text::{
    chars_of, has_prefix, push_char, push_decimal, split_char, split_on, split_words, starts_with,
    string_of, vviews, words, decimal, is_char, lemma_split_at, lemma_split_none, split_by, is_digit, digits_value,
    lemma_decimal_reads_back,
};

verus! {

/// Bytes that percent-encoding leaves as they are: ASCII letters, digits and
/// `-`, `_`, `.`, `~`.
pub open spec fn is_unreserved(b: u8) -> bool {
    ||| (65 <= b && b <= 90)
    ||| (97 <= b && b <= 122)
    ||| (48 <= b && b <= 57)
    ||| b == 45
    ||| b == 95
    ||| b == 46
    ||| b == 126
}

/// The upper-case hexadecimal digit of `d` (below 16).
pub open spec fn hex_upper(d: nat) -> char {
    if d < 10 {
        (48 + d) as char
    } else {
        (55 + d) as char
    }
}

/// The percent-encoding of one byte.
pub open spec fn pct_byte(b: u8) -> Seq<char> {
    if is_unreserved(b) {
        seq![b as char]
    } else {
        seq!['%', hex_upper(b as nat / 16), hex_upper(b as nat % 16)]
    }
}

/// The percent-encoding of a byte sequence.
pub open spec fn pct_encode_bytes(b: Seq<u8>) -> Seq<char>
    decreases b.len(),
{
    if b.len() == 0 {
        Seq::<char>::empty()
    } else {
        pct_byte(b[0]) + pct_encode_bytes(b.drop_first())
    }
}

/// The percent-encoding of the UTF-8 bytes of a text.
pub open spec fn spec_pct_encode(s: Seq<char>) -> Seq<char> {
    pct_encode_bytes(encode_utf8(s))
}

fn hex_upper_char(d: u8) -> (c: char)
    requires
        d < 16,
    ensures
        c == hex_upper(d as nat),
{
    if d < 10 {
        (d + 48) as char
    } else {
        (d + 55) as char
    }
}

/// Percent-encodes the UTF-8 bytes of `s`, keeping unreserved bytes.
pub fn pct_encode(s: &str) -> (r: String)
    ensures
        r@ == spec_pct_encode(s@),
{
    let b = s.as_bytes();
    let mut r = String::new();
    let mut i: usize = 0;
    proof {
        assert(b@.skip(0) == b@);
    }
    while i < b.len()
        invariant
            b@ == encode_utf8(s@),
            i <= b@.len(),
            pct_encode_bytes(b@) == r@ + pct_encode_bytes(b@.skip(i as int)),
        decreases b@.len() - i,
    {
        let x = b[i];
        let ghost before = r@;
        proof {
            assert(b@.skip(i as int).drop_first() == b@.skip(i + 1));
            assert(b@.skip(i as int)[0] == x);
        }
        if (65 <= x && x <= 90) || (97 <= x && x <= 122) || (48 <= x && x <= 57) || x == 45 || x == 95
            || x == 46 || x == 126 {
            push_char(&mut r, x as char);
        } else {
            push_char(&mut r, '%');
            push_char(&mut r, hex_upper_char(x / 16));
            push_char(&mut r, hex_upper_char(x % 16));
        }
        proof {
            assert(r@ == before + pct_byte(x));
        }
        i = i + 1;
    }
    proof {
        assert(b@.skip(i as int) == Seq::<u8>::empty());
        assert(r@ + Seq::<char>::empty() == r@);
    }
    r
}

/// The value of a hexadecimal digit of either case.
pub open spec fn hex_digit_value(c: char) -> Option<nat> {
    if '0' <= c && c <= '9' {
        Some((c as nat - 48) as nat)
    } else if 'a' <= c && c <= 'f' {
        Some((c as nat - 87) as nat)
    } else if 'A' <= c && c <= 'F' {
        Some((c as nat - 55) as nat)
    } else {
        None
    }
}

/// The value of a nonempty string of hexadecimal digits.
pub open spec fn hex_digits_value(d: Seq<char>) -> Option<nat>
    decreases d.len(),
{
    if d.len() == 0 {
        Some(0)
    } else {
        match (hex_digits_value(d.drop_last()), hex_digit_value(d.last())) {
            (Some(v), Some(x)) => Some(v * 16 + x),
            _ => None,
        }
    }
}

/// What `u8::from_str_radix(h, 16)` gives for a text of at most two
/// characters: an optional leading `+`, then at least one hexadecimal digit.
pub open spec fn radix16_byte(h: Seq<char>) -> Option<nat> {
    if h.len() == 0 {
        None
    } else if h[0] == '+' {
        if h.len() == 1 {
            None
        } else {
            hex_digits_value(h.drop_first())
        }
    } else {
        hex_digits_value(h)
    }
}

/// Percent-decoding as the callback handler does it: `%` and the (at most)
/// two characters after it stand for the byte they spell in hexadecimal, as
/// the character of that code point; when they spell no byte, all three are
/// dropped. Every other character stands for itself.
pub open spec fn spec_pct_decode(s: Seq<char>) -> Seq<char>
    decreases s.len(),
{
    if s.len() == 0 {
        Seq::<char>::empty()
    } else if s[0] == '%' {
        let end: int = if s.len() < 3 {
            s.len() as int
        } else {
            3
        };
        let rest = s.skip(end);
        match radix16_byte(s.subrange(1, end)) {
            Some(b) => seq![b as char] + spec_pct_decode(rest),
            None => spec_pct_decode(rest),
        }
    } else {
        seq![s[0]] + spec_pct_decode(s.drop_first())
    }
}

fn hex_digit(c: char) -> (r: Option<u8>)
    ensures
        match hex_digit_value(c) {
            Some(v) => r == Some(v as u8) && v < 16,
            None => r is None,
        },
{
    if '0' <= c && c <= '9' {
        Some(((c as u32) - 48) as u8)
    } else if 'a' <= c && c <= 'f' {
        Some(((c as u32) - 87) as u8)
    } else if 'A' <= c && c <= 'F' {
        Some(((c as u32) - 55) as u8)
    } else {
        None
    }
}

proof fn lemma_short_digits(d: Seq<char>)
    requires
        1 <= d.len() <= 2,
    ensures
        d.len() == 1 ==> hex_digits_value(d) == hex_digit_value(d[0]),
        d.len() == 2 ==> hex_digits_value(d) == match (hex_digit_value(d[0]), hex_digit_value(d[1])) {
            (Some(x), Some(y)) => Some(x * 16 + y),
            _ => None,
        },
{
    let e = Seq::<char>::empty();
    assert(hex_digits_value(e) == Some(0nat));
    let d0 = seq![d[0]];
    assert(d0.drop_last() == e);
    assert(d0.last() == d[0]);
    assert(hex_digits_value(d0) == hex_digit_value(d[0]));
    if d.len() == 1 {
        assert(d == d0);
    } else {
        assert(d.drop_last() == d0);
        assert(d.last() == d[1]);
    }
}

/// The byte that `v[lo..hi]` spells in hexadecimal (at most two characters,
/// with an optional leading `+`).
fn radix16(v: &[char], lo: usize, hi: usize) -> (r: Option<u8>)
    requires
        lo <= hi <= v@.len(),
        hi - lo <= 2,
    ensures
        match radix16_byte(v@.subrange(lo as int, hi as int)) {
            Some(b) => r == Some(b as u8) && b < 256,
            None => r is None,
        },
{
    let ghost h = v@.subrange(lo as int, hi as int);
    if lo == hi {
        return None;
    }
    let mut start = lo;
    if v[lo] == '+' {
        if hi - lo == 1 {
            return None;
        }
        start = lo + 1;
    }
    let ghost d = v@.subrange(start as int, hi as int);
    proof {
        if start > lo {
            assert(h.drop_first() == d);
        } else {
            assert(h == d);
        }
        assert(d.len() >= 1);
        assert(d[0] == v@[start as int]);
        lemma_short_digits(d);
    }
    let first = hex_digit(v[start]);
    if first.is_none() {
        return None;
    }
    let a = first.unwrap();
    if hi - start == 1 {
        return Some(a);
    }
    let second = hex_digit(v[start + 1]);
    proof {
        assert(d[1] == v@[start + 1]);
    }
    match second {
        Some(b) => Some(a * 16 + b),
        None => None,
    }
}

/// Percent-decodes `v`.
pub fn pct_decode_chars(v: &[char]) -> (r: String)
    ensures
        r@ == spec_pct_decode(v@),
{
    let n = v.len();
    let mut r = String::new();
    let mut i: usize = 0;
    proof {
        assert(v@.skip(0) == v@);
    }
    while i < n
        invariant
            n == v@.len(),
            i <= n,
            spec_pct_decode(v@) == r@ + spec_pct_decode(v@.skip(i as int)),
        decreases n - i,
    {
        let ghost s = v@.skip(i as int);
        let ghost before = r@;
        if v[i] == '%' {
            let end = if n - i < 3 {
                n
            } else {
                i + 3
            };
            proof {
                assert(s[0] == '%');
                assert(s.subrange(1, end - i) == v@.subrange(i + 1, end as int));
                assert(s.skip(end - i) == v@.skip(end as int));
            }
            match radix16(v, i + 1, end) {
                Some(b) => {
                    push_char(&mut r, b as char);
                },
                None => {},
            }
            i = end;
        } else {
            push_char(&mut r, v[i]);
            proof {
                assert(s.drop_first() == v@.skip(i + 1));
            }
            i = i + 1;
        }
    }
    proof {
        assert(v@.skip(i as int) == Seq::<char>::empty());
        assert(r@ + Seq::<char>::empty() == r@);
    }
    r
}

/// Percent-decodes `s`.
pub fn pct_decode(s: &str) -> (r: String)
    ensures
        r@ == spec_pct_decode(s@),
{
    let v = chars_of(s);
    pct_decode_chars(v.as_slice())
}

proof fn lemma_hex_roundtrip(d: nat)
    requires
        d < 16,
    ensures
        hex_digit_value(hex_upper(d)) == Some(d),
        hex_upper(d) != '+',
{
}

proof fn lemma_decode_encode_bytes(b: Seq<u8>)
    requires
        forall|i: int| 0 <= i < b.len() ==> b[i] < 128,
    ensures
        spec_pct_decode(pct_encode_bytes(b)) == b.map_values(|x: u8| x as char),
    decreases b.len(),
{
    if b.len() == 0 {
        assert(b.map_values(|x: u8| x as char) == Seq::<char>::empty());
    } else {
        let x = b[0];
        let rest = b.drop_first();
        assert forall|i: int| 0 <= i < rest.len() implies rest[i] < 128 by {
            assert(rest[i] == b[i + 1]);
        }
        lemma_decode_encode_bytes(rest);
        let e = pct_encode_bytes(rest);
        let s = pct_byte(x) + e;
        assert(pct_encode_bytes(b) == s);
        if is_unreserved(x) {
            assert(s[0] == x as char);
            assert(s.drop_first() == e);
        } else {
            lemma_hex_roundtrip(x as nat / 16);
            lemma_hex_roundtrip(x as nat % 16);
            let h = seq![hex_upper(x as nat / 16), hex_upper(x as nat % 16)];
            assert(s.subrange(1, 3) == h);
            assert(s.skip(3) == e);
            lemma_short_digits(h);
            assert(radix16_byte(h) == Some(x as nat));
        }
        assert(b.map_values(|x: u8| x as char) == seq![x as char] + rest.map_values(|x: u8| x as char));
    }
}

/// Law: percent-decoding undoes percent-encoding for ASCII text.
pub proof fn law_pct_decode_encode(s: Seq<char>)
    requires
        vstd::utf8::is_ascii_chars(s),
    ensures
        spec_pct_decode(spec_pct_encode(s)) == s,
{
    vstd::utf8::is_ascii_chars_encode_utf8(s);
    let b = encode_utf8(s);
    assert forall|i: int| 0 <= i < b.len() implies b[i] < 128 by {
        assert(s[i] as u8 == b[i]);
        assert('\0' <= s[i] <= '\u{7f}');
    }
    lemma_decode_encode_bytes(b);
    assert(b.map_values(|x: u8| x as char) == s);
}

/// The rest of the first piece that begins with `prefix`.
pub open spec fn find_param(pairs: Seq<Seq<char>>, prefix: Seq<char>) -> Option<Seq<char>>
    decreases pairs.len(),
{
    if pairs.len() == 0 {
        None
    } else if has_prefix(pairs[0], prefix) {
        Some(pairs[0].skip(prefix.len() as int))
    } else {
        find_param(pairs.drop_first(), prefix)
    }
}

/// `s` with every `+` read as a space.
pub open spec fn plus_to_space(s: Seq<char>) -> Seq<char> {
    Seq::new(s.len(), |i: int| if s[i] == '+' { ' ' } else { s[i] })
}

/// The decoded value of the query parameter `key` of a request path: the query
/// is the text between the first and the second `?`, its pairs are separated
/// by `&`, and the first pair that begins with `key=` gives the value.
pub open spec fn spec_extract_param(path: Seq<char>, key: Seq<char>) -> Option<Seq<char>> {
    let parts = split_on(path, '?');
    if parts.len() < 2 {
        None
    } else {
        match find_param(split_on(parts[1], '&'), key.push('=')) {
            Some(v) => Some(spec_pct_decode(plus_to_space(v))),
            None => None,
        }
    }
}

/// The chars of `v[lo..]` with every `+` read as a space.
fn plus_to_space_from(v: &[char], lo: usize) -> (r: Vec<char>)
    requires
        lo <= v@.len(),
    ensures
        r@ == plus_to_space(v@.skip(lo as int)),
{
    let mut r: Vec<char> = Vec::new();
    let mut i = lo;
    while i < v.len()
        invariant
            lo <= i <= v@.len(),
            r@ == plus_to_space(v@.subrange(lo as int, i as int)),
        decreases v@.len() - i,
    {
        let c = if v[i] == '+' {
            ' '
        } else {
            v[i]
        };
        r.push(c);
        assert(r@ == plus_to_space(v@.subrange(lo as int, i + 1)));
        i = i + 1;
    }
    assert(v@.subrange(lo as int, v@.len() as int) == v@.skip(lo as int));
    r
}

/// The decoded value of the query parameter `key` of the request path `path`.
pub fn extract_param(path: &str, key: &str) -> (r: Option<String>)
    ensures
        match spec_extract_param(path@, key@) {
            Some(v) => r matches Some(s) && s@ == v,
            None => r is None,
        },
{
    let p = chars_of(path);
    let mut prefix = chars_of(key);
    prefix.push('=');
    let parts = split_char(p.as_slice(), '?');
    if parts.len() < 2 {
        return None;
    }
    assert(vviews(parts@)[1] == parts@[1]@);
    let pairs = split_char(parts[1].as_slice(), '&');
    let ghost pv = vviews(pairs@);
    let mut j: usize = 0;
    proof {
        assert(pv.skip(0) == pv);
    }
    while j < pairs.len()
        invariant
            pv == vviews(pairs@),
            vviews(parts@) == split_on(path@, '?'),
            parts@.len() >= 2,
            pv == split_on(parts@[1]@, '&'),
            j <= pv.len(),
            prefix@ == key@.push('='),
            find_param(pv, prefix@) == find_param(pv.skip(j as int), prefix@),
        decreases pv.len() - j,
    {
        proof {
            assert(pv.skip(j as int)[0] == pairs@[j as int]@);
            assert(pv.skip(j as int).drop_first() == pv.skip(j + 1));
        }
        if starts_with(pairs[j].as_slice(), prefix.as_slice()) {
            proof {
                assert(find_param(pv.skip(j as int), prefix@) == Some(
                    pairs@[j as int]@.skip(prefix@.len() as int),
                ));
                assert(vviews(parts@)[1] == parts@[1]@);
            }
            let value = plus_to_space_from(pairs[j].as_slice(), prefix.len());
            return Some(pct_decode_chars(value.as_slice()));
        }
        j = j + 1;
    }
    proof {
        assert(pv.skip(j as int) == Seq::<Seq<char>>::empty());
    }
    None
}

/// A percent-encoded text holds no query separator (`?`, `&`) and no `+`.
proof fn lemma_encoded_chars(b: Seq<u8>)
    ensures
        forall|i: int|
            0 <= i < pct_encode_bytes(b).len() ==> {
                let c = #[trigger] pct_encode_bytes(b)[i];
                c != '?' && c != '&' && c != '+'
            },
    decreases b.len(),
{
    if b.len() > 0 {
        lemma_encoded_chars(b.drop_first());
        let e = pct_encode_bytes(b.drop_first());
        let h = pct_byte(b[0]);
        assert(pct_encode_bytes(b) == h + e);
        assert forall|i: int| 0 <= i < h.len() implies h[i] != '?' && h[i] != '&' && h[i] != '+' by {
            if !is_unreserved(b[0]) {
                assert(h[1] == hex_upper(b[0] as nat / 16));
                assert(h[2] == hex_upper(b[0] as nat % 16));
            }
        }
        assert forall|i: int| 0 <= i < pct_encode_bytes(b).len() implies {
            let c = #[trigger] pct_encode_bytes(b)[i];
            c != '?' && c != '&' && c != '+'
        } by {
            if i >= h.len() {
                assert(pct_encode_bytes(b)[i] == e[i - h.len()]);
            } else {
                assert(pct_encode_bytes(b)[i] == h[i]);
            }
        }
    }
}

/// Law: query values round-trip. Extracting the parameter `key` from a path
/// whose query is `key=` followed by the percent-encoding of an ASCII text
/// gives back exactly that text: every escape decodes to its own byte, `%2B`
/// to `+` included.
pub proof fn law_extract_param_roundtrip(path: Seq<char>, key: Seq<char>, s: Seq<char>)
    requires
        vstd::utf8::is_ascii_chars(s),
        forall|i: int| 0 <= i < path.len() ==> #[trigger] path[i] != '?',
        forall|i: int| 0 <= i < key.len() ==> #[trigger] key[i] != '?' && key[i] != '&',
    ensures
        spec_extract_param(path.push('?') + key.push('=') + spec_pct_encode(s), key) == Some(s),
{
    let enc = spec_pct_encode(s);
    let q = key.push('=') + enc;
    let full = path.push('?') + q;
    lemma_encoded_chars(encode_utf8(s));
    assert forall|i: int| 0 <= i < q.len() implies !is_char('?')(#[trigger] q[i]) by {
        if i < key.len() + 1 {
            assert(q[i] == key.push('=')[i]);
        } else {
            assert(q[i] == enc[i - key.len() - 1]);
        }
    }
    assert forall|i: int| 0 <= i < path.len() implies !is_char('?')(#[trigger] path[i]) by {}
    lemma_split_at(path, '?', q, is_char('?'));
    lemma_split_none(path, is_char('?'));
    lemma_split_none(q, is_char('?'));
    assert(split_on(full, '?') == seq![path] + seq![q]);
    assert(split_on(full, '?')[1] == q);
    assert forall|i: int| 0 <= i < q.len() implies !is_char('&')(#[trigger] q[i]) by {
        if i < key.len() + 1 {
            assert(q[i] == key.push('=')[i]);
        } else {
            assert(q[i] == enc[i - key.len() - 1]);
        }
    }
    lemma_split_none(q, is_char('&'));
    let pairs = split_on(q, '&');
    assert(pairs == seq![q]);
    assert(q.take(key.len() + 1int) == key.push('='));
    assert(has_prefix(pairs[0], key.push('=')));
    assert(q.skip(key.len() + 1int) == enc);
    assert(find_param(pairs, key.push('=')) == Some(enc));
    assert forall|i: int| 0 <= i < enc.len() implies enc[i] != '+' by {}
    assert(plus_to_space(enc) == enc);
    law_pct_decode_encode(s);
    assert(path.push('?') + key.push('=') + enc == full);
    assert(spec_extract_param(full, key) == Some(s));
}

/// The query of the authorization request, appended to the authorization
/// endpoint.
pub open spec fn spec_auth_url(
    endpoint: Seq<char>,
    client_id: Seq<char>,
    redirect_uri: Seq<char>,
    scope: Seq<char>,
    challenge: Seq<char>,
) -> Seq<char> {
    endpoint + "?response_type=code&client_id="@ + spec_pct_encode(client_id) + "&redirect_uri="@
        + spec_pct_encode(redirect_uri) + "&scope="@ + spec_pct_encode(scope) + "&code_challenge="@
        + challenge + "&code_challenge_method=S256&state=composio"@
}

/// Builds the authorization URL that the browser opens.
pub fn build_auth_url(
    endpoint: &str,
    client_id: &str,
    redirect_uri: &str,
    scope: &str,
    challenge: &str,
) -> (r: String)
    ensures
        r@ == spec_auth_url(endpoint@, client_id@, redirect_uri@, scope@, challenge@),
{
    let mut r = String::from_str(endpoint);
    r.append("?response_type=code&client_id=");
    r.append(pct_encode(client_id).as_str());
    r.append("&redirect_uri=");
    r.append(pct_encode(redirect_uri).as_str());
    r.append("&scope=");
    r.append(pct_encode(scope).as_str());
    r.append("&code_challenge=");
    r.append(challenge);
    r.append("&code_challenge_method=S256&state=composio");
    r
}

/// The address on which the callback is received.
pub open spec fn spec_redirect_uri(port: u16) -> Seq<char> {
    "http://127.0.0.1:"@ + decimal(port as nat) + "/callback"@
}

/// The address on which the callback is received, on the given local port.
pub fn redirect_uri(port: u16) -> (r: String)
    ensures
        r@ == spec_redirect_uri(port),
{
    let mut r = String::from_str("http://127.0.0.1:");
    push_decimal(&mut r, port as u64);
    r.append("/callback");
    r
}

/// Law: the port can be read back from the redirect address, for every port:
/// the address is `http://127.0.0.1:`, then only decimal digits, which spell
/// the port, then `/callback`.
pub proof fn law_redirect_uri_port(port: u16)
    ensures
        ({
            let u = spec_redirect_uri(port);
            let digits = u.subrange(17, u.len() - 9);
            &&& u.len() > 26
            &&& u.take(17) == "http://127.0.0.1:"@
            &&& u.skip(u.len() - 9) == "/callback"@
            &&& forall|i: int| 0 <= i < digits.len() ==> is_digit(#[trigger] digits[i])
            &&& digits_value(digits) == port as int
        }),
{
    reveal_strlit("http://127.0.0.1:");
    reveal_strlit("/callback");
    let u = spec_redirect_uri(port);
    let d = decimal(port as nat);
    lemma_decimal_reads_back(port as nat);
    assert(u.take(17) == "http://127.0.0.1:"@);
    assert(u.skip(u.len() - 9) == "/callback"@);
    assert(u.subrange(17, u.len() - 9) == d);
}

/// The first line of a request: the text before the first line feed, without
/// a carriage return that ends it (what `str::lines` yields first).
pub open spec fn first_line(s: Seq<char>) -> Seq<char> {
    let lines = split_on(s, '\n');
    if lines.len() >= 2 && lines[0].len() > 0 && lines[0].last() == '\r' {
        lines[0].drop_last()
    } else {
        lines[0]
    }
}

/// The path of a request: the second word of its first line, or nothing.
pub open spec fn request_path(s: Seq<char>) -> Seq<char> {
    let w = words(first_line(s));
    if w.len() >= 2 {
        w[1]
    } else {
        Seq::<char>::empty()
    }
}

/// The path of the request line of `request`.
pub fn request_path_of(request: &str) -> (r: Vec<char>)
    ensures
        r@ == request_path(request@),
{
    let v = chars_of(request);
    let lines = split_char(v.as_slice(), '\n');
    proof {
        crate::text::lemma_split_nonempty(v@, crate::text::is_char('\n'));
        assert(vviews(lines@)[0] == lines@[0]@);
    }
    let first = &lines[0];
    let n = first.len();
    let end = if lines.len() >= 2 && n > 0 && first[n - 1] == '\r' {
        n - 1
    } else {
        n
    };
    let line = string_of(first.as_slice(), 0, end);
    proof {
        assert(first@.subrange(0, end as int) == first_line(request@));
    }
    let lv = chars_of(line.as_str());
    let mut w = split_words(lv.as_slice());
    if w.len() >= 2 {
        assert(vviews(w@)[1] == w@[1]@);
        w.remove(1)
    } else {
        Vec::new()
    }
}

/// The page shown in the browser after the callback.
pub struct CallbackPage {
    pub title: String,
    pub message: String,
}

/// What the callback handler does with a request: the page it shows, if
/// any, and the authorization code or the error the flow ends with.
pub struct CallbackReply {
    pub page: Option<CallbackPage>,
    pub outcome: Result<String, String>,
}

/// The page and outcome owed for a callback whose request path is `path`:
/// an `error` parameter ends the flow with its description (or the error
/// itself when no description is given); otherwise a `code` parameter is the
/// authorization code; a request with neither gets no page.
pub open spec fn spec_callback(path: Seq<char>) -> (Option<(Seq<char>, Seq<char>)>, Result<
    Seq<char>,
    Seq<char>,
>) {
    match spec_extract_param(path, "error"@) {
        Some(err) => {
            let desc = match spec_extract_param(path, "error_description"@) {
                Some(d) => d,
                None => err,
            };
            (Some(("Authorization failed"@, desc)), Err("OAuth error: "@ + desc))
        },
        None => match spec_extract_param(path, "code"@) {
            Some(code) => (
                Some(("Connected!"@, "You can close this window and return to the app."@)),
                Ok(code),
            ),
            None => (None, Err("No authorization code in callback"@)),
        },
    }
}

/// Whether `r` is the reply described by `spec`.
pub open spec fn reply_matches(
    r: CallbackReply,
    spec: (Option<(Seq<char>, Seq<char>)>, Result<Seq<char>, Seq<char>>),
) -> bool {
    &&& match (r.page, spec.0) {
        (Some(p), Some((t, m))) => p.title@ == t && p.message@ == m,
        (None, None) => true,
        _ => false,
    }
    &&& match (r.outcome, spec.1) {
        (Ok(c), Ok(d)) => c@ == d,
        (Err(c), Err(d)) => c@ == d,
        _ => false,
    }
}

/// Decides what to answer to the callback request `request` and how the flow
/// ends.
pub fn handle_callback(request: &str) -> (r: CallbackReply)
    ensures
        reply_matches(r, spec_callback(request_path(request@))),
{
    let pv = request_path_of(request);
    let path = string_of(pv.as_slice(), 0, pv.len());
    proof {
        assert(pv@.subrange(0, pv@.len() as int) == pv@);
    }
    match extract_param(path.as_str(), "error") {
        Some(err) => {
            let desc = match extract_param(path.as_str(), "error_description") {
                Some(d) => d,
                None => err,
            };
            let mut msg = String::from_str("OAuth error: ");
            msg.append(desc.as_str());
            CallbackReply {
                page: Some(CallbackPage { title: String::from_str("Authorization failed"), message: desc }),
                outcome: Err(msg),
            }
        },
        None => match extract_param(path.as_str(), "code") {
            Some(code) => CallbackReply {
                page: Some(
                    CallbackPage {
                        title: String::from_str("Connected!"),
                        message: String::from_str("You can close this window and return to the app."),
                    },
                ),
                outcome: Ok(code),
            },
            None => CallbackReply {
                page: None,
                outcome: Err(String::from_str("No authorization code in callback")),
            },
        },
    }
}

/// The HTML page that shows `title` and `message`.
pub open spec fn spec_page_html(title: Seq<char>, message: Seq<char>) -> Seq<char> {
    "<html><head><style>body{font-family:system-ui;display:flex;justify-content:center;align-items:center;height:100vh;margin:0;background:#fafafa;color:#0d0d0d}.c{text-align:center}h2{font-size:24px;font-weight:600;margin:0 0 8px}p{color:#5d5d5d;font-size:14px;margin:0}</style></head><body><div class='c'><h2>"@
        + title + "</h2><p>"@ + message + "</p></div></body></html>"@
}

/// The HTTP response that carries the page, with its length in bytes.
pub open spec fn spec_page_response(title: Seq<char>, message: Seq<char>) -> Seq<char> {
    let html = spec_page_html(title, message);
    "HTTP/1.1 200 OK\r\nContent-Type: text/html\r\nContent-Length: "@ + decimal(
        encode_utf8(html).len(),
    ) + "\r\nConnection: close\r\n\r\n"@ + html
}

/// Builds the HTTP response that shows `title` and `message` in the browser.
pub fn page_response(title: &str, message: &str) -> (r: String)
    requires
        encode_utf8(spec_page_html(title@, message@)).len() <= usize::MAX,
    ensures
        r@ == spec_page_response(title@, message@),
{
    let mut html = String::from_str(
        "<html><head><style>body{font-family:system-ui;display:flex;justify-content:center;align-items:center;height:100vh;margin:0;background:#fafafa;color:#0d0d0d}.c{text-align:center}h2{font-size:24px;font-weight:600;margin:0 0 8px}p{color:#5d5d5d;font-size:14px;margin:0}</style></head><body><div class='c'><h2>",
    );
    html.append(title);
    html.append("</h2><p>");
    html.append(message);
    html.append("</p></div></body></html>");
    let size = html.as_str().len();
    let mut r = String::from_str("HTTP/1.1 200 OK\r\nContent-Type: text/html\r\nContent-Length: ");
    push_decimal(&mut r, size as u64);
    r.append("\r\nConnection: close\r\n\r\n");
    r.append(html.as_str());
    r
}

} // verus!
