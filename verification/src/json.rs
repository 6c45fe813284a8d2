//! JSON documents, one level at a time.
//!
//! A parsed value holds its scalars as plain values, and the elements of an
//! array or the members of an object as their own JSON text, which is parsed
//! again to look further in. Parsing and writing JSON is done by `serde_json`;
//! looking members up and editing them is done here.

use vstd::prelude::*;
use crate::text::same_text;
use serde_json::Value;

verus! {

/// A JSON value, one level deep: the elements of an array and the members of
/// an object are kept as JSON text.
pub enum JsonValue {
    Null,
    Bool(bool),
    /// A number, as its JSON text.
    Number(String),
    Str(String),
    /// The JSON text of each element, in order.
    Array(Vec<String>),
    /// The name and the JSON text of each member, in the order the parsed
    /// object walks them (by name).
    Object(Vec<(String, String)>),
}

/// A JSON value, one level deep, as plain values.
pub enum JsonView {
    Null,
    Bool(bool),
    Number(Seq<char>),
    Str(Seq<char>),
    Array(Seq<Seq<char>>),
    Object(Seq<(Seq<char>, Seq<char>)>),
}

/// The characters of the names and texts of members.
pub open spec fn members_view(ms: Seq<(String, String)>) -> Seq<(Seq<char>, Seq<char>)> {
    ms.map_values(|m: (String, String)| (m.0@, m.1@))
}

impl View for JsonValue {
    type V = JsonView;

    open spec fn view(&self) -> JsonView {
        match self {
            JsonValue::Null => JsonView::Null,
            JsonValue::Bool(b) => JsonView::Bool(*b),
            JsonValue::Number(t) => JsonView::Number(t@),
            JsonValue::Str(s) => JsonView::Str(s@),
            JsonValue::Array(items) => JsonView::Array(items@.map_values(|t: String| t@)),
            JsonValue::Object(ms) => JsonView::Object(members_view(ms@)),
        }
    }
}

/// What `serde_json::from_str` makes of a text read as a JSON value: the value
/// (one level deep, its parts re-written as JSON text), or the text of the
/// error.
pub uninterp spec fn json_of(text: Seq<char>) -> Result<JsonView, Seq<char>>;

/// The compact JSON text that `serde_json` writes for a value whose parts are
/// given as JSON text.
pub uninterp spec fn json_text_of(v: JsonView) -> Seq<char>;

/// Trusted: `serde_json::from_str::<serde_json::Value>` parses `text`; the
/// value is converted one level deep (numbers, elements and members written
/// back with `Value`'s `Display`, members in the order of the map, which is by
/// name since `serde_json` is built without `preserve_order`), and an error is
/// converted to its text. The outcome is named `json_of` of the text.
#[verifier::external_body]
pub fn parse_json(text: &str) -> (r: Result<JsonValue, String>)
    ensures
        match (r, json_of(text@)) {
            (Ok(v), Ok(w)) => v@ == w,
            (Err(e), Err(f)) => e@ == f,
            _ => false,
        },
{
    match serde_json::from_str::<Value>(text) {
        Err(e) => Err(e.to_string()),
        Ok(Value::Null) => Ok(JsonValue::Null),
        Ok(Value::Bool(b)) => Ok(JsonValue::Bool(b)),
        Ok(Value::Number(n)) => Ok(JsonValue::Number(n.to_string())),
        Ok(Value::String(s)) => Ok(JsonValue::Str(s)),
        Ok(Value::Array(a)) => Ok(JsonValue::Array(a.iter().map(|e| e.to_string()).collect())),
        Ok(Value::Object(m)) => Ok(
            JsonValue::Object(m.iter().map(|(k, e)| (k.clone(), e.to_string())).collect()),
        ),
    }
}

/// Trusted: builds the `serde_json::Value` whose parts are read from their
/// JSON text with `serde_json::from_str` (a part that is not JSON reads as
/// `null`), and writes it with `Value`'s `Display`. The text is named
/// `json_text_of` of the value.
#[verifier::external_body]
pub fn json_text(v: &JsonValue) -> (r: String)
    ensures
        r@ == json_text_of(v@),
{
    let part = |t: &String| serde_json::from_str(t).unwrap_or(Value::Null);
    let value = match v {
        JsonValue::Null => Value::Null,
        JsonValue::Bool(b) => Value::Bool(*b),
        JsonValue::Number(t) => part(t),
        JsonValue::Str(s) => Value::String(s.clone()),
        JsonValue::Array(items) => Value::Array(items.iter().map(part).collect()),
        JsonValue::Object(ms) => Value::Object(ms.iter().map(|(k, t)| (k.clone(), part(t))).collect()),
    };
    value.to_string()
}

/// The text of the first member named `key`.
pub open spec fn member_text(ms: Seq<(Seq<char>, Seq<char>)>, key: Seq<char>) -> Option<Seq<char>>
    decreases ms.len(),
{
    if ms.len() == 0 {
        None
    } else if ms[0].0 == key {
        Some(ms[0].1)
    } else {
        member_text(ms.drop_first(), key)
    }
}

/// The member `key` of an object, parsed; nothing for another kind of value
/// or a missing member (what `Value::get` with a name gives).
pub open spec fn spec_get(v: JsonView, key: Seq<char>) -> Option<JsonView> {
    match v {
        JsonView::Object(ms) => match member_text(ms, key) {
            Some(t) => match json_of(t) {
                Ok(j) => Some(j),
                Err(_) => None,
            },
            None => None,
        },
        _ => None,
    }
}

/// `spec_get` on an optional value.
pub open spec fn spec_get_opt(v: Option<JsonView>, key: Seq<char>) -> Option<JsonView> {
    match v {
        Some(j) => spec_get(j, key),
        None => None,
    }
}

/// The string an optional value holds, if it is a string (what
/// `Value::as_str` gives).
pub open spec fn spec_as_str(v: Option<JsonView>) -> Option<Seq<char>> {
    match v {
        Some(JsonView::Str(s)) => Some(s),
        _ => None,
    }
}

/// `ms` with the member `key` given the text `t`: in place when there is one,
/// else at the end (what inserting into a map gives once written).
pub open spec fn set_member(ms: Seq<(Seq<char>, Seq<char>)>, key: Seq<char>, t: Seq<char>) -> Seq<
    (Seq<char>, Seq<char>),
>
    decreases ms.len(),
{
    if ms.len() == 0 {
        seq![(key, t)]
    } else if ms[0].0 == key {
        ms.update(0, (key, t))
    } else {
        seq![ms[0]] + set_member(ms.drop_first(), key, t)
    }
}

fn clone_text(s: &String) -> (r: String)
    ensures
        r@ == s@,
{
    s.clone()
}

/// The index of the first member named `key`.
pub fn find_member(ms: &Vec<(String, String)>, key: &str) -> (r: Option<usize>)
    ensures
        match r {
            Some(i) => i < ms@.len() && member_text(members_view(ms@), key@) == Some(ms@[i as int].1@)
                && ms@[i as int].0@ == key@,
            None => member_text(members_view(ms@), key@) is None,
        },
{
    let ghost vs = members_view(ms@);
    let mut i: usize = 0;
    proof {
        assert(vs.skip(0) == vs);
    }
    while i < ms.len()
        invariant
            vs == members_view(ms@),
            i <= ms@.len(),
            member_text(vs, key@) == member_text(vs.skip(i as int), key@),
        decreases ms@.len() - i,
    {
        proof {
            assert(vs.skip(i as int)[0] == (ms@[i as int].0@, ms@[i as int].1@));
            assert(vs.skip(i as int).drop_first() == vs.skip(i + 1));
        }
        if same_text(ms[i].0.as_str(), key) {
            return Some(i);
        }
        i = i + 1;
    }
    proof {
        assert(vs.skip(i as int) == Seq::<(Seq<char>, Seq<char>)>::empty());
    }
    None
}

/// The member `key` of `v`, parsed.
pub fn get(v: &JsonValue, key: &str) -> (r: Option<JsonValue>)
    ensures
        match spec_get(v@, key@) {
            Some(j) => r matches Some(w) && w@ == j,
            None => r is None,
        },
{
    match v {
        JsonValue::Object(ms) => match find_member(ms, key) {
            Some(i) => match parse_json(ms[i].1.as_str()) {
                Ok(j) => Some(j),
                Err(_) => None,
            },
            None => None,
        },
        _ => None,
    }
}

/// `get` on an optional value.
pub fn get_opt(v: &Option<JsonValue>, key: &str) -> (r: Option<JsonValue>)
    ensures
        match spec_get_opt(opt_json_view(*v), key@) {
            Some(j) => r matches Some(w) && w@ == j,
            None => r is None,
        },
{
    match v {
        Some(j) => get(j, key),
        None => None,
    }
}

/// The view of an optional value.
pub open spec fn opt_json_view(v: Option<JsonValue>) -> Option<JsonView> {
    match v {
        Some(j) => Some(j@),
        None => None,
    }
}

/// The string an optional value holds, if it is a string.
pub fn as_str(v: Option<JsonValue>) -> (r: Option<String>)
    ensures
        match spec_as_str(opt_json_view(v)) {
            Some(s) => r matches Some(t) && t@ == s,
            None => r is None,
        },
{
    match v {
        Some(JsonValue::Str(s)) => Some(s),
        _ => None,
    }
}

/// Gives the member `key` the text `t`: in place when there is one, else at
/// the end.
pub fn set_member_text(ms: &Vec<(String, String)>, key: &str, t: String) -> (r: Vec<(String, String)>)
    ensures
        members_view(r@) == set_member(members_view(ms@), key@, t@),
{
    let ghost vs = members_view(ms@);
    let mut out: Vec<(String, String)> = Vec::new();
    let mut i: usize = 0;
    let ghost tv = t@;
    proof {
        assert(vs.skip(0) == vs);
        assert(members_view(out@) + set_member(vs.skip(0), key@, tv) == set_member(vs, key@, tv));
    }
    while i < ms.len()
        invariant
            vs == members_view(ms@),
            i <= ms@.len(),
            t@ == tv,
            members_view(out@) == vs.take(i as int),
            set_member(vs, key@, tv) == vs.take(i as int) + set_member(vs.skip(i as int), key@, tv),
        decreases ms@.len() - i,
    {
        let ghost rest = vs.skip(i as int);
        proof {
            assert(rest[0] == (ms@[i as int].0@, ms@[i as int].1@));
            assert(rest.drop_first() == vs.skip(i + 1));
        }
        if same_text(ms[i].0.as_str(), key) {
            let ghost before = members_view(out@);
            out.push((clone_text(&ms[i].0), t));
            assert(members_view(out@) == before.push((key@, tv)));
            let mut j = i + 1;
            proof {
                assert(set_member(rest, key@, tv) == rest.update(0, (key@, tv)));
            }
            proof {
                assert(members_view(out@) == vs.take(i as int).push((key@, tv)) + vs.subrange(
                    i + 1,
                    j as int,
                ));
            }
            while j < ms.len()
                invariant
                    vs == members_view(ms@),
                    i < j <= ms@.len(),
                    rest == vs.skip(i as int),
                    set_member(vs, key@, tv) == vs.take(i as int) + rest.update(0, (key@, tv)),
                    members_view(out@) == vs.take(i as int).push((key@, tv)) + vs.subrange(
                        i + 1,
                        j as int,
                    ),
                decreases ms@.len() - j,
            {
                let ghost before = members_view(out@);
                out.push((clone_text(&ms[j].0), clone_text(&ms[j].1)));
                assert(members_view(out@) == before.push((ms@[j as int].0@, ms@[j as int].1@)));
                assert(vs[j as int] == (ms@[j as int].0@, ms@[j as int].1@));
                assert(vs.subrange(i + 1, j + 1) == vs.subrange(i + 1, j as int).push(vs[j as int]));
                j = j + 1;
            }
            proof {
                assert(vs.take(i as int).push((key@, tv)) + vs.subrange(i + 1, ms@.len() as int)
                    == vs.take(i as int) + rest.update(0, (key@, tv)));
            }
            return out;
        }
        let ghost before = members_view(out@);
        out.push((clone_text(&ms[i].0), clone_text(&ms[i].1)));
        proof {
            assert(members_view(out@) == before.push(vs[i as int]));
            assert(set_member(rest, key@, tv) == seq![rest[0]] + set_member(rest.drop_first(), key@, tv));
            assert(vs.take(i + 1) == vs.take(i as int).push(vs[i as int]));
        }
        i = i + 1;
    }
    let ghost before = members_view(out@);
    out.push((String::from_str(key), t));
    proof {
        assert(members_view(out@) == before.push((key@, tv)));
        assert(vs.skip(i as int) == Seq::<(Seq<char>, Seq<char>)>::empty());
        assert(vs.take(i as int) == vs);
    }
    out
}

} // verus!
