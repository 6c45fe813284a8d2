//! The stored credentials document: reading the OAuth settings from its text,
//! and writing a new access token into it.

use vstd::prelude::*;
use crate::flow::{
    first_composio, is_composio, data_view, has_token_member, plan_token_update, read_oauth_config, token_member, config_matches,
    spec_read_config, KeychainData, OAuthConfig, OAuthServerEntry, ServerEntryView, TokenUpdate,
};
use crate::json::{
    as_str, find_member, get, get_opt, json_of, json_text, json_text_of, member_text, members_view,
    parse_json, set_member, set_member_text, spec_as_str, spec_get, spec_get_opt, JsonValue,
    JsonView,
};
use crate::text::{decimal, decimal_string, has_prefix, trim, trim_str};

verus! {

/// The parsed value of a text, or nothing when it is not JSON.
pub open spec fn json_opt(text: Seq<char>) -> Option<JsonView> {
    match json_of(text) {
        Ok(j) => Some(j),
        Err(_) => None,
    }
}

/// What the flow reads of one member of `mcpOAuth`, given its name and text.
pub open spec fn spec_entry_of(key: Seq<char>, text: Seq<char>) -> ServerEntryView {
    let info = json_opt(text);
    ServerEntryView {
        key,
        is_object: info matches Some(JsonView::Object(_)),
        client_id: spec_as_str(spec_get_opt(info, "clientId"@)),
        auth_server_url: spec_as_str(
            spec_get_opt(spec_get_opt(info, "discoveryState"@), "authorizationServerUrl"@),
        ),
        scope: spec_as_str(spec_get_opt(info, "scope"@)),
    }
}

/// What the flow reads of a credentials document: the members of its
/// `mcpOAuth` object, when that is an object.
pub open spec fn spec_keychain(doc: JsonView) -> Option<Seq<ServerEntryView>> {
    match spec_get(doc, "mcpOAuth"@) {
        Some(JsonView::Object(ms)) => Some(
            ms.map_values(|m: (Seq<char>, Seq<char>)| spec_entry_of(m.0, m.1)),
        ),
        _ => None,
    }
}

fn entry_of(key: &String, text: &String) -> (r: OAuthServerEntry)
    ensures
        r@ == spec_entry_of(key@, text@),
{
    let info = match parse_json(text.as_str()) {
        Ok(j) => Some(j),
        Err(_) => None,
    };
    let is_object = match &info {
        Some(JsonValue::Object(_)) => true,
        _ => false,
    };
    let client_id = as_str(get_opt(&info, "clientId"));
    let state = get_opt(&info, "discoveryState");
    let auth_server_url = as_str(get_opt(&state, "authorizationServerUrl"));
    let scope = as_str(get_opt(&info, "scope"));
    OAuthServerEntry { key: key.clone(), is_object, client_id, auth_server_url, scope }
}

/// Reads what the flow needs of a parsed credentials document.
pub fn keychain_data_of(doc: &JsonValue) -> (r: KeychainData)
    ensures
        data_view(r) == spec_keychain(doc@),
{
    let mcp = get(doc, "mcpOAuth");
    let ms = match mcp {
        Some(JsonValue::Object(ms)) => ms,
        _ => return KeychainData { mcp_oauth: None },
    };
    let ghost mv = members_view(ms@);
    let ghost want = mv.map_values(|m: (Seq<char>, Seq<char>)| spec_entry_of(m.0, m.1));
    let mut es: Vec<OAuthServerEntry> = Vec::new();
    let mut i: usize = 0;
    while i < ms.len()
        invariant
            mv == members_view(ms@),
            want == mv.map_values(|m: (Seq<char>, Seq<char>)| spec_entry_of(m.0, m.1)),
            i <= ms@.len(),
            es@.len() == i,
            forall|k: int| 0 <= k < i ==> #[trigger] es@[k]@ == want[k],
        decreases ms@.len() - i,
    {
        let e = entry_of(&ms[i].0, &ms[i].1);
        es.push(e);
        i = i + 1;
    }
    let r = KeychainData { mcp_oauth: Some(es) };
    assert(es@.map_values(|e: OAuthServerEntry| e@) == want);
    r
}

/// Reads the settings of the first stored Composio server from the text of
/// the credentials document.
pub fn read_oauth_config_from(stored: &str) -> (r: Result<OAuthConfig, String>)
    ensures
        match json_of(trim(stored@)) {
            Err(e) => r matches Err(m) && m@ == "Invalid keychain JSON: "@ + e,
            Ok(j) => config_matches(r, spec_read_config(spec_keychain(j))),
        },
{
    let text = trim_str(stored);
    match parse_json(text.as_str()) {
        Err(e) => Err(String::from_str("Invalid keychain JSON: ").concat(e.as_str())),
        Ok(doc) => read_oauth_config(&keychain_data_of(&doc)),
    }
}

/// A document with the token of member `key` of `mcpOAuth` replaced: its
/// `accessToken` set to the token and, when given, its `expiresAt` to the
/// time of expiry. A document without such a member is left as it is.
pub open spec fn spec_apply_update(
    doc: JsonView,
    key: Seq<char>,
    token: Seq<char>,
    expires_at: Option<u64>,
) -> JsonView {
    match doc {
        JsonView::Object(top) => match member_text(top, "mcpOAuth"@) {
            Some(mt) => match json_of(mt) {
                Ok(JsonView::Object(mcp)) => match member_text(mcp, key) {
                    Some(it) => match json_of(it) {
                        Ok(JsonView::Object(fields)) => {
                            let f1 = set_member(
                                fields,
                                "accessToken"@,
                                json_text_of(JsonView::Str(token)),
                            );
                            let f2 = match expires_at {
                                Some(e) => set_member(f1, "expiresAt"@, decimal(e as nat)),
                                None => f1,
                            };
                            let mcp2 = set_member(mcp, key, json_text_of(JsonView::Object(f2)));
                            JsonView::Object(
                                set_member(top, "mcpOAuth"@, json_text_of(JsonView::Object(mcp2))),
                            )
                        },
                        _ => doc,
                    },
                    None => doc,
                },
                _ => doc,
            },
            None => doc,
        },
        _ => doc,
    }
}

/// Writes a token update into a parsed credentials document.
pub fn apply_token_update(doc: JsonValue, u: &TokenUpdate) -> (r: JsonValue)
    ensures
        r@ == spec_apply_update(doc@, u.key@, u.access_token@, u.expires_at),
{
    let top = match &doc {
        JsonValue::Object(top) => top,
        _ => return doc,
    };
    let i = match find_member(top, "mcpOAuth") {
        Some(i) => i,
        None => return doc,
    };
    let mcp = match parse_json(top[i].1.as_str()) {
        Ok(JsonValue::Object(mcp)) => mcp,
        _ => return doc,
    };
    let k = match find_member(&mcp, u.key.as_str()) {
        Some(k) => k,
        None => return doc,
    };
    let fields = match parse_json(mcp[k].1.as_str()) {
        Ok(JsonValue::Object(fields)) => fields,
        _ => return doc,
    };
    let token = json_text(&JsonValue::Str(u.access_token.clone()));
    let f1 = set_member_text(&fields, "accessToken", token);
    let f2 = match u.expires_at {
        Some(e) => set_member_text(&f1, "expiresAt", decimal_string(e)),
        None => f1,
    };
    let inner = json_text(&JsonValue::Object(f2));
    let mcp2 = set_member_text(&mcp, u.key.as_str(), inner);
    let outer = json_text(&JsonValue::Object(mcp2));
    let top2 = set_member_text(top, "mcpOAuth", outer);
    JsonValue::Object(top2)
}

/// The time of expiry of a token that expires `expires_in` seconds after
/// `now`.
pub open spec fn expiry(expires_in: Option<u64>, now: u64) -> Option<u64> {
    match expires_in {
        Some(x) => Some((now + x) as u64),
        None => None,
    }
}

/// Whether the time of expiry can be counted in seconds since the epoch.
pub open spec fn expiry_fits(expires_in: Option<u64>, now: u64) -> bool {
    match expires_in {
        Some(x) => now + x <= u64::MAX,
        None => true,
    }
}

/// The text of a parsed credentials document after the new token is stored
/// in the first Composio member, when that is an object (the document is
/// written back unchanged otherwise).
pub open spec fn spec_updated_text(doc: JsonView, token: Seq<char>, expires_in: Option<u64>, now: u64) -> Seq<char> {
    json_text_of(
        match token_member(spec_keychain(doc)) {
            Some(m) => spec_apply_update(doc, m.key, token, expiry(expires_in, now)),
            None => doc,
        },
    )
}

fn update_doc(doc: JsonValue, access_token: &str, expires_in: Option<u64>, now: u64) -> (r: String)
    requires
        token_member(spec_keychain(doc@)) is Some ==> expiry_fits(expires_in, now),
    ensures
        r@ == spec_updated_text(doc@, access_token@, expires_in, now),
{
    let data = keychain_data_of(&doc);
    let plan = plan_token_update(&data, access_token, expires_in, now);
    let new = match plan {
        Some(u) => apply_token_update(doc, &u),
        None => doc,
    };
    json_text(&new)
}

/// The text to store after the token exchange: the credentials document with
/// the new access token (and time of expiry, counted from `now` in seconds
/// since the Unix epoch) in its first Composio member.
pub fn update_keychain_text(stored: &str, access_token: &str, expires_in: Option<u64>, now: u64) -> (r:
    Result<String, String>)
    requires
        json_of(trim(stored@)) matches Ok(j) ==> (token_member(spec_keychain(j)) is Some
            ==> expiry_fits(expires_in, now)),
    ensures
        match json_of(trim(stored@)) {
            Err(e) => r matches Err(m) && m@ == "Invalid keychain JSON: "@ + e,
            Ok(j) => r matches Ok(t) && t@ == spec_updated_text(j, access_token@, expires_in, now),
        },
{
    let text = trim_str(stored);
    match parse_json(text.as_str()) {
        Err(e) => Err(String::from_str("Invalid keychain JSON: ").concat(e.as_str())),
        Ok(doc) => Ok(update_doc(doc, access_token, expires_in, now)),
    }
}

/// As `update_keychain_text`, but nothing when the time of expiry would not
/// fit in 64 bits for the member to be written.
pub fn try_update_keychain_text(stored: &str, access_token: &str, expires_in: Option<u64>, now: u64) -> (r:
    Option<Result<String, String>>)
    ensures
        match json_of(trim(stored@)) {
            Err(e) => r matches Some(Err(m)) && m@ == "Invalid keychain JSON: "@ + e,
            Ok(j) => if token_member(spec_keychain(j)) is Some && !expiry_fits(expires_in, now) {
                r is None
            } else {
                r matches Some(Ok(t)) && t@ == spec_updated_text(j, access_token@, expires_in, now)
            },
        },
{
    let text = trim_str(stored);
    let fits = match expires_in {
        Some(x) => now <= u64::MAX - x,
        None => true,
    };
    if !fits {
        if let Ok(doc) = parse_json(text.as_str()) {
            if has_token_member(&keychain_data_of(&doc)) {
                return None;
            }
        }
    }
    Some(update_keychain_text(stored, access_token, expires_in, now))
}

/// The token of a channel's stored configuration, or why there is none: the
/// parse error, or a missing `token` string.
pub open spec fn spec_channel_token(config: Seq<char>) -> Result<Seq<char>, Seq<char>> {
    match json_of(config) {
        Err(e) => Err(e),
        Ok(j) => match spec_as_str(spec_get(j, "token"@)) {
            Some(t) => Ok(t),
            None => Err("Missing 'token' in channel config"@),
        },
    }
}

/// Reads the token of a channel from its stored configuration.
pub fn channel_token(config: &str) -> (r: Result<String, String>)
    ensures
        match (r, spec_channel_token(config@)) {
            (Ok(t), Ok(u)) => t@ == u,
            (Err(m), Err(n)) => m@ == n,
            _ => false,
        },
{
    match parse_json(config) {
        Err(e) => Err(e),
        Ok(doc) => match as_str(get(&doc, "token")) {
            Some(t) => Ok(t),
            None => Err(String::from_str("Missing 'token' in channel config")),
        },
    }
}

/// The token of a channel to reconnect at start-up: nothing when its
/// configuration is not JSON, the empty text when it holds no `token` string.
pub fn reconnect_token(config: &str) -> (r: Option<String>)
    ensures
        match json_of(config@) {
            Err(_) => r is None,
            Ok(j) => r matches Some(t) && t@ == match spec_as_str(spec_get(j, "token"@)) {
                Some(s) => s,
                None => Seq::<char>::empty(),
            },
        },
{
    match parse_json(config) {
        Err(_) => None,
        Ok(doc) => match as_str(get(&doc, "token")) {
            Some(t) => Some(t),
            None => Some(String::new()),
        },
    }
}

/// The text of the first member named `key` is that of the member at `i`
/// when no earlier member has that name.
proof fn lemma_member_text_at(ms: Seq<(Seq<char>, Seq<char>)>, i: int, key: Seq<char>)
    requires
        0 <= i < ms.len(),
        ms[i].0 == key,
        forall|j: int| 0 <= j < i ==> #[trigger] ms[j].0 != key,
    ensures
        member_text(ms, key) == Some(ms[i].1),
    decreases i,
{
    if i > 0 {
        let rest = ms.drop_first();
        assert forall|j: int| 0 <= j < i - 1 implies #[trigger] rest[j].0 != key by {
            assert(rest[j] == ms[j + 1]);
        }
        assert(ms[0].0 != key);
        lemma_member_text_at(rest, i - 1, key);
    }
}

/// Setting a member gives it the new text and leaves every other name as it
/// was.
proof fn lemma_set_member(ms: Seq<(Seq<char>, Seq<char>)>, key: Seq<char>, t: Seq<char>)
    ensures
        member_text(set_member(ms, key, t), key) == Some(t),
        forall|k: Seq<char>| k != key ==> #[trigger] member_text(set_member(ms, key, t), k)
            == member_text(ms, k),
    decreases ms.len(),
{
    let r = set_member(ms, key, t);
    if ms.len() == 0 {
        assert(r.drop_first() == Seq::<(Seq<char>, Seq<char>)>::empty());
        assert forall|k: Seq<char>| k != key implies #[trigger] member_text(r, k) == member_text(ms, k) by {
            assert(member_text(r.drop_first(), k) is None);
        }
    } else if ms[0].0 == key {
        assert(r.drop_first() == ms.drop_first());
        assert forall|k: Seq<char>| k != key implies #[trigger] member_text(r, k) == member_text(ms, k) by {
            assert(member_text(r, k) == member_text(r.drop_first(), k));
        }
    } else {
        lemma_set_member(ms.drop_first(), key, t);
        assert(r.drop_first() == set_member(ms.drop_first(), key, t));
        assert(r[0] == ms[0]);
        assert forall|k: Seq<char>| k != key implies #[trigger] member_text(r, k) == member_text(ms, k) by {
            if ms[0].0 != k {
                assert(member_text(r, k) == member_text(r.drop_first(), k));
            }
        }
    }
}

/// The first Composio member is the first that names a Composio server.
proof fn lemma_first_composio(es: Seq<ServerEntryView>, i: int)
    requires
        0 <= i < es.len(),
        is_composio(es[i].key),
        forall|j: int| 0 <= j < i ==> !is_composio(#[trigger] es[j].key),
    ensures
        first_composio(es) == Some(es[i]),
    decreases i,
{
    if i > 0 {
        let rest = es.drop_first();
        assert forall|j: int| 0 <= j < i - 1 implies !is_composio(#[trigger] rest[j].key) by {
            assert(rest[j] == es[j + 1]);
        }
        assert(!is_composio(es[0].key));
        lemma_first_composio(rest, i - 1);
    }
}

/// What the flow reads of a document whose `mcpOAuth` object has its first
/// Composio member at `i`: that member, read from its text.
proof fn lemma_reads_member(
    doc: JsonView,
    top: Seq<(Seq<char>, Seq<char>)>,
    mt: Seq<char>,
    ms: Seq<(Seq<char>, Seq<char>)>,
    i: int,
)
    requires
        doc == JsonView::Object(top),
        member_text(top, "mcpOAuth"@) == Some(mt),
        json_of(mt) == Ok::<JsonView, Seq<char>>(JsonView::Object(ms)),
        0 <= i < ms.len(),
        has_prefix(ms[i].0, "composio"@),
        forall|j: int| 0 <= j < i ==> !has_prefix(#[trigger] ms[j].0, "composio"@),
    ensures
        spec_keychain(doc) matches Some(es) && first_composio(es) == Some(spec_entry_of(ms[i].0, ms[i].1)),
        member_text(ms, ms[i].0) == Some(ms[i].1),
{
    let es = ms.map_values(|m: (Seq<char>, Seq<char>)| spec_entry_of(m.0, m.1));
    assert(spec_keychain(doc) == Some(es));
    assert forall|j: int| 0 <= j < i implies !is_composio(#[trigger] es[j].key) by {
        assert(es[j].key == ms[j].0);
        assert(!has_prefix(ms[j].0, "composio"@));
    }
    assert(es[i] == spec_entry_of(ms[i].0, ms[i].1));
    lemma_first_composio(es, i);
    assert forall|j: int| 0 <= j < i implies #[trigger] ms[j].0 != ms[i].0 by {
        assert(!has_prefix(ms[j].0, "composio"@));
    }
    lemma_member_text_at(ms, i, ms[i].0);
}

/// Law: the OAuth settings are read from the first Composio member of
/// `mcpOAuth`: its own `clientId` string, and its own top-level `scope`
/// string when it has one; the default scope is asked for only when the
/// member holds no `scope` string.
pub proof fn law_config_reads_member(
    doc: JsonView,
    top: Seq<(Seq<char>, Seq<char>)>,
    mt: Seq<char>,
    ms: Seq<(Seq<char>, Seq<char>)>,
    i: int,
    fields: Seq<(Seq<char>, Seq<char>)>,
)
    requires
        doc == JsonView::Object(top),
        member_text(top, "mcpOAuth"@) == Some(mt),
        json_of(mt) == Ok::<JsonView, Seq<char>>(JsonView::Object(ms)),
        0 <= i < ms.len(),
        has_prefix(ms[i].0, "composio"@),
        forall|j: int| 0 <= j < i ==> !has_prefix(#[trigger] ms[j].0, "composio"@),
        json_of(ms[i].1) == Ok::<JsonView, Seq<char>>(JsonView::Object(fields)),
    ensures
        ({
            let client_id = match member_text(fields, "clientId"@) {
                Some(t) => match json_of(t) {
                    Ok(JsonView::Str(c)) => Some(c),
                    _ => None,
                },
                None => None,
            };
            let scope = match member_text(fields, "scope"@) {
                Some(t) => match json_of(t) {
                    Ok(JsonView::Str(s)) => s,
                    _ => "openid profile email offline_access"@,
                },
                None => "openid profile email offline_access"@,
            };
            &&& client_id is None ==> spec_read_config(spec_keychain(doc)) == Err::<
                (Seq<char>, Seq<char>, Seq<char>),
                Seq<char>,
            >("Missing clientId"@)
            &&& spec_read_config(spec_keychain(doc)) matches Ok(c) ==> client_id == Some(c.0)
                && c.2 == scope
        }),
{
    lemma_reads_member(doc, top, mt, ms, i);
}

/// Law: after a token exchange, the document written holds, in the first
/// Composio member of `mcpOAuth`, the new token as `accessToken` and, when
/// the reply gave a lifetime of `x` seconds, `now + x` as `expiresAt`,
/// whatever the member held before; every other member, and every other
/// field of that member, is kept. The function returns the members of the
/// document, of `mcpOAuth` and of that member, as written.
pub proof fn law_token_update_writes_member(
    doc: JsonView,
    top: Seq<(Seq<char>, Seq<char>)>,
    mt: Seq<char>,
    ms: Seq<(Seq<char>, Seq<char>)>,
    i: int,
    fields: Seq<(Seq<char>, Seq<char>)>,
    token: Seq<char>,
    expires_in: Option<u64>,
    now: u64,
) -> (w: (Seq<(Seq<char>, Seq<char>)>, Seq<(Seq<char>, Seq<char>)>, Seq<(Seq<char>, Seq<char>)>))
    requires
        doc == JsonView::Object(top),
        member_text(top, "mcpOAuth"@) == Some(mt),
        json_of(mt) == Ok::<JsonView, Seq<char>>(JsonView::Object(ms)),
        0 <= i < ms.len(),
        has_prefix(ms[i].0, "composio"@),
        forall|j: int| 0 <= j < i ==> !has_prefix(#[trigger] ms[j].0, "composio"@),
        json_of(ms[i].1) == Ok::<JsonView, Seq<char>>(JsonView::Object(fields)),
        expiry_fits(expires_in, now),
    ensures
        spec_updated_text(doc, token, expires_in, now) == json_text_of(JsonView::Object(w.0)),
        member_text(w.0, "mcpOAuth"@) == Some(json_text_of(JsonView::Object(w.1))),
        forall|k: Seq<char>| k != "mcpOAuth"@ ==> #[trigger] member_text(w.0, k) == member_text(top, k),
        member_text(w.1, ms[i].0) == Some(json_text_of(JsonView::Object(w.2))),
        forall|k: Seq<char>| k != ms[i].0 ==> #[trigger] member_text(w.1, k) == member_text(ms, k),
        member_text(w.2, "accessToken"@) == Some(json_text_of(JsonView::Str(token))),
        expires_in matches Some(x) ==> member_text(w.2, "expiresAt"@) == Some(decimal((now + x) as nat)),
        expires_in is None ==> member_text(w.2, "expiresAt"@) == member_text(fields, "expiresAt"@),
        forall|k: Seq<char>|
            k != "accessToken"@ && k != "expiresAt"@ ==> #[trigger] member_text(w.2, k) == member_text(
                fields,
                k,
            ),
{
    reveal_strlit("accessToken");
    reveal_strlit("expiresAt");
    lemma_reads_member(doc, top, mt, ms, i);
    let key = ms[i].0;
    let e = expiry(expires_in, now);
    let f1 = set_member(fields, "accessToken"@, json_text_of(JsonView::Str(token)));
    let f2 = match e {
        Some(v) => set_member(f1, "expiresAt"@, decimal(v as nat)),
        None => f1,
    };
    let mcp2 = set_member(ms, key, json_text_of(JsonView::Object(f2)));
    let top2 = set_member(top, "mcpOAuth"@, json_text_of(JsonView::Object(mcp2)));
    assert(spec_apply_update(doc, key, token, e) == JsonView::Object(top2));
    lemma_set_member(fields, "accessToken"@, json_text_of(JsonView::Str(token)));
    assert("accessToken"@ != "expiresAt"@) by {
        assert("accessToken"@.len() != "expiresAt"@.len());
    }
    match e {
        Some(v) => {
            lemma_set_member(f1, "expiresAt"@, decimal(v as nat));
            assert(member_text(f2, "accessToken"@) == member_text(f1, "accessToken"@));
            let x = expires_in.unwrap();
            assert(v as nat == (now + x) as nat);
        },
        None => {},
    }
    lemma_set_member(ms, key, json_text_of(JsonView::Object(f2)));
    lemma_set_member(top, "mcpOAuth"@, json_text_of(JsonView::Object(mcp2)));
    (top2, mcp2, f2)
}

} // verus!
