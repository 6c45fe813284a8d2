//! The decisions of the OAuth flow: which stored OAuth server to use, what to
//! store after the token exchange, and how the replies of the authorization
//! server are judged.
//!
//! The credentials store holds a JSON document; the flow reads only its
//! `mcpOAuth` object, whose members are held here, in the order in which the
//! parsed document walks them (by key), as plain values.

use vstd::prelude::*;
use crate::text::{chars_of, has_prefix, starts_with};

verus! {

/// One member of the stored `mcpOAuth` object.
pub struct OAuthServerEntry {
    /// The member's name.
    pub key: String,
    /// Whether the member's value is a JSON object.
    pub is_object: bool,
    /// Its `clientId`, when that is a string.
    pub client_id: Option<String>,
    /// Its `discoveryState.authorizationServerUrl`, when that is a string.
    pub auth_server_url: Option<String>,
    /// Its `scope`, when that is a string.
    pub scope: Option<String>,
}

/// What the flow reads of the stored credentials: the members of the
/// `mcpOAuth` object, or none when there is no such object.
pub struct KeychainData {
    pub mcp_oauth: Option<Vec<OAuthServerEntry>>,
}

/// The settings of the OAuth server to authorize with.
pub struct OAuthConfig {
    pub client_id: String,
    pub auth_server_url: String,
    pub scope: String,
}

/// Whether a member names a Composio server.
pub open spec fn is_composio(key: Seq<char>) -> bool {
    has_prefix(key, "composio"@)
}

/// The scope asked for when none is stored.
pub open spec fn default_scope() -> Seq<char> {
    "openid profile email offline_access"@
}

/// One member of the stored `mcpOAuth` object, as plain values.
pub struct ServerEntryView {
    pub key: Seq<char>,
    pub is_object: bool,
    pub client_id: Option<Seq<char>>,
    pub auth_server_url: Option<Seq<char>>,
    pub scope: Option<Seq<char>>,
}

/// The characters of an optional string.
pub open spec fn opt_view(s: Option<String>) -> Option<Seq<char>> {
    match s {
        Some(t) => Some(t@),
        None => None,
    }
}

impl View for OAuthServerEntry {
    type V = ServerEntryView;

    open spec fn view(&self) -> ServerEntryView {
        ServerEntryView {
            key: self.key@,
            is_object: self.is_object,
            client_id: opt_view(self.client_id),
            auth_server_url: opt_view(self.auth_server_url),
            scope: opt_view(self.scope),
        }
    }
}

/// The members of `mcpOAuth` as plain values, or none without that object.
pub open spec fn data_view(data: KeychainData) -> Option<Seq<ServerEntryView>> {
    match data.mcp_oauth {
        Some(es) => Some(es@.map_values(|e: OAuthServerEntry| e@)),
        None => None,
    }
}

/// The settings read from one member, or the error for the first missing one.
pub open spec fn spec_config_of(e: ServerEntryView) -> Result<(Seq<char>, Seq<char>, Seq<char>), Seq<char>> {
    match (e.client_id, e.auth_server_url) {
        (None, _) => Err("Missing clientId"@),
        (Some(_), None) => Err("Missing authorizationServerUrl"@),
        (Some(c), Some(u)) => Ok(
            (
                c,
                u,
                match e.scope {
                    Some(s) => s,
                    None => default_scope(),
                },
            ),
        ),
    }
}

/// The first member that names a Composio server.
pub open spec fn first_composio(es: Seq<ServerEntryView>) -> Option<ServerEntryView>
    decreases es.len(),
{
    if es.len() == 0 {
        None
    } else if is_composio(es[0].key) {
        Some(es[0])
    } else {
        first_composio(es.drop_first())
    }
}

/// The settings the flow uses, or why it cannot start.
pub open spec fn spec_read_config(data: Option<Seq<ServerEntryView>>) -> Result<(Seq<char>, Seq<char>, Seq<char>), Seq<char>> {
    match data {
        None => Err("No mcpOAuth in keychain"@),
        Some(es) => match first_composio(es) {
            None => Err("No composio entry in keychain"@),
            Some(e) => spec_config_of(e),
        },
    }
}

/// Whether `r` is the outcome described by `spec`.
pub open spec fn config_matches(
    r: Result<OAuthConfig, String>,
    spec: Result<(Seq<char>, Seq<char>, Seq<char>), Seq<char>>,
) -> bool {
    match (r, spec) {
        (Ok(c), Ok((id, url, scope))) => c.client_id@ == id && c.auth_server_url@ == url
            && c.scope@ == scope,
        (Err(m), Err(n)) => m@ == n,
        _ => false,
    }
}

fn is_composio_key(key: &String) -> (b: bool)
    ensures
        b == is_composio(key@),
{
    let k = chars_of(key.as_str());
    let p = chars_of("composio");
    starts_with(k.as_slice(), p.as_slice())
}

fn clone_text(s: &String) -> (r: String)
    ensures
        r@ == s@,
{
    s.clone()
}

/// The index of the first member that names a Composio server.
fn find_composio(es: &Vec<OAuthServerEntry>) -> (r: Option<usize>)
    ensures
        match r {
            Some(i) => i < es@.len() && first_composio(es@.map_values(|e: OAuthServerEntry| e@))
                == Some(es@[i as int]@),
            None => first_composio(es@.map_values(|e: OAuthServerEntry| e@)) is None,
        },
{
    let ghost vs = es@.map_values(|e: OAuthServerEntry| e@);
    let mut i: usize = 0;
    proof {
        assert(vs.skip(0) == vs);
    }
    while i < es.len()
        invariant
            vs == es@.map_values(|e: OAuthServerEntry| e@),
            i <= es@.len(),
            first_composio(vs) == first_composio(vs.skip(i as int)),
        decreases es@.len() - i,
    {
        proof {
            assert(vs.skip(i as int)[0] == es@[i as int]@);
            assert(vs.skip(i as int).drop_first() == vs.skip(i + 1));
        }
        if is_composio_key(&es[i].key) {
            return Some(i);
        }
        i = i + 1;
    }
    proof {
        assert(vs.skip(i as int) == Seq::<ServerEntryView>::empty());
    }
    None
}

/// Reads the settings of the first stored Composio server.
pub fn read_oauth_config(data: &KeychainData) -> (r: Result<OAuthConfig, String>)
    ensures
        config_matches(r, spec_read_config(data_view(*data))),
{
    let es = match &data.mcp_oauth {
        Some(es) => es,
        None => return Err(String::from_str("No mcpOAuth in keychain")),
    };
    let i = match find_composio(es) {
        Some(i) => i,
        None => return Err(String::from_str("No composio entry in keychain")),
    };
    let e = &es[i];
    let client_id = match &e.client_id {
        Some(c) => clone_text(c),
        None => return Err(String::from_str("Missing clientId")),
    };
    let auth_server_url = match &e.auth_server_url {
        Some(u) => clone_text(u),
        None => return Err(String::from_str("Missing authorizationServerUrl")),
    };
    let scope = match &e.scope {
        Some(s) => clone_text(s),
        None => String::from_str("openid profile email offline_access"),
    };
    Ok(OAuthConfig { client_id, auth_server_url, scope })
}

/// What to store after the token exchange, in the member named `key`.
pub struct TokenUpdate {
    pub key: String,
    /// The new `accessToken`.
    pub access_token: String,
    /// The new `expiresAt`, in seconds since the Unix epoch, when the token
    /// expires.
    pub expires_at: Option<u64>,
}

/// The member whose token is replaced: the first that names a Composio
/// server, provided that it is a JSON object.
pub open spec fn token_member(data: Option<Seq<ServerEntryView>>) -> Option<ServerEntryView> {
    match data {
        None => None,
        Some(es) => match first_composio(es) {
            Some(e) => if e.is_object {
                Some(e)
            } else {
                None
            },
            None => None,
        },
    }
}

/// Whether there is a member to store a new token in.
pub fn has_token_member(data: &KeychainData) -> (b: bool)
    ensures
        b == token_member(data_view(*data)) is Some,
{
    match &data.mcp_oauth {
        Some(es) => match find_composio(es) {
            Some(i) => es[i].is_object,
            None => false,
        },
        None => false,
    }
}

/// Decides what to store after the token exchange: the access token, and,
/// when the token expires, the time of expiry counted from `now` (seconds
/// since the Unix epoch). Nothing is stored when there is no member to store
/// it in.
pub fn plan_token_update(
    data: &KeychainData,
    access_token: &str,
    expires_in: Option<u64>,
    now: u64,
) -> (r: Option<TokenUpdate>)
    requires
        token_member(data_view(*data)) is Some ==> match expires_in {
            Some(e) => now + e <= u64::MAX,
            None => true,
        },
    ensures
        match token_member(data_view(*data)) {
            None => r is None,
            Some(e) => r matches Some(u) && u.key@ == e.key && u.access_token@ == access_token@
                && u.expires_at == match expires_in {
                Some(x) => Some((now + x) as u64),
                None => None,
            },
        },
{
    let es = match &data.mcp_oauth {
        Some(es) => es,
        None => return None,
    };
    let i = match find_composio(es) {
        Some(i) => i,
        None => return None,
    };
    let e = &es[i];
    if !e.is_object {
        return None;
    }
    let expires_at = match expires_in {
        Some(x) => Some(now + x),
        None => None,
    };
    Some(
        TokenUpdate {
            key: clone_text(&e.key),
            access_token: String::from_str(access_token),
            expires_at,
        },
    )
}

/// The endpoints read from the authorization server's metadata.
pub struct OAuthMetadata {
    pub authorization_endpoint: String,
    pub token_endpoint: String,
}

/// What became of a request for metadata.
pub enum MetadataFetch {
    /// No response came; the text describes the failure.
    Failed(String),
    /// A response came, with or without a success status; its body was read
    /// as metadata, or the text says why it could not be.
    Received { success: bool, metadata: Result<OAuthMetadata, String> },
}

/// Where the standard OAuth authorization server metadata is published.
pub open spec fn spec_standard_metadata_url(base: Seq<char>) -> Seq<char> {
    base + "/.well-known/oauth-authorization-server"@
}

/// Where the OpenID Connect discovery document is published.
pub open spec fn spec_oidc_metadata_url(base: Seq<char>) -> Seq<char> {
    base + "/.well-known/openid-configuration"@
}

/// The URL of the standard metadata of the server at `base`.
pub fn standard_metadata_url(base: &str) -> (r: String)
    ensures
        r@ == spec_standard_metadata_url(base@),
{
    String::from_str(base).concat("/.well-known/oauth-authorization-server")
}

/// The URL of the OpenID Connect discovery document of the server at `base`.
pub fn oidc_metadata_url(base: &str) -> (r: String)
    ensures
        r@ == spec_oidc_metadata_url(base@),
{
    String::from_str(base).concat("/.well-known/openid-configuration")
}

/// Judges the reply to the standard metadata request: the metadata is used
/// only when the response succeeded and its body was valid; otherwise
/// discovery falls back to OpenID Connect.
pub fn accept_standard_metadata(fetch: MetadataFetch) -> (r: Option<OAuthMetadata>)
    ensures
        match fetch {
            MetadataFetch::Received { success: true, metadata: Ok(m) } => r == Some(m),
            _ => r is None,
        },
{
    match fetch {
        MetadataFetch::Received { success, metadata } => if success {
            match metadata {
                Ok(m) => Some(m),
                Err(_) => None,
            }
        } else {
            None
        },
        MetadataFetch::Failed(_) => None,
    }
}

/// Judges the reply to the OpenID Connect discovery request: its body is used
/// whatever the status.
pub fn accept_oidc_metadata(fetch: MetadataFetch) -> (r: Result<OAuthMetadata, String>)
    ensures
        match fetch {
            MetadataFetch::Failed(e) => r matches Err(m) && m@ == "Failed to fetch OAuth metadata: "@
                + e@,
            MetadataFetch::Received { metadata: Ok(meta), .. } => r == Ok::<OAuthMetadata, String>(
                meta,
            ),
            MetadataFetch::Received { metadata: Err(e), .. } => r matches Err(m) && m@
                == "Invalid OAuth metadata: "@ + e@,
        },
{
    match fetch {
        MetadataFetch::Failed(e) => Err(String::from_str("Failed to fetch OAuth metadata: ").concat(
            e.as_str(),
        )),
        MetadataFetch::Received { success: _, metadata } => match metadata {
            Ok(m) => Ok(m),
            Err(e) => Err(String::from_str("Invalid OAuth metadata: ").concat(e.as_str())),
        },
    }
}

/// The token endpoint's answer.
pub struct TokenResponse {
    pub access_token: String,
    pub expires_in: Option<u64>,
}

/// What became of the token request.
pub enum TokenReply {
    /// The request could not be sent; the text describes the failure.
    SendFailed(String),
    /// The response body could not be read; the text describes the failure.
    BodyFailed(String),
    /// A response came: whether its status is a success, the status as
    /// shown (code and reason), its body, and the body read as a token
    /// response, or why it could not be.
    Received { success: bool, status: String, body: String, token: Result<TokenResponse, String> },
}

/// Judges the reply of the token endpoint.
pub fn accept_token_reply(reply: TokenReply) -> (r: Result<TokenResponse, String>)
    ensures
        match reply {
            TokenReply::SendFailed(e) => r matches Err(m) && m@ == "Token exchange failed: "@ + e@,
            TokenReply::BodyFailed(e) => r matches Err(m) && m@ == e@,
            TokenReply::Received { success: false, status, body, .. } => r matches Err(m) && m@
                == "Token exchange returned "@ + status@ + ": "@ + body@,
            TokenReply::Received { success: true, token: Ok(t), .. } => r == Ok::<
                TokenResponse,
                String,
            >(t),
            TokenReply::Received { success: true, token: Err(e), .. } => r matches Err(m) && m@
                == "Invalid token response: "@ + e@,
        },
{
    match reply {
        TokenReply::SendFailed(e) => Err(String::from_str("Token exchange failed: ").concat(e.as_str())),
        TokenReply::BodyFailed(e) => Err(e),
        TokenReply::Received { success, status, body, token } => {
            if !success {
                let mut m = String::from_str("Token exchange returned ");
                m.append(status.as_str());
                m.append(": ");
                m.append(body.as_str());
                return Err(m);
            }
            match token {
                Ok(t) => Ok(t),
                Err(e) => Err(String::from_str("Invalid token response: ").concat(e.as_str())),
            }
        },
    }
}

} // verus!
