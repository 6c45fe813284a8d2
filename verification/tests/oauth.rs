use keel_memory::commands::{parse_target, snapshot_response};
use keel_memory::flow::{
    accept_oidc_metadata, accept_standard_metadata, accept_token_reply, oidc_metadata_url,
    plan_token_update, read_oauth_config, standard_metadata_url, KeychainData, MetadataFetch,
    OAuthMetadata, OAuthServerEntry, TokenReply, TokenResponse,
};
use keel_memory::oauth::{
    build_auth_url, extract_param, handle_callback, page_response, pct_decode, pct_encode,
    redirect_uri,
};
use keel_memory::pkce::{compute_challenge, generate_verifier};
use keel_memory::{load_snapshot, MemoryConfig, MemoryTarget};

#[test]
fn pct_encode_keeps_unreserved_and_escapes_utf8_bytes() {
    assert_eq!(pct_encode("AZaz09-_.~"), "AZaz09-_.~");
    assert_eq!(pct_encode("a b/é"), "a%20b%2F%C3%A9");
    assert_eq!(pct_encode(""), "");
}

#[test]
fn pct_decode_cases() {
    assert_eq!(pct_decode("a%20b%2F"), "a b/");
    assert_eq!(pct_decode("%41%6a"), "Aj");
    assert_eq!(pct_decode("100%"), "100");
    assert_eq!(pct_decode("%4"), "\u{4}");
    assert_eq!(pct_decode("%+4x"), "\u{4}x");
    assert_eq!(pct_decode("%zz1"), "1");
    assert_eq!(pct_decode("%+"), "");
    assert_eq!(pct_decode("%C3%A9"), "\u{c3}\u{a9}");
    assert_eq!(pct_decode("plain"), "plain");
}

#[test]
fn pct_decode_undoes_encode_on_ascii() {
    let s = "hello world/?&=+%~!";
    assert_eq!(pct_decode(&pct_encode(s)), s);
}

#[test]
fn extract_param_cases() {
    assert_eq!(extract_param("/callback?code=abc&state=composio", "code"), Some("abc".to_string()));
    assert_eq!(extract_param("/callback?state=x", "code"), None);
    assert_eq!(extract_param("/callback", "code"), None);
    assert_eq!(extract_param("/cb?a=1?code=2", "code"), None);
    assert_eq!(extract_param("/cb?codex=1&code=2", "code"), Some("2".to_string()));
    assert_eq!(extract_param("/cb?q=a+b%21&q=z", "q"), Some("a b!".to_string()));
    assert_eq!(extract_param("/cb?code=", "code"), Some(String::new()));
}

#[test]
fn callback_with_code() {
    let reply = handle_callback(
        "GET /callback?code=xyz&state=composio HTTP/1.1\r\nHost: 127.0.0.1\r\n\r\n",
    );
    assert_eq!(reply.outcome, Ok("xyz".to_string()));
    let page = reply.page.unwrap();
    assert_eq!(page.title, "Connected!");
    assert_eq!(page.message, "You can close this window and return to the app.");
}

#[test]
fn callback_with_error() {
    let reply = handle_callback(
        "GET /callback?error=access_denied&error_description=User+said+no HTTP/1.1\r\n\r\n",
    );
    assert_eq!(reply.outcome, Err("OAuth error: User said no".to_string()));
    let page = reply.page.unwrap();
    assert_eq!(page.title, "Authorization failed");
    assert_eq!(page.message, "User said no");

    let reply = handle_callback("GET /callback?error=access_denied HTTP/1.1");
    assert_eq!(reply.outcome, Err("OAuth error: access_denied".to_string()));
    assert_eq!(reply.page.unwrap().message, "access_denied");
}

#[test]
fn callback_without_code() {
    let reply = handle_callback("GET /callback HTTP/1.1\r\n\r\n");
    assert!(reply.page.is_none());
    assert_eq!(reply.outcome, Err("No authorization code in callback".to_string()));
    let reply = handle_callback("");
    assert!(reply.page.is_none());
    assert!(reply.outcome.is_err());
    // Only the first line counts.
    let reply = handle_callback("GET /x HTTP/1.1\nGET /callback?code=1 HTTP/1.1");
    assert!(reply.outcome.is_err());
    // Whitespace of any kind separates the words of the request line.
    let reply = handle_callback("GET\t  /cb?code=2\u{3000}HTTP/1.1");
    assert_eq!(reply.outcome, Ok("2".to_string()));
}

#[test]
fn page_response_carries_byte_length() {
    let r = page_response("Connected!", "é");
    let html = "<html><head><style>body{font-family:system-ui;display:flex;justify-content:center;align-items:center;height:100vh;margin:0;background:#fafafa;color:#0d0d0d}.c{text-align:center}h2{font-size:24px;font-weight:600;margin:0 0 8px}p{color:#5d5d5d;font-size:14px;margin:0}</style></head><body><div class='c'><h2>Connected!</h2><p>é</p></div></body></html>";
    let want = format!(
        "HTTP/1.1 200 OK\r\nContent-Type: text/html\r\nContent-Length: {}\r\nConnection: close\r\n\r\n{}",
        html.len(),
        html
    );
    assert_eq!(r, want);
}

#[test]
fn auth_url_and_redirect() {
    let uri = redirect_uri(5000);
    assert_eq!(uri, "http://127.0.0.1:5000/callback");
    let url = build_auth_url("https://auth.example/authorize", "my id", &uri, "openid profile", "CH");
    assert_eq!(
        url,
        "https://auth.example/authorize?response_type=code&client_id=my%20id&redirect_uri=http%3A%2F%2F127.0.0.1%3A5000%2Fcallback&scope=openid%20profile&code_challenge=CH&code_challenge_method=S256&state=composio"
    );
}

#[test]
fn challenge_matches_rfc_7636_example() {
    assert_eq!(
        compute_challenge("dBjftJeZ4CVP-mB92K27uhbUJU1p1r_wW1gFWFOEjXk"),
        "E9Melhoa2OwvFrEMTJguCHaoeK1t8URWbuGJSstw-cM"
    );
}

#[test]
fn verifier_is_64_url_safe_characters() {
    let v = generate_verifier();
    assert_eq!(v.len(), 64);
    assert!(v.chars().all(|c| c.is_ascii_alphanumeric() || c == '-' || c == '_'));
    assert_ne!(v, generate_verifier());
}

fn entry(key: &str, object: bool, id: Option<&str>, url: Option<&str>, scope: Option<&str>) -> OAuthServerEntry {
    OAuthServerEntry {
        key: key.to_string(),
        is_object: object,
        client_id: id.map(|s| s.to_string()),
        auth_server_url: url.map(|s| s.to_string()),
        scope: scope.map(|s| s.to_string()),
    }
}

#[test]
fn read_config_cases() {
    let none = KeychainData { mcp_oauth: None };
    assert_eq!(read_oauth_config(&none).err(), Some("No mcpOAuth in keychain".to_string()));

    let other = KeychainData { mcp_oauth: Some(vec![entry("github", true, Some("g"), Some("u"), None)]) };
    assert_eq!(read_oauth_config(&other).err(), Some("No composio entry in keychain".to_string()));

    let data = KeychainData {
        mcp_oauth: Some(vec![
            entry("github", true, Some("g"), Some("u"), None),
            entry("composio-x", true, Some("cid"), Some("https://as"), None),
            entry("composio-y", true, Some("other"), Some("https://b"), Some("s")),
        ]),
    };
    let config = read_oauth_config(&data).ok().unwrap();
    assert_eq!(config.client_id, "cid");
    assert_eq!(config.auth_server_url, "https://as");
    assert_eq!(config.scope, "openid profile email offline_access");

    let data = KeychainData { mcp_oauth: Some(vec![entry("composio", true, None, Some("u"), None)]) };
    assert_eq!(read_oauth_config(&data).err(), Some("Missing clientId".to_string()));
    let data = KeychainData { mcp_oauth: Some(vec![entry("composio", true, Some("c"), None, None)]) };
    assert_eq!(read_oauth_config(&data).err(), Some("Missing authorizationServerUrl".to_string()));
    let data = KeychainData { mcp_oauth: Some(vec![entry("composioX", true, Some("c"), Some("u"), Some("read"))]) };
    assert_eq!(read_oauth_config(&data).ok().unwrap().scope, "read");
}

#[test]
fn token_update_plan() {
    let data = KeychainData {
        mcp_oauth: Some(vec![
            entry("a", true, None, None, None),
            entry("composio-1", true, None, None, None),
        ]),
    };
    let plan = plan_token_update(&data, "tok", Some(3600), 1_000).unwrap();
    assert_eq!(plan.key, "composio-1");
    assert_eq!(plan.access_token, "tok");
    assert_eq!(plan.expires_at, Some(4_600));
    let plan = plan_token_update(&data, "tok", None, 1_000).unwrap();
    assert_eq!(plan.expires_at, None);

    let not_object = KeychainData { mcp_oauth: Some(vec![entry("composio", false, None, None, None)]) };
    assert!(plan_token_update(&not_object, "tok", Some(1), 1).is_none());
    assert!(plan_token_update(&KeychainData { mcp_oauth: None }, "tok", None, 1).is_none());
}

fn meta(a: &str) -> OAuthMetadata {
    OAuthMetadata { authorization_endpoint: a.to_string(), token_endpoint: format!("{a}/token") }
}

#[test]
fn metadata_discovery_decisions() {
    assert_eq!(
        standard_metadata_url("https://as"),
        "https://as/.well-known/oauth-authorization-server"
    );
    assert_eq!(oidc_metadata_url("https://as"), "https://as/.well-known/openid-configuration");

    let got = accept_standard_metadata(MetadataFetch::Received { success: true, metadata: Ok(meta("x")) });
    assert_eq!(got.unwrap().authorization_endpoint, "x");
    assert!(accept_standard_metadata(MetadataFetch::Received { success: false, metadata: Ok(meta("x")) }).is_none());
    assert!(accept_standard_metadata(MetadataFetch::Received { success: true, metadata: Err("bad".into()) }).is_none());
    assert!(accept_standard_metadata(MetadataFetch::Failed("down".into())).is_none());

    let got = accept_oidc_metadata(MetadataFetch::Received { success: false, metadata: Ok(meta("y")) });
    assert_eq!(got.ok().unwrap().token_endpoint, "y/token");
    let err = accept_oidc_metadata(MetadataFetch::Failed("down".into())).err().unwrap();
    assert_eq!(err, "Failed to fetch OAuth metadata: down");
    let err = accept_oidc_metadata(MetadataFetch::Received { success: true, metadata: Err("eof".into()) }).err().unwrap();
    assert_eq!(err, "Invalid OAuth metadata: eof");
}

#[test]
fn token_reply_decisions() {
    let ok = accept_token_reply(TokenReply::Received {
        success: true,
        status: "200 OK".into(),
        body: "{}".into(),
        token: Ok(TokenResponse { access_token: "t".into(), expires_in: Some(5) }),
    });
    let t = ok.ok().unwrap();
    assert_eq!(t.access_token, "t");
    assert_eq!(t.expires_in, Some(5));
    let err = accept_token_reply(TokenReply::Received {
        success: false,
        status: "400 Bad Request".into(),
        body: "nope".into(),
        token: Err("x".into()),
    });
    assert_eq!(err.err().unwrap(), "Token exchange returned 400 Bad Request: nope");
    let err = accept_token_reply(TokenReply::Received {
        success: true,
        status: "200 OK".into(),
        body: "{".into(),
        token: Err("eof".into()),
    });
    assert_eq!(err.err().unwrap(), "Invalid token response: eof");
    assert_eq!(accept_token_reply(TokenReply::SendFailed("dns".into())).err().unwrap(), "Token exchange failed: dns");
    assert_eq!(accept_token_reply(TokenReply::BodyFailed("reset".into())).err().unwrap(), "reset");
}

#[test]
fn parse_target_cases() {
    assert_eq!(parse_target("agent"), Ok(MemoryTarget::Agent));
    assert_eq!(parse_target("user"), Ok(MemoryTarget::User));
    assert_eq!(
        parse_target("Agent"),
        Err("Invalid memory target 'Agent'. Use 'agent' or 'user'.".to_string())
    );
}

#[test]
fn snapshot_response_copies_everything() {
    let snap = load_snapshot("a\n\u{a7}\nbc", "d", &MemoryConfig::default());
    let r = snapshot_response(snap);
    assert_eq!(r.agent_entries.len(), 2);
    assert_eq!(r.agent_entries[1].index, 1);
    assert_eq!(r.agent_entries[1].text, "bc");
    assert_eq!(r.agent_chars, 3);
    assert_eq!(r.agent_limit, 2200);
    assert_eq!(r.user_entries[0].text, "d");
    assert_eq!(r.user_chars, 1);
    assert_eq!(r.user_limit, 1375);
}
