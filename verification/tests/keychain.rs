use keel_memory::json::{json_text, parse_json, JsonValue};
use keel_memory::keychain::{
    channel_token, keychain_data_of, read_oauth_config_from, reconnect_token,
    try_update_keychain_text, update_keychain_text,
};
use keel_memory::pkce::{compute_challenge, verifier_from};

fn pairs(v: &[(&str, &str)]) -> Vec<(String, String)> {
    v.iter().map(|(k, t)| (k.to_string(), t.to_string())).collect()
}

#[test]
fn parse_json_one_level_in_key_order() {
    match parse_json(" {\"b\": 1, \"a\": [1, 2], \"c\": {\"d\": null}} ").ok().unwrap() {
        JsonValue::Object(ms) => assert_eq!(ms, pairs(&[("a", "[1,2]"), ("b", "1"), ("c", "{\"d\":null}")])),
        _ => panic!("not an object"),
    }
    assert!(matches!(parse_json("\"x\"").ok().unwrap(), JsonValue::Str(s) if s == "x"));
    assert!(matches!(parse_json("2.5").ok().unwrap(), JsonValue::Number(t) if t == "2.5"));
    assert!(parse_json("nope").is_err());
}

#[test]
fn json_text_writes_compact_json() {
    let v = JsonValue::Object(pairs(&[("x", "\"s\""), ("n", "12"), ("bad", "{")]));
    assert_eq!(json_text(&v), "{\"bad\":null,\"n\":12,\"x\":\"s\"}");
    assert_eq!(json_text(&JsonValue::Str("a\"b".to_string())), "\"a\\\"b\"");
}

const STORED: &str = r#"
  {"claudeAiOauth": {"accessToken": "x"},
   "mcpOAuth": {
     "github": {"clientId": "g"},
     "composio-tools": {"clientId": "cid", "discoveryState": {"authorizationServerUrl": "https://as.example"}, "accessToken": "old"},
     "composio-z": {"clientId": "z"}
   }}
"#;

#[test]
fn config_from_stored_text() {
    let c = read_oauth_config_from(STORED).ok().unwrap();
    assert_eq!(c.client_id, "cid");
    assert_eq!(c.auth_server_url, "https://as.example");
    assert_eq!(c.scope, "openid profile email offline_access");

    let err = read_oauth_config_from("{").err().unwrap();
    assert!(err.starts_with("Invalid keychain JSON: "));
    assert_eq!(read_oauth_config_from("{}").err().unwrap(), "No mcpOAuth in keychain");
    assert_eq!(read_oauth_config_from(r#"{"mcpOAuth": []}"#).err().unwrap(), "No mcpOAuth in keychain");
    assert_eq!(
        read_oauth_config_from(r#"{"mcpOAuth": {"composio": {"clientId": 5}}}"#).err().unwrap(),
        "Missing clientId"
    );
    assert_eq!(
        read_oauth_config_from(r#"{"mcpOAuth": {"composio": {"clientId": "c", "scope": "s"}}}"#).err().unwrap(),
        "Missing authorizationServerUrl"
    );
}

#[test]
fn keychain_members_in_key_order() {
    let doc = parse_json(STORED).ok().unwrap();
    let data = keychain_data_of(&doc);
    let es = data.mcp_oauth.unwrap();
    let keys: Vec<&str> = es.iter().map(|e| e.key.as_str()).collect();
    assert_eq!(keys, vec!["composio-tools", "composio-z", "github"]);
    assert!(es[0].is_object);
    assert_eq!(es[0].auth_server_url.as_deref(), Some("https://as.example"));
}

#[test]
fn token_is_written_into_first_composio_member() {
    let text = update_keychain_text(STORED, "new\"tok", Some(60), 1000).ok().unwrap();
    let got: serde_json::Value = serde_json::from_str(&text).unwrap();
    let want: serde_json::Value = serde_json::from_str(
        r#"{"claudeAiOauth": {"accessToken": "x"},
            "mcpOAuth": {
              "github": {"clientId": "g"},
              "composio-tools": {"clientId": "cid", "discoveryState": {"authorizationServerUrl": "https://as.example"},
                                 "accessToken": "new\"tok", "expiresAt": 1060},
              "composio-z": {"clientId": "z"}}}"#,
    )
    .unwrap();
    assert_eq!(got, want);
    assert_eq!(text, serde_json::to_string(&want).unwrap());

    let text = update_keychain_text(STORED, "t", None, 1000).ok().unwrap();
    let got: serde_json::Value = serde_json::from_str(&text).unwrap();
    assert_eq!(got["mcpOAuth"]["composio-tools"]["accessToken"], "t");
    assert!(got["mcpOAuth"]["composio-tools"].get("expiresAt").is_none());
}

#[test]
fn documents_without_a_member_are_written_back_unchanged() {
    let stored = r#"{"mcpOAuth": {"composio": 3}, "other": [1, 2]}"#;
    let text = update_keychain_text(stored, "t", Some(5), 1).ok().unwrap();
    assert_eq!(text, r#"{"mcpOAuth":{"composio":3},"other":[1,2]}"#);
    assert!(update_keychain_text("[", "t", None, 1).is_err());
}

#[test]
fn expiry_overflow_is_reported_only_when_a_member_is_written() {
    assert!(try_update_keychain_text(STORED, "t", Some(u64::MAX), 1).is_none());
    let none = r#"{"mcpOAuth": {}}"#;
    assert!(try_update_keychain_text(none, "t", Some(u64::MAX), 1).unwrap().is_ok());
    assert!(try_update_keychain_text(STORED, "t", Some(5), 1).unwrap().is_ok());
}

#[test]
fn channel_tokens() {
    assert_eq!(channel_token(r#"{"token": "abc", "x": 1}"#), Ok("abc".to_string()));
    assert_eq!(channel_token("{}"), Err("Missing 'token' in channel config".to_string()));
    assert_eq!(channel_token(r#"{"token": 7}"#), Err("Missing 'token' in channel config".to_string()));
    let err = channel_token("not json").unwrap_err();
    assert_eq!(err, serde_json::from_str::<serde_json::Value>("not json").unwrap_err().to_string());
    assert_eq!(reconnect_token("{}"), Some(String::new()));
    assert_eq!(reconnect_token(r#"{"token": "t"}"#), Some("t".to_string()));
    assert_eq!(reconnect_token("]"), None);
}

#[test]
fn verifier_encodes_the_three_uuids_in_order() {
    assert_eq!(verifier_from([0; 16], [0; 16], [0; 16]), "A".repeat(64));
    assert_eq!(verifier_from([255; 16], [255; 16], [255; 16]), "_".repeat(64));
    let mut c = [0u8; 16];
    c[15] = 1;
    let v = verifier_from([0; 16], [0; 16], c);
    assert_eq!(v, format!("{}B", "A".repeat(63)));
    assert_eq!(compute_challenge("x").len(), 43);
}
