//! Requests that several plugins turn away alike.

use serde_json::Value;
use vynkor_plugins::ai::request as ai;
use vynkor_plugins::database;
use vynkor_plugins::search::request as search;
use vynkor_plugins::sync;
use vynkor_plugins::sync_client;

fn malformed() -> String {
    serde_json::from_slice::<Value>(b"not json").unwrap_err().to_string()
}

#[test]
fn request_rejects_unknown_action() {
    let err = database::parse_request("db_frobnicate", Err(malformed())).unwrap_err();
    assert!(err.contains("db_frobnicate"), "error was: {err}");
    let err = sync::parse_request("sync_frobnicate", Ok(sync::RawSyncParams::Ignored))
        .unwrap_err();
    assert!(err.contains("sync_frobnicate"), "error was: {err}");
    let err = sync_client::parse_request("sync_client_frobnicate", b"{}").unwrap_err();
    assert!(err.contains("sync_client_frobnicate"), "error was: {err}");
}

#[test]
fn request_rejects_malformed_json() {
    let err = database::parse_request("db_get", Err(malformed())).unwrap_err();
    assert!(err.contains("key"), "error was: {err}");
    let err = sync::parse_request("sync_get", Err(malformed())).unwrap_err();
    assert!(err.contains("key"), "error was: {err}");
    let err = sync_client::parse_request("sync_client_get_state", b"not json").unwrap_err();
    assert!(err.contains("sync_client_get_state"), "error was: {err}");
}

#[test]
fn request_rejects_empty_key() {
    let empty = database::RawDbParams::Key { key: String::new() };
    let err = database::parse_request("db_get", Ok(empty)).unwrap_err();
    assert!(err.contains("key"), "error was: {err}");
    let empty = sync::RawSyncParams::Key { key: String::new() };
    let err = sync::parse_request("sync_get", Ok(empty)).unwrap_err();
    assert!(err.contains("key"), "error was: {err}");
}

fn db_set(value: &str) -> database::RawDbParams {
    database::RawDbParams::KeyValueTtl {
        key: "foo".to_string(),
        value: value.to_string(),
        ttl_ms: None,
    }
}

fn sync_set(value: &str) -> sync::RawSyncParams {
    sync::RawSyncParams::KeyValue { key: "foo".to_string(), value: value.to_string() }
}

fn limits() -> sync::SyncLimits {
    sync::SyncLimits { max_value_bytes: 1024, max_response_bytes: 4096, heartbeat_ttl_secs: 0 }
}

fn parsed(s: &str) -> Value {
    serde_json::from_str(s).unwrap()
}

#[test]
fn handler_set_then_get_roundtrips() {
    match database::admit_request("caller_a", "db_set", Ok(db_set(r#"{"n":1}"#))).unwrap() {
        database::DbRequest::SetKey { key, value, .. } => {
            database::check_value(&value, 1024).unwrap();
            let out = database::get_reply(&key, &Some(value)).unwrap();
            assert_eq!(parsed(&out), parsed(r#"{"found": true, "value": {"n": 1}}"#));
        }
        other => panic!("wrong variant: {other:?}"),
    }

    let mut store = sync::SyncStore::new();
    let req = sync::admit_request("caller_a", "sync_set", Ok(sync_set(r#"{"n":1}"#))).unwrap();
    let out = store.handle(req, limits(), 1, 1);
    assert_eq!(parsed(&out.reply.unwrap()), parsed(r#"{"ok": true, "version": 1}"#));
    assert_eq!(out.changes.len(), 1);
    assert_eq!(out.changes[0].op, "set");
    assert_eq!(out.changes[0].version, 1);
    let key = sync::RawSyncParams::Key { key: "foo".to_string() };
    let req = sync::admit_request("caller_a", "sync_get", Ok(key)).unwrap();
    let out = store.handle(req, limits(), 2, 2);
    assert_eq!(
        parsed(&out.reply.unwrap()),
        parsed(r#"{"found": true, "value": {"n": 1}}"#)
    );
    assert!(out.changes.is_empty());
}

#[test]
fn handler_get_missing_key_returns_found_false() {
    let missing = parsed(r#"{"found": false, "value": null}"#);
    assert_eq!(parsed(&database::get_reply("nope", &None).unwrap()), missing);
    let mut store = sync::SyncStore::new();
    let req = sync::SyncRequest::Get { key: "nope".to_string() };
    let out = store.handle(req, limits(), 1, 1);
    assert_eq!(parsed(&out.reply.unwrap()), missing);
}

#[test]
fn handler_set_rejects_oversized_value() {
    let big = format!("\"{}\"", "x".repeat(2000));
    let err = database::check_value(&big, 1024).unwrap_err();
    assert!(err.contains("max_value_bytes"), "error was: {err}");
    let mut store = sync::SyncStore::new();
    let req = sync::admit_request("caller_a", "sync_set", Ok(sync_set(&big))).unwrap();
    let err = store.handle(req, limits(), 1, 1).reply.unwrap_err();
    assert!(err.contains("max_value_bytes"), "error was: {err}");
}

#[test]
fn handler_rejects_missing_caller_id() {
    let key = database::RawDbParams::Key { key: "foo".to_string() };
    let err = database::admit_request("", "db_get", Ok(key)).unwrap_err();
    assert!(err.contains("caller_plugin_id"), "error was: {err}");
    let key = sync::RawSyncParams::Key { key: "foo".to_string() };
    let err = sync::admit_request("", "sync_get", Ok(key)).unwrap_err();
    assert!(err.contains("caller_plugin_id"), "error was: {err}");
}

#[test]
fn handler_rejects_unknown_action() {
    let err = database::admit_request("caller_a", "db_frobnicate", Err(malformed()))
        .unwrap_err();
    assert!(err.contains("db_frobnicate"), "error was: {err}");
    let ignored = sync::RawSyncParams::Ignored;
    let err = sync::admit_request("caller_a", "sync_frobnicate", Ok(ignored)).unwrap_err();
    assert!(err.contains("sync_frobnicate"), "error was: {err}");
}

fn chat_request() -> ai::RawChatRequest {
    ai::RawChatRequest {
        provider: Some("anthropic".to_string()),
        base_url: None,
        model: Some("sonnet-5".to_string()),
        api_key_env: Some("ANTHROPIC_API_KEY".to_string()),
        messages: Some(vec![ai::Message { role: "user".to_string(), content: "hi".to_string() }]),
        max_tokens: None,
        timeout_ms: None,
    }
}

fn search_request() -> search::RawSearchRequest {
    search::RawSearchRequest {
        query: Some("vynkor plugin kernel".to_string()),
        provider: None,
        api_key_env: Some("SEARCH_BRAVE_KEY".to_string()),
        base_url: None,
        count: None,
        timeout_ms: None,
    }
}

#[test]
fn request_rejects_unsupported_provider() {
    let mut chat = chat_request();
    chat.provider = Some("gemini".to_string());
    let err = ai::parse_request(Ok(chat)).unwrap_err();
    assert!(err.contains("unsupported provider"), "error was: {err}");
    let mut web = search_request();
    web.provider = Some("google".to_string());
    let err = search::parse_request(Ok(web)).unwrap_err();
    assert!(err.contains("unsupported provider"), "error was: {err}");
}

#[test]
fn request_rejects_missing_api_key_env() {
    let mut chat = chat_request();
    chat.api_key_env = None;
    let err = ai::parse_request(Ok(chat)).unwrap_err();
    assert!(err.contains("api_key_env"), "error was: {err}");
    let mut web = search_request();
    web.api_key_env = None;
    let err = search::parse_request(Ok(web)).unwrap_err();
    assert!(err.contains("api_key_env"), "error was: {err}");
}
