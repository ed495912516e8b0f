use serde_json::Value;
use vynkor_plugins::action::{response_envelope, ActionStatus};
use vynkor_plugins::secrets::{
    admit_request, apply, parse_delete_params, parse_get_params, parse_set_params,
    sanitize_caller_id, secrets_action, valid_name, vault_file, DeleteParams, GetParams, Limits,
    SecretsAction, SecretsParams, SetParams, DEFAULT_MAX_NAME_BYTES, DEFAULT_MAX_VALUE_BYTES,
};
use vynkor_plugins::strmap::StrMap;

fn field(json: &[u8], key: &str) -> Result<String, String> {
    let v: Value = serde_json::from_slice(json).map_err(|e| e.to_string())?;
    v.get(key)
        .and_then(Value::as_str)
        .map(str::to_string)
        .ok_or(format!("missing field `{key}`"))
}

fn set_params(json: &[u8]) -> Result<SetParams, String> {
    Ok(SetParams { name: field(json, "name")?, value: field(json, "value")? })
}

fn get_params(json: &[u8]) -> Result<GetParams, String> {
    Ok(GetParams { name: field(json, "name")? })
}

fn delete_params(json: &[u8]) -> Result<DeleteParams, String> {
    Ok(DeleteParams { name: field(json, "name")? })
}

/// Vaults by file name, written when a reply says so.
struct Handler {
    limits: Limits,
    vaults: Vec<(String, StrMap<String>)>,
    written: Vec<String>,
}

fn test_handler() -> Handler {
    Handler { limits: Limits::from_env(&None, &None), vaults: Vec::new(), written: Vec::new() }
}

impl Handler {
    fn handle(&mut self, caller: &str, action: &str, json: &[u8]) -> Result<String, String> {
        let params = match secrets_action(action)? {
            SecretsAction::Store => SecretsParams::Store { parsed: set_params(json) },
            SecretsAction::Fetch => SecretsParams::Fetch { parsed: get_params(json) },
            SecretsAction::Delete => SecretsParams::Delete { parsed: delete_params(json) },
            SecretsAction::List => SecretsParams::List,
        };
        let (op, file) = admit_request(caller, params, self.limits)?;
        if !self.vaults.iter().any(|(f, _)| *f == file) {
            self.vaults.push((file.clone(), StrMap::new()));
        }
        let vault = &mut self.vaults.iter_mut().find(|(f, _)| *f == file).unwrap().1;
        let reply = apply(op, vault);
        if reply.persist {
            self.written.push(file);
        }
        Ok(reply.data)
    }
}

#[test]
fn parses_set_params() {
    let p = parse_set_params(set_params(br#"{"name":"api_key","value":"sk-x"}"#), 1024).unwrap();
    assert_eq!(p.name, "api_key");
    assert_eq!(p.value, "sk-x");
}

#[test]
fn rejects_missing_fields() {
    assert!(parse_set_params(set_params(br#"{"name":"api_key"}"#), 1024).is_err());
    assert!(parse_get_params(get_params(b"{}")).is_err());
    assert!(parse_delete_params(delete_params(br#"{"name":123}"#)).is_err());
}

#[test]
fn rejects_oversized_value() {
    let big = "x".repeat(100);
    let json = format!(r#"{{"name": "k", "value": "{big}"}}"#);
    assert!(parse_set_params(set_params(json.as_bytes()), 10).is_err());
}

#[test]
fn validates_names() {
    assert!(valid_name("api_key", 256).is_ok());
    assert!(valid_name("a.b-c_d", 256).is_ok());
    assert!(valid_name("", 256).is_err());
    assert!(valid_name("has space", 256).is_err());
    assert!(valid_name("sl/ash", 256).is_err());
    assert!(valid_name("qu\"ote", 256).is_err());
    let long = "a".repeat(257);
    assert!(valid_name(&long, 256).is_err());
}

#[test]
fn set_get_delete_roundtrip() {
    let mut h = test_handler();
    let out = h.handle("caller-a", "secret_set", br#"{"name":"api_key","value":"sk-x"}"#).unwrap();
    assert_eq!(out, r#"{"stored":true}"#);

    let out = h.handle("caller-a", "secret_get", br#"{"name":"api_key"}"#).unwrap();
    assert_eq!(out, r#"{"found":true,"value":"sk-x"}"#);

    let out = h.handle("caller-a", "secret_get", br#"{"name":"missing"}"#).unwrap();
    assert_eq!(out, r#"{"found":false}"#);

    let out = h.handle("caller-a", "secret_delete", br#"{"name":"api_key"}"#).unwrap();
    assert_eq!(out, r#"{"deleted":true}"#);

    let out = h.handle("caller-a", "secret_delete", br#"{"name":"api_key"}"#).unwrap();
    assert_eq!(out, r#"{"deleted":false}"#);
}

#[test]
fn a_secret_outlasts_work_under_other_names() {
    let mut h = test_handler();
    h.handle("caller-a", "secret_set", br#"{"name":"kept","value":"v1"}"#).unwrap();
    h.handle("caller-a", "secret_set", br#"{"name":"gone","value":"v2"}"#).unwrap();
    h.handle("caller-a", "secret_delete", br#"{"name":"gone"}"#).unwrap();
    h.handle("caller-a", "secret_set", br#"{"name":"other","value":"v3"}"#).unwrap();
    h.handle("caller-a", "secret_list", b"{}").unwrap();
    let out = h.handle("caller-a", "secret_get", br#"{"name":"kept"}"#).unwrap();
    assert_eq!(out, r#"{"found":true,"value":"v1"}"#);
    let out = h.handle("caller-a", "secret_get", br#"{"name":"gone"}"#).unwrap();
    assert_eq!(out, r#"{"found":false}"#);
}

#[test]
fn per_caller_isolation() {
    let mut h = test_handler();
    h.handle("caller-a", "secret_set", br#"{"name":"k","value":"va"}"#).unwrap();
    let out = h.handle("caller-b", "secret_get", br#"{"name":"k"}"#).unwrap();
    assert_eq!(out, r#"{"found":false}"#);

    // Read misses never materialize a file — only a mutation writes it.
    assert!(h.written.contains(&"caller-a.vault".to_string()));
    assert!(!h.written.contains(&"caller-b.vault".to_string()));

    h.handle("caller-b", "secret_set", br#"{"name":"k","value":"vb"}"#).unwrap();
    let out = h.handle("caller-a", "secret_get", br#"{"name":"k"}"#).unwrap();
    assert_eq!(out, r#"{"found":true,"value":"va"}"#);
    assert!(h.written.contains(&"caller-b.vault".to_string()));
}

#[test]
fn list_returns_sorted_names() {
    let mut h = test_handler();
    h.handle("caller-a", "secret_set", br#"{"name":"zeta","value":"1"}"#).unwrap();
    h.handle("caller-a", "secret_set", br#"{"name":"alpha","value":"2"}"#).unwrap();
    let out = h.handle("caller-a", "secret_list", b"").unwrap();
    assert_eq!(out, r#"{"names":["alpha","zeta"]}"#);
}

#[test]
fn rejects_bad_caller_id() {
    let mut h = test_handler();
    let out = h.handle("", "secret_list", b"").unwrap_err();
    assert!(out.contains("missing caller_plugin_id"));
    let out = h.handle("../evil", "secret_list", b"").unwrap_err();
    assert!(out.contains("invalid caller_plugin_id"));
    assert_eq!(sanitize_caller_id("caller-a"), Ok("caller-a"));
    assert_eq!(vault_file("caller-a"), Ok("caller-a.vault".to_string()));
    let out = h.handle("../evil", "secret_get", br#"{"name":""}"#).unwrap_err();
    assert!(out.contains("missing secret name"), "parameters are checked first: {out}");
}

#[test]
fn rejects_bad_name_and_oversize_value() {
    let mut h = test_handler();
    let out =
        h.handle("c", "secret_set", br#"{"name":"bad name","value":"v"}"#).unwrap_err();
    assert!(out.contains("invalid secret name"));

    let big = "x".repeat(1024);
    let json = format!(r#"{{"name": "k", "value": "{big}"}}"#);
    let mut small_handler = test_handler();
    small_handler.limits = Limits { max_name_bytes: 256, max_value_bytes: 10 };
    let out = small_handler.handle("c", "secret_set", json.as_bytes()).unwrap_err();
    assert!(out.contains("too large"));
}

#[test]
fn unknown_action_rejected() {
    let out = test_handler().handle("c", "nope", b"{}").unwrap_err();
    assert!(out.contains("unknown action"));
}

#[test]
fn concurrent_set_get_responds_for_each_request() {
    let mut h = test_handler();
    for i in 0..20 {
        let json = format!(r#"{{"name": "key{i}", "value": "val{i}"}}"#);
        let out = h.handle("test-caller", "secret_set", json.as_bytes());
        let reply = response_envelope(format!("set-{i}"), out.map(String::into_bytes));
        assert_eq!(reply.status, ActionStatus::ActionOk);
        assert_eq!(reply.data_json, br#"{"stored":true}"#);
    }
}

#[test]
fn error_becomes_action_error_envelope() {
    let out = test_handler().handle("", "secret_list", b"");
    let reply = response_envelope("bad-1".to_string(), out.map(String::into_bytes));
    assert_eq!(reply.status, ActionStatus::ActionError);
    assert!(reply.error.contains("missing caller_plugin_id"), "error was: {:?}", reply.error);
}

#[test]
fn quotes_in_values_are_escaped() {
    let mut h = test_handler();
    h.handle("c", "secret_set", br#"{"name":"k","value":"a\"b\n"}"#).unwrap();
    let out = h.handle("c", "secret_get", br#"{"name":"k"}"#).unwrap();
    let v: Value = serde_json::from_str(&out).unwrap();
    assert_eq!(v["value"], "a\"b\n");
}

#[test]
fn limits_default_unless_set() {
    let l = Limits::from_env(&None, &Some("nope".to_string()));
    assert_eq!(l.max_name_bytes, DEFAULT_MAX_NAME_BYTES);
    assert_eq!(l.max_value_bytes, DEFAULT_MAX_VALUE_BYTES);
    let l = Limits::from_env(&Some("9".to_string()), &Some("8".to_string()));
    assert_eq!((l.max_name_bytes, l.max_value_bytes), (9, 8));
}
