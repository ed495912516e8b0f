use serde_json::Value;
use vynkor_plugins::action::ActionStatus;
use vynkor_plugins::strmap::StrMap;
use vynkor_plugins::sync::{
    admit_request, answer, load_config, load_limits, params_shape, parse_request, snapshot_json,
    Delta, RawSyncParams, SyncLimits, SyncOutcome, SyncRequest, SyncRow, SyncShape, SyncStore,
    DELTA_EVENT_TYPE,
};

const NOW: i64 = 1_750_000_000_000;

fn decoded(action: &str, bytes: &[u8]) -> Result<RawSyncParams, String> {
    let shape = match params_shape(action) {
        None => return Err("no such action".to_string()),
        Some(SyncShape::Ignored) => return Ok(RawSyncParams::Ignored),
        Some(s) => s,
    };
    let v: Value = serde_json::from_slice(bytes).map_err(|e| e.to_string())?;
    let key = v["key"].as_str().ok_or("missing field `key`")?.to_string();
    Ok(match shape {
        SyncShape::KeyValue => {
            let value = v.get("value").ok_or("missing field `value`")?.to_string();
            RawSyncParams::KeyValue { key, value }
        }
        _ => RawSyncParams::Key { key },
    })
}

fn parse(action: &str, bytes: &[u8]) -> Result<SyncRequest, String> {
    parse_request(action, decoded(action, bytes))
}

struct Handler {
    store: SyncStore,
    limits: SyncLimits,
}

fn handler() -> Handler {
    handler_with_ttl(0)
}

fn handler_with_ttl(ttl_secs: u64) -> Handler {
    Handler {
        store: SyncStore::new(),
        limits: SyncLimits {
            max_value_bytes: 1024,
            max_response_bytes: 4096,
            heartbeat_ttl_secs: ttl_secs,
        },
    }
}

impl Handler {
    fn handle(
        &mut self,
        caller: &str,
        action: &str,
        bytes: &[u8],
    ) -> Result<(Value, Vec<Delta>), String> {
        let req = admit_request(caller, action, decoded(action, bytes))?;
        let SyncOutcome { reply, changes } = self.store.handle(req, self.limits, NOW, NOW);
        Ok((serde_json::from_str(&reply?).unwrap(), changes))
    }

    fn insert(&mut self, key: &str, value: &str, updated_at: i64) {
        self.store.rows.insert(key.to_string(), SyncRow { value: value.to_string(), updated_at });
    }
}

fn value(s: &str) -> Value {
    serde_json::from_str(s).unwrap()
}

#[test]
fn parses_sync_get() {
    match parse("sync_get", br#"{"key": "foo"}"#).unwrap() {
        SyncRequest::Get { key } => assert_eq!(key, "foo"),
        other => panic!("wrong variant: {other:?}"),
    }
}

#[test]
fn parses_sync_set() {
    match parse("sync_set", br#"{"key": "foo", "value": {"a": 1}}"#).unwrap() {
        SyncRequest::SetKey { key, value } => {
            assert_eq!(key, "foo");
            assert_eq!(value, r#"{"a":1}"#);
        }
        other => panic!("wrong variant: {other:?}"),
    }
}

#[test]
fn parses_sync_del() {
    let req = parse("sync_del", br#"{"key": "foo"}"#).unwrap();
    assert!(matches!(req, SyncRequest::Del { key } if key == "foo"));
}

#[test]
fn parses_sync_get_snapshot_with_any_params() {
    // params_json is ignored for snapshot (no params to validate), but
    // an empty object must parse.
    let req = parse("sync_get_snapshot", b"{}").unwrap();
    assert!(matches!(req, SyncRequest::Snapshot));
}

#[test]
fn set_and_get_report_versions_and_deltas() {
    let mut h = handler();
    let (v, deltas) =
        h.handle("caller_a", "sync_set", br#"{"key": "foo", "value": {"n": 1}}"#).unwrap();
    assert_eq!(v, value(r#"{"ok": true, "version": 1}"#));
    assert_eq!(deltas.len(), 1);
    assert_eq!(deltas[0].op, "set");
    assert_eq!(deltas[0].version, 1);

    let (v, deltas) = h.handle("caller_a", "sync_get", br#"{"key": "foo"}"#).unwrap();
    assert_eq!(v, value(r#"{"found": true, "value": {"n": 1}}"#));
    assert!(deltas.is_empty());
    let (v, _) = h.handle("caller_a", "sync_get", br#"{"key": "nope"}"#).unwrap();
    assert_eq!(v, value(r#"{"found": false, "value": null}"#));
}

#[test]
fn a_value_outlasts_requests_that_spare_its_key() {
    let mut h = handler_with_ttl(60);
    h.insert("heartbeat.stale", "1", NOW - 61_000);
    h.handle("caller", "sync_set", br#"{"key":"kept","value":{"a":1}}"#).unwrap();
    h.handle("caller", "sync_set", br#"{"key":"gone","value":2}"#).unwrap();
    h.handle("caller", "sync_del", br#"{"key":"gone"}"#).unwrap();
    h.handle("caller", "sync_get_snapshot", b"{}").unwrap();
    let (found, _) = h.handle("caller", "sync_get", br#"{"key":"kept"}"#).unwrap();
    assert_eq!(found, value(r#"{"found":true,"value":{"a":1}}"#));
    let (gone, _) = h.handle("caller", "sync_get", br#"{"key":"gone"}"#).unwrap();
    assert_eq!(gone, value(r#"{"found":false,"value":null}"#));
}

#[test]
fn version_monotonically_increases() {
    let mut h = handler();
    let (out1, _) = h.handle("caller_a", "sync_set", br#"{"key": "a", "value": 1}"#).unwrap();
    let (out2, _) = h.handle("caller_a", "sync_set", br#"{"key": "b", "value": 2}"#).unwrap();
    assert_eq!(out1["version"], 1);
    assert_eq!(out2["version"], 2);
}

#[test]
fn del_reports_whether_a_row_was_removed() {
    let mut h = handler();
    h.handle("caller_a", "sync_set", br#"{"key": "foo", "value": 1}"#).unwrap();

    let (out1, d1) = h.handle("caller_a", "sync_del", br#"{"key": "foo"}"#).unwrap();
    assert_eq!(out1, value(r#"{"deleted": true, "version": 2}"#));
    assert_eq!(d1.len(), 1);
    assert_eq!(d1[0].op, "del");
    assert_eq!(d1[0].value, None);

    // Second del of the same key removed nothing: version unchanged, no
    // delta.
    let (out2, d2) = h.handle("caller_a", "sync_del", br#"{"key": "foo"}"#).unwrap();
    assert_eq!(out2, value(r#"{"deleted": false, "version": 2}"#));
    assert!(d2.is_empty());
}

#[test]
fn snapshot_returns_version_and_state() {
    let mut h = handler();
    h.handle("caller_a", "sync_set", br#"{"key": "a", "value": 1}"#).unwrap();
    h.handle("caller_a", "sync_set", br#"{"key": "b", "value": "x"}"#).unwrap();
    let (out, deltas) = h.handle("caller_a", "sync_get_snapshot", b"{}").unwrap();
    assert_eq!(out, value(r#"{"version": 2, "state": {"a": 1, "b": "x"}}"#));
    assert!(deltas.is_empty());
}

#[test]
fn snapshot_rejects_oversized_response() {
    let mut h = handler();
    let big = "x".repeat(900);
    for i in 0..10 {
        let params = format!(r#"{{"key": "k{i}", "value": "{big}"}}"#);
        h.handle("caller_a", "sync_set", params.as_bytes()).unwrap();
    }
    let err = h.handle("caller_a", "sync_get_snapshot", b"{}").unwrap_err();
    assert!(err.contains("max_response_bytes"), "error was: {err}");
}

#[test]
fn heartbeat_prune_on_set_emits_del_deltas_before_the_mutation() {
    let mut h = handler_with_ttl(300);
    let stale = NOW - 400_000; // 400s ago, past the 300s ttl
    h.insert("heartbeat.dev1", "1", stale);
    h.insert("heartbeat.dev2", "2", stale);
    h.insert("heartbeat.dev3", "3", NOW);

    let (out, deltas) =
        h.handle("caller_a", "sync_set", br#"{"key": "k", "value": 1}"#).unwrap();

    // two prune deltas, then the set delta.
    assert_eq!(deltas.len(), 3, "deltas: {deltas:?}");
    assert_eq!(deltas[0].op, "del");
    assert_eq!(deltas[0].key, "heartbeat.dev1");
    assert_eq!(deltas[1].op, "del");
    assert_eq!(deltas[1].key, "heartbeat.dev2");
    assert_eq!(deltas[2].op, "set");
    assert_eq!(deltas[2].key, "k");
    // versions strictly ascending.
    assert!(deltas[0].version < deltas[1].version);
    assert!(deltas[1].version < deltas[2].version);
    // the set response reports the post-prune, post-set version.
    assert_eq!(out["version"], 3);

    // the fresh heartbeat survived.
    let (get_out, _) =
        h.handle("caller_a", "sync_get", br#"{"key": "heartbeat.dev3"}"#).unwrap();
    assert_eq!(get_out["found"], true);
}

#[test]
fn heartbeat_prune_on_snapshot_removes_stale_rows() {
    let mut h = handler_with_ttl(300);
    h.insert("heartbeat.old", "1", NOW - 400_000);
    let (out, deltas) = h.handle("caller_a", "sync_get_snapshot", b"{}").unwrap();
    assert_eq!(deltas.len(), 1);
    assert_eq!(deltas[0].op, "del");
    assert_eq!(deltas[0].key, "heartbeat.old");
    // state is empty after the prune.
    assert_eq!(out, value(r#"{"version": 1, "state": {}}"#));
}

#[test]
fn heartbeat_ttl_zero_disables_prune() {
    let mut h = handler_with_ttl(0);
    h.insert("heartbeat.old", "1", NOW - 400_000);
    let (_, deltas) = h.handle("caller_a", "sync_set", br#"{"key": "k", "value": 1}"#).unwrap();
    assert_eq!(deltas.len(), 1, "only the set delta, no prune: {deltas:?}");
    assert_eq!(deltas[0].op, "set");
}

#[test]
fn version_persists_across_reopen() {
    let mut h = handler();
    h.handle("caller_a", "sync_set", br#"{"key": "a", "value": 1}"#).unwrap();
    // What is stored is the version and the rows: a store made of them goes on.
    let mut rows: StrMap<SyncRow> = StrMap::new();
    rows.insert("a".to_string(), SyncRow { value: "1".to_string(), updated_at: NOW });
    let mut h2 = handler();
    h2.store = SyncStore { version: h.store.version, rows };
    let (out, _) = h2.handle("caller_a", "sync_set", br#"{"key": "b", "value": 2}"#).unwrap();
    assert_eq!(out["version"], 2);
}

#[test]
fn sync_set_response_then_delta_event_without_deadlocking() {
    let mut store = SyncStore::new();
    let limits = load_limits(&None, &None, &None);
    let req = parse("sync_set", br#"{"key": "foo", "value": {"n": 1}}"#).unwrap();
    let outcome = store.handle(req, limits, NOW, NOW);
    let ans = answer("action-1".to_string(), outcome);
    assert_eq!(ans.response.status, ActionStatus::ActionOk);
    assert_eq!(ans.response.action_id, "action-1");
    assert_eq!(DELTA_EVENT_TYPE, "sync.delta");
    assert_eq!(ans.deltas.len(), 1);
    let payload = value(&ans.deltas[0].payload_json());
    assert_eq!(payload["op"], "set");
    assert_eq!(payload["key"], "foo");
    assert_eq!(payload["value"], value(r#"{"n": 1}"#));
    assert_eq!(payload["version"], 1);
    assert!(payload["updated_at"].as_i64().is_some());
}

#[test]
fn failures_publish_nothing() {
    let mut store = SyncStore::new();
    let limits = SyncLimits { max_value_bytes: 2, max_response_bytes: 10, heartbeat_ttl_secs: 0 };
    let req = parse("sync_set", br#"{"key": "foo", "value": "abc"}"#).unwrap();
    let ans = answer("a".to_string(), store.handle(req, limits, NOW, NOW));
    assert_eq!(ans.response.status, ActionStatus::ActionError);
    assert!(ans.deltas.is_empty());
    assert_eq!(store.version, 0);
}

#[test]
fn deletions_carry_a_null_value() {
    let d = Delta {
        op: "del",
        key: "k".to_string(),
        value: None,
        version: 7,
        updated_at: 9,
    };
    let payload = value(&d.payload_json());
    assert_eq!(payload["op"], "del");
    assert_eq!(payload["value"], Value::Null);
    assert_eq!(payload["version"], 7);
}

#[test]
fn sync_configuration() {
    let c = load_config("/d".to_string(), &None, &None, &None);
    assert_eq!(c.data_dir, "/d");
    let l = load_limits(&Some("5".to_string()), &Some("6".to_string()), &Some("7".to_string()));
    assert_eq!((l.max_value_bytes, l.max_response_bytes, l.heartbeat_ttl_secs), (5, 6, 7));
}

#[test]
fn deltas_rebuild_the_store() {
    let mut h = handler_with_ttl(60);
    h.insert("heartbeat.old", "1", NOW - 120_000);
    let mut mirror: Vec<(String, String)> = vec![("heartbeat.old".to_string(), "1".to_string())];
    let steps: [(&str, &[u8]); 5] = [
        ("sync_set", br#"{"key": "a", "value": 1}"#),
        ("sync_set", br#"{"key": "b", "value": 2}"#),
        ("sync_set", br#"{"key": "a", "value": 3}"#),
        ("sync_del", br#"{"key": "b"}"#),
        ("sync_del", br#"{"key": "never"}"#),
    ];
    let mut versions = Vec::new();
    for (action, bytes) in steps {
        for delta in h.handle("c", action, bytes).unwrap().1 {
            versions.push(delta.version);
            mirror.retain(|(key, _)| *key != delta.key);
            if let Some(value) = delta.value {
                mirror.push((delta.key, value));
            }
        }
    }
    assert_eq!(versions, vec![1, 2, 3, 4, 5]);
    assert_eq!(mirror, vec![("a".to_string(), "3".to_string())]);
    assert_eq!(h.store.rows.len(), 1);
    assert_eq!(h.store.rows.get("a").unwrap().value, "3");
    assert_eq!(h.store.version, 5);
}

#[test]
fn snapshots_list_names_with_values_up_to_the_cap() {
    let names = vec!["a".to_string(), "b".to_string()];
    let values = vec!["1".to_string(), "null".to_string()];
    let text = r#"{"state":{"a":1,"b":null},"version":7}"#;
    assert_eq!(snapshot_json(7, &names, &values, text.len()), Ok(text.to_string()));
    assert_eq!(
        snapshot_json(7, &names, &values, 10),
        Err(format!("snapshot exceeds max_response_bytes ({} > 10)", text.len()))
    );
}
