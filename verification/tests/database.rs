use serde_json::Value;
use vynkor_plugins::database::{
    admit_request, batch_given, batch_reply, bind_json_param, caller_file, change_event, check_statement,
    check_value, column_kind, delete_reply, get_reply, load_config, max_pages, params_shape,
    parse_request, rejects_attach, row_to_json, sanitize_caller_id, Bound, Cell, ColumnKind,
    DbRequest, DbShape, JsonParam, QueryResult, RawDbParams,
};

fn text(v: &Value, key: &str) -> Result<String, String> {
    v.get(key)
        .and_then(Value::as_str)
        .map(str::to_string)
        .ok_or(format!("missing field `{key}`"))
}

fn any(v: &Value, key: &str) -> Result<String, String> {
    v.get(key).map(Value::to_string).ok_or(format!("missing field `{key}`"))
}

fn decode(shape: DbShape, bytes: &[u8]) -> Result<RawDbParams, String> {
    let v: Value = serde_json::from_slice(bytes).map_err(|e| e.to_string())?;
    Ok(match shape {
        DbShape::Key => RawDbParams::Key { key: text(&v, "key")? },
        DbShape::KeyValueTtl => RawDbParams::KeyValueTtl {
            key: text(&v, "key")?,
            value: any(&v, "value")?,
            ttl_ms: v.get("ttl_ms").and_then(Value::as_i64),
        },
        DbShape::Keys => RawDbParams::Keys {
            keys: v["keys"]
                .as_array()
                .unwrap()
                .iter()
                .map(|k| k.as_str().unwrap().to_string())
                .collect(),
        },
        DbShape::Sql => RawDbParams::Sql {
            sql: text(&v, "sql")?,
            params: v
                .get("params")
                .and_then(Value::as_array)
                .map(|a| a.iter().map(Value::to_string).collect())
                .unwrap_or_default(),
        },
        DbShape::KeyDelta => RawDbParams::KeyDelta {
            key: text(&v, "key")?,
            delta: v.get("delta").and_then(Value::as_i64),
        },
        DbShape::Prefix => RawDbParams::Prefix { prefix: text(&v, "prefix").ok() },
        DbShape::KeyValue => {
            RawDbParams::KeyValue { key: text(&v, "key")?, value: any(&v, "value")? }
        }
        DbShape::KeyPathValue => RawDbParams::KeyPathValue {
            key: text(&v, "key")?,
            path: text(&v, "path")?,
            value: any(&v, "value")?,
        },
    })
}

fn decoded(action: &str, bytes: &[u8]) -> Result<RawDbParams, String> {
    match params_shape(action) {
        Some(shape) => decode(shape, bytes),
        None => Err("no such action".to_string()),
    }
}

fn parse(action: &str, bytes: &[u8]) -> Result<DbRequest, String> {
    parse_request(action, decoded(action, bytes))
}

#[test]
fn sanitize_accepts_normal_id() {
    assert_eq!(sanitize_caller_id("notes_plugin-v2").unwrap(), "notes_plugin-v2");
}

#[test]
fn sanitize_rejects_empty() {
    assert!(sanitize_caller_id("").is_err());
}

#[test]
fn sanitize_rejects_path_traversal() {
    assert!(sanitize_caller_id("../etc/passwd").is_err());
    assert!(sanitize_caller_id("foo/bar").is_err());
    assert!(sanitize_caller_id("foo.db").is_err());
}

#[test]
fn attach_detection_catches_various_forms() {
    assert!(rejects_attach("ATTACH DATABASE 'x' AS y"));
    assert!(rejects_attach("attach database 'x' as y"));
    assert!(rejects_attach("select 1; attach database 'x' as y"));
    // No whitespace between the keyword and the quote — still valid
    // SQLite syntax.
    assert!(rejects_attach("ATTACH'evil.db' AS x"));
}

#[test]
fn attach_detection_ignores_substrings() {
    assert!(!rejects_attach("select * from attachments"));
    assert!(!rejects_attach("select 'attach' as label"));
    // Bare quoted word: "attach" is the entire contents of a string
    // literal, not a statement keyword.
    assert!(!rejects_attach("select 'attach'"));
}

#[test]
fn pool_for_creates_and_reuses_per_caller_file() {
    assert_eq!(caller_file("caller_a").unwrap(), "caller_a.db");
    assert_eq!(caller_file("caller_b").unwrap(), "caller_b.db");
}

#[test]
fn pool_for_rejects_bad_caller_id() {
    assert!(caller_file("../escape").is_err());
    assert!(caller_file("").is_err());
}

#[test]
fn parses_db_get() {
    match parse("db_get", br#"{"key": "foo"}"#).unwrap() {
        DbRequest::Get { key } => assert_eq!(key, "foo"),
        other => panic!("wrong variant: {other:?}"),
    }
}

#[test]
fn parses_db_set() {
    match parse("db_set", br#"{"key": "foo", "value": {"a": 1}}"#).unwrap() {
        DbRequest::SetKey { key, value, ttl_ms } => {
            assert_eq!(key, "foo");
            assert_eq!(value, r#"{"a":1}"#);
            assert_eq!(ttl_ms, None);
        }
        other => panic!("wrong variant: {other:?}"),
    }
}

#[test]
fn db_set_parses_ttl_ms() {
    let req = parse("db_set", br#"{"key": "foo", "value": 1, "ttl_ms": 5000}"#).unwrap();
    assert!(matches!(req, DbRequest::SetKey { ttl_ms: Some(5000), .. }));
}

#[test]
fn db_set_treats_zero_and_negative_ttl_as_no_expiry() {
    for ttl in [0, -1] {
        let params = format!(r#"{{"key": "k", "value": 1, "ttl_ms": {ttl}}}"#);
        let req = parse("db_set", params.as_bytes()).unwrap();
        assert!(matches!(req, DbRequest::SetKey { ttl_ms: None, .. }), "ttl_ms {ttl}");
    }
}

#[test]
fn parses_db_incr_with_default_delta() {
    let req = parse("db_incr", br#"{"key": "views"}"#).unwrap();
    assert!(matches!(req, DbRequest::Incr { key, delta: 1 } if key == "views"));
}

#[test]
fn parses_db_incr_with_explicit_delta() {
    let req = parse("db_incr", br#"{"key": "views", "delta": -3}"#).unwrap();
    assert!(matches!(req, DbRequest::Incr { key, delta: -3 } if key == "views"));
}

#[test]
fn db_incr_zero_delta_is_kept() {
    let req = parse("db_incr", br#"{"key": "views", "delta": 0}"#).unwrap();
    assert!(matches!(req, DbRequest::Incr { key, delta: 0 } if key == "views"));
}

#[test]
fn parses_db_keys_with_default_prefix() {
    let req = parse("db_keys", b"{}").unwrap();
    assert!(matches!(req, DbRequest::Keys { prefix } if prefix.is_empty()));
}

#[test]
fn parses_db_keys_with_prefix() {
    let req = parse("db_keys", br#"{"prefix": "user:"}"#).unwrap();
    assert!(matches!(req, DbRequest::Keys { prefix } if prefix == "user:"));
}

#[test]
fn parses_db_append() {
    match parse("db_append", br#"{"key": "log", "value": {"n": 1}}"#).unwrap() {
        DbRequest::Append { key, value } => {
            assert_eq!(key, "log");
            assert_eq!(value, r#"{"n":1}"#);
        }
        other => panic!("wrong variant: {other:?}"),
    }
}

#[test]
fn parses_db_patch() {
    match parse("db_patch", br#"{"key": "doc", "path": "$.a.b", "value": 5}"#).unwrap() {
        DbRequest::Patch { key, path, value } => {
            assert_eq!(key, "doc");
            assert_eq!(path, "$.a.b");
            assert_eq!(value, "5");
        }
        other => panic!("wrong variant: {other:?}"),
    }
}

#[test]
fn db_patch_rejects_empty_path() {
    let err = parse("db_patch", br#"{"key": "doc", "path": "", "value": 1}"#).unwrap_err();
    assert!(err.contains("path"), "error was: {err}");
}

#[test]
fn db_patch_rejects_missing_path() {
    let err = parse("db_patch", br#"{"key": "doc", "value": 1}"#).unwrap_err();
    assert!(err.contains("path"), "error was: {err}");
}

#[test]
fn parses_db_delete() {
    let req = parse("db_delete", br#"{"key": "foo"}"#).unwrap();
    assert!(matches!(req, DbRequest::Delete { key } if key == "foo"));
}

#[test]
fn parses_db_batch_get() {
    match parse("db_batch_get", br#"{"keys": ["a", "b"]}"#).unwrap() {
        DbRequest::BatchGet { keys } => {
            assert_eq!(keys, vec!["a".to_string(), "b".to_string()])
        }
        other => panic!("wrong variant: {other:?}"),
    }
}

#[test]
fn parses_db_query() {
    let req = parse(
        "db_query",
        br#"{"sql": "select * from kv where key = ?1", "params": ["foo"]}"#,
    )
    .unwrap();
    match req {
        DbRequest::Query { sql, params } => {
            assert_eq!(sql, "select * from kv where key = ?1");
            assert_eq!(params, vec![r#""foo""#]);
        }
        other => panic!("wrong variant: {other:?}"),
    }
}

#[test]
fn db_query_defaults_params_to_empty() {
    let req = parse("db_query", br#"{"sql": "select 1"}"#).unwrap();
    assert!(matches!(req, DbRequest::Query { params, .. } if params.is_empty()));
}

/// The five actions over rows kept in a map.
struct Table {
    rows: Vec<(String, String)>,
}

impl Table {
    fn find(&self, key: &str) -> Option<String> {
        self.rows.iter().find(|(k, _)| k == key).map(|(_, v)| v.clone())
    }

    fn handle(&mut self, caller: &str, action: &str, bytes: &[u8]) -> Result<Value, String> {
        let reply = match admit_request(caller, action, decoded(action, bytes))? {
            DbRequest::Get { key } => get_reply(&key, &self.find(&key))?,
            DbRequest::SetKey { key, value, .. } => {
                check_value(&value, 1024)?;
                self.rows.retain(|(k, _)| *k != key);
                self.rows.push((key, value));
                r#"{"ok":true}"#.to_string()
            }
            DbRequest::Delete { key } => {
                let before = self.rows.len();
                self.rows.retain(|(k, _)| *k != key);
                delete_reply((before - self.rows.len()) as u64)
            }
            DbRequest::BatchGet { keys } => {
                let rows: Vec<Option<String>> = keys.iter().map(|k| self.find(k)).collect();
                batch_reply(&keys, &rows, 4096)?
            }
            DbRequest::Query { sql, .. } => {
                check_statement(&sql)?;
                let mut out = QueryResult::new(4096);
                for (k, v) in &self.rows {
                    let cells = vec![
                        ("key".to_string(), Cell::Text { text: k.clone() }),
                        ("value".to_string(), Cell::Text { text: v.clone() }),
                    ];
                    out.push_row(row_to_json(&cells))?;
                }
                out.reply()
            }
            other => panic!("not one of the five: {other:?}"),
        };
        Ok(serde_json::from_str(&reply).unwrap())
    }
}

fn handler() -> Table {
    Table { rows: Vec::new() }
}

fn value(s: &str) -> Value {
    serde_json::from_str(s).unwrap()
}

#[test]
fn values_round_trip_through_a_row() {
    let mut h = handler();
    let set = h.handle("caller_a", "db_set", br#"{"key": "foo", "value": {"n": 1}}"#).unwrap();
    assert_eq!(set, value(r#"{"ok": true}"#));
    let get = h.handle("caller_a", "db_get", br#"{"key": "foo"}"#).unwrap();
    assert_eq!(get, value(r#"{"found": true, "value": {"n": 1}}"#));
    let missing = h.handle("caller_a", "db_get", br#"{"key": "nope"}"#).unwrap();
    assert_eq!(missing, value(r#"{"found": false, "value": null}"#));
}

#[test]
fn corrupt_rows_are_reported() {
    let err = get_reply("a\"b", &Some("{oops".to_string())).unwrap_err();
    assert!(err.starts_with("corrupt stored value for key \"a\\\"b\": "), "{err}");
}

#[test]
fn delete_reports_whether_a_row_was_removed() {
    let mut h = handler();
    h.handle("caller_a", "db_set", br#"{"key": "foo", "value": 1}"#).unwrap();
    let out1 = h.handle("caller_a", "db_delete", br#"{"key": "foo"}"#).unwrap();
    assert_eq!(out1, value(r#"{"deleted": true}"#));
    let out2 = h.handle("caller_a", "db_delete", br#"{"key": "foo"}"#).unwrap();
    assert_eq!(out2, value(r#"{"deleted": false}"#));
}

#[test]
fn batch_get_returns_map_with_nulls_for_missing() {
    let mut h = handler();
    h.handle("caller_a", "db_set", br#"{"key": "a", "value": 1}"#).unwrap();
    let out = h.handle("caller_a", "db_batch_get", br#"{"keys": ["a", "b"]}"#).unwrap();
    assert_eq!(out, value(r#"{"values": {"a": 1, "b": null}}"#));
}

#[test]
fn query_reads_back_through_kv_table() {
    let mut h = handler();
    h.handle("caller_a", "db_set", br#"{"key": "foo", "value": "bar"}"#).unwrap();
    let v = h
        .handle(
            "caller_a",
            "db_query",
            br#"{"sql": "select key, value from kv where key = ?1", "params": ["foo"]}"#,
        )
        .unwrap();
    assert_eq!(v["rows"][0]["key"], "foo");
    assert_eq!(v["rows"][0]["value"], "\"bar\"");
}

#[test]
fn query_rejects_attach() {
    let err = handler()
        .handle("caller_a", "db_query", br#"{"sql": "attach database 'x.db' as evil"}"#)
        .unwrap_err();
    assert!(err.to_lowercase().contains("attach"), "error was: {err}");
}

#[test]
fn batch_get_rejects_oversized_total_response() {
    let mut h = handler();
    let big = "x".repeat(900);
    let mut keys = Vec::new();
    for i in 0..10 {
        let params = format!(r#"{{"key": "k{i}", "value": "{big}"}}"#);
        h.handle("caller_a", "db_set", params.as_bytes()).unwrap();
        keys.push(format!("\"k{i}\""));
    }
    let params = format!(r#"{{"keys": [{}]}}"#, keys.join(","));
    let err = h.handle("caller_a", "db_batch_get", params.as_bytes()).unwrap_err();
    assert!(err.contains("max_response_bytes"), "error was: {err}");
}

#[test]
fn query_rejects_oversized_select_result() {
    let mut h = handler();
    let big = "x".repeat(900);
    for i in 0..10 {
        let params = format!(r#"{{"key": "k{i}", "value": "{big}"}}"#);
        h.handle("caller_a", "db_set", params.as_bytes()).unwrap();
    }
    let err = h
        .handle("caller_a", "db_query", br#"{"sql": "select key, value from kv"}"#)
        .unwrap_err();
    assert!(err.contains("max_response_bytes"), "error was: {err}");
}

#[test]
fn insert_returning_yields_the_returned_rows() {
    let mut out = QueryResult::new(4096);
    let row = vec![
        ("key".to_string(), Cell::Text { text: "rk".to_string() }),
        ("updated_at".to_string(), Cell::Integer { value: 0 }),
    ];
    out.push_row(row_to_json(&row)).unwrap();
    out.add_affected(1);
    let v = value(&out.reply());
    assert_eq!(v["rows"][0]["key"], "rk", "RETURNING rows were dropped: {v}");
    assert_eq!(v["rows"][0]["updated_at"], 0);
    assert_eq!(v["rows_affected"], 1);
}

#[test]
fn cells_are_encoded_by_their_kind() {
    let row = vec![
        ("n".to_string(), Cell::Null),
        ("r".to_string(), Cell::Real { json: "1.5".to_string() }),
        ("b".to_string(), Cell::Blob { bytes: vec![0, 1, 2, 255] }),
        ("i".to_string(), Cell::Integer { value: -7 }),
        ("t".to_string(), Cell::Text { text: "a\"b".to_string() }),
    ];
    let v = value(&row_to_json(&row));
    assert_eq!(v, value(r#"{"n": null, "r": 1.5, "b": "AAEC/w==", "i": -7, "t": "a\"b"}"#));
}

#[test]
fn columns_are_read_by_their_type() {
    assert_eq!(column_kind("TEXT", false), Ok(ColumnKind::Text));
    assert_eq!(column_kind("INTEGER", false), Ok(ColumnKind::Integer));
    assert_eq!(column_kind("REAL", false), Ok(ColumnKind::Real));
    assert_eq!(column_kind("BLOB", false), Ok(ColumnKind::Blob));
    assert_eq!(column_kind("TEXT", true), Ok(ColumnKind::Null));
    assert_eq!(
        column_kind("DATETIME", false),
        Err("unsupported SQLite column type: DATETIME".to_string())
    );
}

#[test]
fn parameters_are_bound_by_their_kind() {
    assert_eq!(bind_json_param(JsonParam::Flag { value: true }), Bound::Integer { value: 1 });
    assert_eq!(bind_json_param(JsonParam::Flag { value: false }), Bound::Integer { value: 0 });
    assert_eq!(bind_json_param(JsonParam::Integer { value: -2 }), Bound::Integer { value: -2 });
    assert_eq!(
        bind_json_param(JsonParam::Nested { json: "[1]".to_string() }),
        Bound::Text { text: "[1]".to_string() }
    );
    assert_eq!(bind_json_param(JsonParam::Null), Bound::Null);
    assert_eq!(bind_json_param(JsonParam::Real), Bound::Real);
}

#[test]
fn every_db_set_announces_one_change() {
    let set = parse("db_set", br#"{"key": "k0", "value": 0}"#).unwrap();
    assert_eq!(change_event(&set), Some("changed"));
    let get = parse("db_get", br#"{"key": "k0"}"#).unwrap();
    assert_eq!(change_event(&get), None);
}

#[test]
fn configuration_of_the_database() {
    let c = load_config("/d".to_string(), &None, &Some("x".to_string()), &None);
    assert_eq!(c.data_dir, "/d");
    assert_eq!(c.pool_size, 4);
    assert_eq!(c.busy_timeout_ms, 5000);
    assert_eq!(c.max_db_bytes, 256 * 1024 * 1024);
    let c = load_config(
        "/d".to_string(),
        &Some("2".to_string()),
        &Some("1000".to_string()),
        &Some("0".to_string()),
    );
    assert_eq!((c.pool_size, c.busy_timeout_ms, c.max_db_bytes), (2, 1000, 0));
    assert_eq!(max_pages(0), None);
    assert_eq!(max_pages(64 * 1024), Some(16));
}

#[test]
fn batches_stop_at_the_first_bad_value_or_at_the_cap() {
    let keys = vec!["b".to_string(), "a".to_string()];
    let good = vec![Ok("1".to_string()), Ok("[2]".to_string())];
    assert_eq!(batch_given(&keys, &good, 100), Ok(r#"{"values":{"a":[2],"b":1}}"#.to_string()));
    let bad = vec![Err("first".to_string()), Err("second".to_string())];
    assert_eq!(batch_given(&keys, &bad, 100), Err("first".to_string()));
    assert_eq!(
        batch_given(&keys, &good, 13),
        Err("batch_get result exceeds max_response_bytes (> 13)".to_string())
    );
    assert!(batch_given(&keys, &good, 14).is_ok());
}
