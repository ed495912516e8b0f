use vynkor_plugins::sync_client::{
    after_attempt, load_config, parse_request, SyncClientRequest, MAX_BACKOFF_SECS,
    MIN_BACKOFF_SECS,
};

#[test]
fn accepts_empty_body() {
    assert_eq!(
        parse_request("sync_client_get_state", b"").unwrap(),
        SyncClientRequest::GetState
    );
}

#[test]
fn accepts_empty_object() {
    assert_eq!(
        parse_request("sync_client_get_state", b"{}").unwrap(),
        SyncClientRequest::GetState
    );
}

#[test]
fn rejects_nonempty_params() {
    let err = parse_request("sync_client_get_state", br#"{"x": 1}"#).unwrap_err();
    assert!(err.contains("no params"), "error was: {err}");
    let err = parse_request("sync_client_get_state", b"[]").unwrap_err();
    assert!(err.contains("no params"), "error was: {err}");
}

#[test]
fn backoff_doubles_to_its_cap_and_resets() {
    let mut due = MIN_BACKOFF_SECS;
    let mut waits = Vec::new();
    for _ in 0..7 {
        let b = after_attempt(false, due);
        waits.push(b.wait_secs);
        due = b.next_secs;
    }
    assert_eq!(waits, vec![1, 2, 4, 8, 16, 30, 30]);
    assert_eq!(due, MAX_BACKOFF_SECS);
    assert_eq!(after_attempt(true, due).next_secs, 2);
}

#[test]
fn client_configuration() {
    let c = load_config(&None, None, Some("box".to_string()), &None);
    assert_eq!(c.device_id, "box");
    let c = load_config(
        &Some("15".to_string()),
        Some("dev1".to_string()),
        Some("box".to_string()),
        &Some("900".to_string()),
    );
    assert_eq!(c.device_id, "dev1");
    assert_eq!(c.heartbeat_secs, 15);
    assert_eq!(c.snapshot_timeout_ms, 900);
}
