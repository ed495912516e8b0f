use serde_json::Value;
use vynkor_plugins::action::ActionStatus;
use vynkor_plugins::clipboard::{
    after_read, after_write, begin_read, begin_write, detect_session, handle_action_request,
    handle_providers, parse_provider_pref, read_chain, run_result, write_chain, ClipboardStep,
    Config, ProviderPref, RunOutcome, Session, DEFAULT_MAX_BYTES, DEFAULT_TIMEOUT_MS,
};

fn cfg(pref: ProviderPref, max_bytes: usize) -> Config {
    Config { timeout_ms: 1_000, max_bytes, provider_pref: pref }
}

/// Canned results keyed by binary name; records every call.
struct FakeRunner {
    results: Vec<(&'static str, Result<Vec<u8>, String>)>,
    calls: Vec<(String, Vec<String>, Option<String>)>,
}

impl FakeRunner {
    fn run(&mut self, bin: &str, args: &[&str], stdin: Option<&str>) -> Result<Vec<u8>, String> {
        self.calls.push((
            bin.to_string(),
            args.iter().map(|s| s.to_string()).collect(),
            stdin.map(|s| s.to_string()),
        ));
        self.results
            .iter()
            .find(|(b, _)| *b == bin)
            .map(|(_, r)| r.clone())
            .unwrap_or_else(|| Ok(Vec::new()))
    }
}

fn fake(results: Vec<(&'static str, Result<Vec<u8>, String>)>) -> FakeRunner {
    FakeRunner { results, calls: Vec::new() }
}

fn handle_read(f: &mut FakeRunner, cfg: &Config, session: Session) -> Result<Value, String> {
    let mut attempts = begin_read(cfg, session);
    loop {
        let inv = &attempts.chain[attempts.at];
        let result = f.run(inv.bin, &inv.args, None);
        if let Some(done) = after_read(&mut attempts, result, cfg, session) {
            return done.map(|text| serde_json::from_str(&text).unwrap());
        }
    }
}

fn handle_write(
    f: &mut FakeRunner,
    cfg: &Config,
    session: Session,
    text: &str,
) -> Result<Value, String> {
    let mut attempts = begin_write(cfg, session, text)?;
    loop {
        let inv = &attempts.chain[attempts.at];
        let stdin = if inv.stdin { Some(text) } else { None };
        let result = f.run(inv.bin, &inv.args, stdin);
        if let Some(done) = after_write(&mut attempts, result, session, text) {
            return done.map(|text| serde_json::from_str(&text).unwrap());
        }
    }
}

#[test]
fn read_success_wayland() {
    let mut f = fake(vec![("wl-paste", Ok(b"hello".to_vec()))]);
    let v = handle_read(&mut f, &cfg(ProviderPref::Auto, 1024), Session::Wayland).unwrap();
    assert_eq!(v["found"], true);
    assert_eq!(v["text"], "hello");
    assert_eq!(v["provider"], "wl-paste");
}

#[test]
fn read_empty_clipboard_reports_found_false() {
    let mut f = fake(vec![("wl-paste", Ok(Vec::new()))]);
    let v = handle_read(&mut f, &cfg(ProviderPref::Auto, 1024), Session::Wayland).unwrap();
    assert_eq!(v["found"], false);
    assert_eq!(v["text"], Value::Null);
}

#[test]
fn read_oversized_rejected() {
    let mut f = fake(vec![("wl-paste", Ok(vec![b'a'; 4096]))]);
    let err = handle_read(&mut f, &cfg(ProviderPref::Auto, 1024), Session::Wayland).unwrap_err();
    assert!(err.contains("ERR_CLIPBOARD_TOO_LARGE"), "{err}");
}

#[test]
fn read_falls_back_from_xclip_to_xsel() {
    let mut f = fake(vec![
        (
            "xclip",
            Err("ERR_CLIPBOARD_PROVIDER_MISSING: binary 'xclip' not found on PATH".into()),
        ),
        ("xsel", Ok(b"fallback".to_vec())),
    ]);
    let v = handle_read(&mut f, &cfg(ProviderPref::Auto, 1024), Session::X11).unwrap();
    assert_eq!(v["text"], "fallback");
    assert_eq!(v["provider"], "xsel");
}

fn missing(bin: &str) -> Result<Vec<u8>, String> {
    run_result(bin, 1_000, RunOutcome::NotFound)
}

#[test]
fn read_all_readers_missing_lists_tried() {
    let mut f = fake(vec![("xclip", missing("xclip")), ("xsel", missing("xsel"))]);
    let err = handle_read(&mut f, &cfg(ProviderPref::Auto, 1024), Session::X11).unwrap_err();
    assert!(err.contains("ERR_CLIPBOARD_PROVIDER_MISSING"), "{err}");
    assert!(err.contains("xclip") && err.contains("xsel"), "{err}");
}

#[test]
fn read_non_utf8_rejected() {
    let mut f = fake(vec![("wl-paste", Ok(vec![0xff, 0xfe]))]);
    let err = handle_read(&mut f, &cfg(ProviderPref::Auto, 1024), Session::Wayland).unwrap_err();
    assert!(err.contains("ERR_CLIPBOARD_READ_FAILED"), "{err}");
}

#[test]
fn read_error_other_than_missing_propagates() {
    let mut f = fake(vec![("wl-paste", Err("ERR_CLIPBOARD_TIMEOUT: boom".into()))]);
    let err = handle_read(&mut f, &cfg(ProviderPref::Auto, 1024), Session::Wayland).unwrap_err();
    assert!(err.contains("ERR_CLIPBOARD_TIMEOUT"), "{err}");
}

#[test]
fn write_success_passes_text_via_stdin() {
    let mut f = fake(vec![("wl-copy", Ok(Vec::new()))]);
    let v = handle_write(&mut f, &cfg(ProviderPref::Auto, 1024), Session::Wayland, "payload")
        .unwrap();
    assert_eq!(v["ok"], true);
    assert_eq!(v["provider"], "wl-copy");
    assert_eq!(v["bytes"], 7);
    assert_eq!(f.calls.len(), 1);
    assert_eq!(f.calls[0].2.as_deref(), Some("payload"));
}

#[test]
fn write_empty_rejected() {
    let mut f = fake(vec![("wl-copy", Ok(Vec::new()))]);
    let err = handle_write(&mut f, &cfg(ProviderPref::Auto, 1024), Session::Wayland, "")
        .unwrap_err();
    assert!(err.contains("ERR_CLIPBOARD_BAD_PARAMS"), "{err}");
}

#[test]
fn write_oversized_rejected_before_spawn() {
    let mut f = fake(vec![("wl-copy", Ok(Vec::new()))]);
    let big = "x".repeat(2048);
    let err = handle_write(&mut f, &cfg(ProviderPref::Auto, 1024), Session::Wayland, &big)
        .unwrap_err();
    assert!(err.contains("ERR_CLIPBOARD_TOO_LARGE"), "{err}");
    assert!(f.calls.is_empty(), "must not spawn");
}

#[test]
fn write_all_writers_missing_lists_tried() {
    let mut f = fake(vec![("xclip", missing("xclip")), ("xsel", missing("xsel"))]);
    let err = handle_write(&mut f, &cfg(ProviderPref::Auto, 1024), Session::X11, "t").unwrap_err();
    assert!(err.contains("xclip") && err.contains("xsel"), "{err}");
}

#[test]
fn provider_pref_overrides_detected_session() {
    let mut f = fake(vec![("wl-paste", Ok(b"wayland-text".to_vec()))]);
    let v = handle_read(&mut f, &cfg(ProviderPref::Wayland, 1024), Session::X11).unwrap();
    assert_eq!(v["provider"], "wl-paste");
}

#[test]
fn detect_session_prefers_wayland() {
    assert_eq!(detect_session(Some("wayland-1"), Some("tty"), None), Ok(Session::Wayland));
}

#[test]
fn detect_session_x11_via_session_type() {
    assert_eq!(detect_session(None, Some("x11"), None), Ok(Session::X11));
}

#[test]
fn detect_session_x11_via_display_fallback() {
    assert_eq!(detect_session(None, None, Some(":0")), Ok(Session::X11));
}

#[test]
fn detect_session_nothing_set_is_error() {
    let err = detect_session(None, Some("tty"), None).unwrap_err();
    assert!(err.contains("ERR_CLIPBOARD_NO_SESSION"), "{err}");
}

#[test]
fn detect_session_empty_strings_treated_as_unset() {
    assert!(detect_session(Some("  "), None, None).is_err());
}

#[test]
fn parse_provider_pref_variants() {
    assert_eq!(parse_provider_pref(None), Ok(ProviderPref::Auto));
    assert_eq!(parse_provider_pref(Some("")), Ok(ProviderPref::Auto));
    assert_eq!(parse_provider_pref(Some("auto")), Ok(ProviderPref::Auto));
    assert_eq!(parse_provider_pref(Some("wayland")), Ok(ProviderPref::Wayland));
    assert_eq!(parse_provider_pref(Some("x11")), Ok(ProviderPref::X11));
    let err = parse_provider_pref(Some("macos")).unwrap_err();
    assert!(err.contains("ERR_CLIPBOARD_BAD_PARAMS"), "{err}");
}

#[test]
fn wayland_chains_use_wl_tools() {
    let r = read_chain(Session::Wayland);
    assert_eq!(r.len(), 1);
    assert_eq!(r[0].bin, "wl-paste");
    assert_eq!(r[0].args, vec!["--no-newline"]);
    assert!(!r[0].stdin);

    let w = write_chain(Session::Wayland);
    assert_eq!(w.len(), 1);
    assert_eq!(w[0].bin, "wl-copy");
    assert!(w[0].stdin);
}

#[test]
fn x11_chains_try_xclip_then_xsel() {
    let r = read_chain(Session::X11);
    assert_eq!(r.iter().map(|i| i.bin).collect::<Vec<_>>(), vec!["xclip", "xsel"]);
    assert!(!r.iter().any(|i| i.stdin));

    let w = write_chain(Session::X11);
    assert_eq!(w.iter().map(|i| i.bin).collect::<Vec<_>>(), vec!["xclip", "xsel"]);
    assert!(w.iter().all(|i| i.stdin));
    assert!(w[0].args.contains(&"-selection"));
}

#[test]
fn real_runner_missing_binary_maps_to_provider_missing() {
    let err = run_result("definitely-not-a-real-binary-xyz", 1_000, RunOutcome::NotFound)
        .unwrap_err();
    assert!(err.contains("ERR_CLIPBOARD_PROVIDER_MISSING"), "{err}");
}

#[test]
fn run_outcomes_are_worded() {
    let err = run_result("xclip", 1_500, RunOutcome::TimedOut).unwrap_err();
    assert!(err.contains("ERR_CLIPBOARD_TIMEOUT"), "{err}");
    assert!(err.contains("1500"), "{err}");
    let failed = RunOutcome::Exited {
        success: false,
        status: "exit status: 1".to_string(),
        stdout: vec![],
        stderr: b"  no display \n".to_vec(),
    };
    assert_eq!(
        run_result("xclip", 1, failed).unwrap_err(),
        "ERR_CLIPBOARD_READ_FAILED: 'xclip' exited with exit status: 1: no display"
    );
    let silent = RunOutcome::Exited {
        success: false,
        status: "exit status: 1".to_string(),
        stdout: vec![],
        stderr: vec![],
    };
    assert!(run_result("xclip", 1, silent).unwrap_err().ends_with("(no stderr)"));
    let ok = RunOutcome::Exited {
        success: true,
        status: "exit status: 0".to_string(),
        stdout: b"out".to_vec(),
        stderr: vec![],
    };
    assert_eq!(run_result("xclip", 1, ok), Ok(b"out".to_vec()));
    for outcome in [
        RunOutcome::SpawnFailed { error: "boom".to_string() },
        RunOutcome::StdinFailed { error: "boom".to_string() },
        RunOutcome::WaitFailed { error: "boom".to_string() },
    ] {
        assert!(run_result("xclip", 1, outcome).unwrap_err().contains("boom"));
    }
}

#[test]
fn providers_reply_lists_both_chains() {
    let v: Value = serde_json::from_str(&handle_providers(Session::X11)).unwrap();
    assert_eq!(v["session"], "x11");
    assert_eq!(v["readers"][0], "xclip");
    assert_eq!(v["writers"][1], "xsel");
}

#[test]
fn requests_are_dispatched() {
    let id = || "a1".to_string();
    match handle_action_request(id(), "clipboard_read", b"{}", Ok(Session::X11)) {
        ClipboardStep::Read { session } => assert_eq!(session, Session::X11),
        other => panic!("unexpected step: {other:?}"),
    }
    match handle_action_request(
        id(),
        "clipboard_write",
        br#"{"text":"hi"}"#,
        Ok(Session::Wayland),
    ) {
        ClipboardStep::Write { session, text } => {
            assert_eq!(session, Session::Wayland);
            assert_eq!(text, "hi");
        }
        other => panic!("unexpected step: {other:?}"),
    }
    for (params, complaint) in
        [(&b"{}"[..], "ERR_CLIPBOARD_BAD_PARAMS"), (&b"{"[..], "invalid params_json: ")]
    {
        match handle_action_request(id(), "clipboard_write", params, Ok(Session::X11)) {
            ClipboardStep::Reply { reply } => {
                assert_eq!(reply.status, ActionStatus::ActionError);
                assert!(reply.error.starts_with(complaint), "{}", reply.error);
            }
            other => panic!("unexpected step: {other:?}"),
        }
    }
    match handle_action_request(id(), "nope", b"{}", Ok(Session::X11)) {
        ClipboardStep::Reply { reply } => assert_eq!(reply.status, ActionStatus::ActionNotFound),
        other => panic!("unexpected step: {other:?}"),
    }
    match handle_action_request(id(), "clipboard_read", b"{}", Err("no session".to_string())) {
        ClipboardStep::Reply { reply } => {
            assert_eq!(reply.action_id, "a1");
            assert_eq!(reply.status, ActionStatus::ActionError);
            assert_eq!(reply.error, "no session");
        }
        other => panic!("unexpected step: {other:?}"),
    }
}

#[test]
fn configuration_falls_back_to_defaults() {
    let c = Config::from_env(&None, &Some("junk".to_string()), &Some("bogus".to_string()));
    assert_eq!(c.timeout_ms, DEFAULT_TIMEOUT_MS);
    assert_eq!(c.max_bytes, DEFAULT_MAX_BYTES);
    assert_eq!(c.provider_pref, ProviderPref::Auto);
    let c = Config::from_env(
        &Some("250".to_string()),
        &Some("10".to_string()),
        &Some("x11".to_string()),
    );
    assert_eq!(c.timeout_ms, 250);
    assert_eq!(c.max_bytes, 10);
    assert_eq!(c.provider_pref, ProviderPref::X11);
}
