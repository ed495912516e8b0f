use serde_json::Value;
use vynkor_plugins::notify::handler::{
    audit_entry, begin_send, handle_notify_delete, handle_notify_list, handle_notify_mark_read,
    handle_notify_providers, sent_reply, speech_text, stored_reply, SendStep, Speech,
};
use vynkor_plugins::notify::inbox::{parse_seq, Inbox, InboxEntry, InboxFile, MAX_ENTRIES};
use vynkor_plugins::notify::providers::{
    all_providers, audio_file_name, build_tts_request, command_result, delivered,
    enabled_providers, enabled_summary, full_text, kind_available, list_providers,
    list_providers_for, missing_binary, notify_send_args_with, parse_enabled_list, pick_player,
    plan_delivery, plan_playback, play_decoded, speech_request, CommandOutcome, Delivered, EnvValue, Installed,
    NotifyParams, Players, ProviderKind, TtsReply, TTS_TIMEOUT_MS,
};

const EVERYTHING: Installed =
    Installed { notify_send: true, wall: true, espeak_ng: true, espeak: true };
const NOTHING: Installed =
    Installed { notify_send: false, wall: false, espeak_ng: false, espeak: false };

fn n(message: &str) -> NotifyParams {
    NotifyParams {
        provider: "notify-send".to_string(),
        title: String::new(),
        message: message.to_string(),
        urgency: None,
        timeout_ms: None,
        app_name: None,
        silent: false,
        speak: false,
    }
}

fn entry(title: &str, message: &str) -> InboxEntry {
    InboxEntry {
        id: String::new(),
        created_at_ms: 0,
        title: title.to_string(),
        message: message.to_string(),
        provider: "notify-send".to_string(),
        delivered: true,
        silent: false,
        spoken: false,
        read: false,
    }
}

fn fresh() -> Inbox {
    Inbox::open("inbox.json".to_string(), InboxFile::Missing).unwrap()
}

/// The inbox that the file written for `inbox` opens as.
fn reopen(inbox: Inbox) -> Inbox {
    let file = InboxFile::Entries { entries: inbox.entries };
    Inbox::open("inbox.json".to_string(), file).unwrap()
}

#[test]
fn notify_providers_returns_json_array_of_three() {
    let data = handle_notify_providers(&EnvValue::Unset, EVERYTHING);
    let v: Value = serde_json::from_str(&data).unwrap();
    let arr = v.as_array().expect("expected a JSON array");
    assert_eq!(arr.len(), 3);
    for entry in arr {
        for key in ["id", "name", "available", "description"] {
            assert!(entry.get(key).is_some(), "provider entry missing '{key}': {entry}");
        }
    }
    let ids: Vec<&str> = arr.iter().map(|e| e["id"].as_str().unwrap()).collect();
    assert_eq!(ids, vec!["notify-send", "wall", "espeak"]);
}

#[test]
fn notify_list_response_shape_filters_read() {
    let mut inbox = fresh();
    let id1 = inbox.push(entry("", "m1"), 100);
    let id2 = inbox.push(entry("", "m2"), 101);
    inbox.mark_read(&id2);

    let v: Value = serde_json::from_str(&handle_notify_list(&inbox, false)).unwrap();
    let arr = v["notifications"].as_array().expect("notifications array");
    assert_eq!(arr.len(), 1, "read entry filtered out");
    assert_eq!(arr[0]["id"], Value::String(id1));
    for key in [
        "id",
        "created_at_ms",
        "title",
        "message",
        "provider",
        "delivered",
        "silent",
        "spoken",
        "read",
    ] {
        assert!(arr[0].get(key).is_some(), "notification missing '{key}': {}", arr[0]);
    }

    let v: Value = serde_json::from_str(&handle_notify_list(&inbox, true)).unwrap();
    assert_eq!(v["notifications"].as_array().unwrap().len(), 2);
}

#[test]
fn push_assigns_id_and_persists_across_reopen() {
    let mut inbox = fresh();
    let id1 = inbox.push(entry("t1", "m1"), 1_700_000_000_000);
    let id2 = inbox.push(entry("t2", "m2"), 1_700_000_000_000);
    assert!(!id1.is_empty());
    assert!(!id2.is_empty());
    assert_ne!(id1, id2);
    assert!(id1.ends_with("-1"), "first id was: {id1}");
    assert!(id2.ends_with("-2"), "second id was: {id2}");

    let inbox2 = reopen(inbox);
    let all = inbox2.list(true);
    assert_eq!(all.len(), 2);
    assert_eq!(all[0].id, id2, "newest first");
    assert_eq!(all[1].id, id1);
    assert!(all[0].created_at_ms > 0);
    assert_eq!(inbox2.next_seq, 3);
}

#[test]
fn reopening_keeps_every_change() {
    let mut inbox = fresh();
    for n in 0..MAX_ENTRIES + 2 {
        inbox.push(entry("t", &n.to_string()), 5);
    }
    let newest = inbox.list(true)[0].id.clone();
    let second = inbox.list(true)[1].id.clone();
    assert!(inbox.mark_read(&second));
    assert!(inbox.delete(&newest));
    let (all, unread) = (inbox.list(true), inbox.list(false));
    let mut again = reopen(inbox);
    assert_eq!(again.list(true), all);
    assert_eq!(again.list(false), unread);
    assert_eq!(all.len(), MAX_ENTRIES - 1);
    // One above the greatest number that is stored.
    assert_eq!(again.push(entry("t", "next"), 6), format!("6-{}", MAX_ENTRIES + 2));
}

#[test]
fn list_filters_read_when_include_read_is_false() {
    let mut inbox = fresh();
    let id1 = inbox.push(entry("t1", "m1"), 5);
    let id2 = inbox.push(entry("t2", "m2"), 6);

    assert_eq!(inbox.list(false).len(), 2);
    assert!(inbox.mark_read(&id2));
    let unread = inbox.list(false);
    assert_eq!(unread.len(), 1);
    assert_eq!(unread[0].id, id1);
    assert_eq!(inbox.list(true).len(), 2);
}

#[test]
fn mark_read_persists_and_reports_change_only() {
    let mut inbox = fresh();
    let id = inbox.push(entry("t1", "m1"), 5);

    assert!(inbox.mark_read(&id));
    assert!(!inbox.mark_read(&id), "already read = no change");
    assert!(!inbox.mark_read("no-such-id"));

    let inbox2 = reopen(inbox);
    assert!(inbox2.list(true)[0].read, "read flag persisted");
}

#[test]
fn delete_persists_and_reports_found_only() {
    let mut inbox = fresh();
    let id = inbox.push(entry("t1", "m1"), 5);

    assert!(inbox.delete(&id));
    assert!(!inbox.delete(&id), "already gone = no change");
    assert!(!inbox.delete("no-such-id"));

    let inbox2 = reopen(inbox);
    assert!(inbox2.list(true).is_empty(), "deletion persisted");
}

#[test]
fn push_prunes_to_newest_max_entries() {
    let mut inbox = fresh();
    let mut ids = Vec::new();
    for i in 0..(MAX_ENTRIES + 5) {
        ids.push(inbox.push(entry("t", &format!("m{i}")), i as u64));
    }
    let all = inbox.list(true);
    assert_eq!(all.len(), MAX_ENTRIES);
    assert_eq!(all[0].id, ids[MAX_ENTRIES + 4], "newest kept");
    assert!(!all.iter().any(|e| e.id == ids[0]), "oldest entries pruned");

    let inbox2 = reopen(inbox);
    assert_eq!(inbox2.list(true).len(), MAX_ENTRIES, "prune persisted");
}

#[test]
fn corrupt_inbox_file_fails_loudly() {
    let error = serde_json::from_slice::<Value>(b"{not json").unwrap_err().to_string();
    let err = Inbox::open("inbox.json".to_string(), InboxFile::Corrupt { error }).unwrap_err();
    assert!(err.contains("corrupt"), "error was: {err}");
    assert!(err.contains("inbox.json"), "error was: {err}");
    let err = Inbox::open(
        "inbox.json".to_string(),
        InboxFile::Unreadable { error: "denied".to_string() },
    )
    .unwrap_err();
    assert!(err.contains("denied"), "error was: {err}");
}

#[test]
fn sequence_numbers_are_read_back_from_ids() {
    assert_eq!(parse_seq("n-17-4"), 4);
    assert_eq!(parse_seq("17-42"), 42);
    assert_eq!(parse_seq("no dashes"), 0);
    assert_eq!(parse_seq("x-y"), 0);
}

#[test]
fn mark_read_and_delete_replies() {
    let mut inbox = fresh();
    let id = inbox.push(entry("t", "m"), 1);
    let v: Value = serde_json::from_str(&handle_notify_mark_read(&mut inbox, &id)).unwrap();
    assert_eq!(v.as_object().unwrap().values().next().unwrap(), true);
    assert_eq!(handle_notify_delete(&mut inbox, &id), r#"{"deleted":true}"#);
    assert_eq!(handle_notify_delete(&mut inbox, &id), r#"{"deleted":false}"#);
}

#[test]
fn parse_accepts_all_three_providers() {
    assert_eq!(ProviderKind::parse("notify-send").unwrap(), ProviderKind::NotifySend);
    assert_eq!(ProviderKind::parse("wall").unwrap(), ProviderKind::Wall);
    assert_eq!(ProviderKind::parse("espeak").unwrap(), ProviderKind::Espeak);
    // Ids are trimmed, so surrounding whitespace is tolerated.
    assert_eq!(ProviderKind::parse("  wall ").unwrap(), ProviderKind::Wall);
}

#[test]
fn parse_rejects_unknown_provider_naming_valid_set() {
    let err = ProviderKind::parse("email").unwrap_err();
    assert!(err.contains("unknown provider 'email'"), "error was: {err}");
    assert!(err.contains("notify-send, wall, espeak"), "error was: {err}");
}

#[test]
fn notify_send_args_minimal_request() {
    let args = notify_send_args_with(&n("hello"), None);
    assert_eq!(args, vec!["-a", "vynkor", "hello"]);
}

#[test]
fn notify_send_args_with_urgency_and_timeout() {
    let mut p = n("hello");
    p.urgency = Some("critical".to_string());
    p.timeout_ms = Some(5000);
    let args = notify_send_args_with(&p, None);
    assert_eq!(args, vec!["-a", "vynkor", "-u", "critical", "-t", "5000", "hello"]);
}

#[test]
fn notify_send_args_includes_title_when_non_empty() {
    let mut p = n("hello");
    p.title = "Build done".to_string();
    let args = notify_send_args_with(&p, None);
    assert_eq!(args, vec!["-a", "vynkor", "Build done", "hello"]);
}

#[test]
fn notify_send_args_omits_empty_title() {
    let p = n("hello"); // title defaults to ""
    let args = notify_send_args_with(&p, None);
    assert_eq!(args, vec!["-a", "vynkor", "hello"]);
}

#[test]
fn notify_send_args_timeout_zero_is_omitted() {
    let mut p = n("hello");
    p.timeout_ms = Some(0);
    let args = notify_send_args_with(&p, None);
    assert_eq!(args, vec!["-a", "vynkor", "hello"]);
}

#[test]
fn notify_send_args_uses_request_app_name_over_default() {
    let mut p = n("hello");
    p.app_name = Some("myapp".to_string());
    let args = notify_send_args_with(&p, None);
    assert_eq!(args, vec!["-a", "myapp", "hello"]);
}

#[test]
fn notify_send_args_env_app_name_beats_default() {
    let args = notify_send_args_with(&n("hello"), Some("envapp"));
    assert_eq!(args, vec!["-a", "envapp", "hello"]);
}

#[test]
fn notify_send_args_empty_request_app_name_falls_back() {
    let mut p = n("hello");
    p.app_name = Some(String::new());
    let args = notify_send_args_with(&p, Some("envapp"));
    assert_eq!(args, vec!["-a", "envapp", "hello"]);
}

#[test]
fn full_text_prepends_title_when_set() {
    let mut p = n("hello");
    p.title = "Build done".to_string();
    assert_eq!(full_text(&p), "Build done: hello");
    assert_eq!(full_text(&n("hello")), "hello");
}

#[test]
fn list_providers_reports_all_three_with_bool_availability() {
    let infos = list_providers(&EnvValue::Unset, EVERYTHING);
    assert_eq!(infos.len(), 3);
    assert_eq!(infos[0].id, "notify-send");
    assert_eq!(infos[1].id, "wall");
    assert_eq!(infos[2].id, "espeak");
    for info in &infos {
        assert!(!info.name.is_empty());
        assert!(!info.description.is_empty());
        let _: bool = info.available; // typed bool by construction
    }
}

#[test]
fn list_providers_marks_everything_unavailable_when_nothing_enabled() {
    let infos = list_providers_for(&vec![], EVERYTHING);
    assert_eq!(infos.len(), 3);
    assert!(infos.iter().all(|i| !i.available));
}

#[test]
fn list_providers_availability_matches_binary_presence_when_all_enabled() {
    for installed in [
        EVERYTHING,
        NOTHING,
        Installed { notify_send: false, wall: true, espeak_ng: false, espeak: true },
    ] {
        let infos = list_providers_for(&all_providers(), installed);
        let expected = [
            kind_available(ProviderKind::NotifySend, installed),
            kind_available(ProviderKind::Wall, installed),
            kind_available(ProviderKind::Espeak, installed),
        ];
        assert_eq!(expected[1], installed.wall);
        for (info, avail) in infos.iter().zip(expected) {
            assert_eq!(info.available, avail, "availability mismatch for {}", info.id);
        }
    }
}

#[test]
fn parse_enabled_list_empty_means_all() {
    assert_eq!(parse_enabled_list("").unwrap(), all_providers());
    assert_eq!(parse_enabled_list("   ").unwrap(), all_providers());
}

#[test]
fn parse_enabled_list_respects_list_with_trimming() {
    let kinds = parse_enabled_list(" wall , espeak ").unwrap();
    assert_eq!(kinds, vec![ProviderKind::Wall, ProviderKind::Espeak]);
}

#[test]
fn parse_enabled_list_skips_empty_entries_and_deduplicates() {
    let kinds = parse_enabled_list("wall,, wall,espeak").unwrap();
    assert_eq!(kinds, vec![ProviderKind::Wall, ProviderKind::Espeak]);
}

#[test]
fn parse_enabled_list_rejects_unknown_id() {
    let err = parse_enabled_list("wall,email").unwrap_err();
    assert!(err.contains("unknown provider 'email'"), "error was: {err}");
}

#[test]
fn enabled_providers_follow_the_environment() {
    assert_eq!(enabled_providers(&EnvValue::Unset).unwrap(), all_providers());
    assert_eq!(
        enabled_providers(&EnvValue::Value { raw: "wall".to_string() }).unwrap(),
        vec![ProviderKind::Wall]
    );
    assert!(enabled_providers(&EnvValue::Value { raw: "fax".to_string() }).is_err());
    assert!(enabled_providers(&EnvValue::Unreadable { error: "bad".to_string() }).is_err());
    assert_eq!(enabled_summary(&all_providers()), "notify-send, wall, espeak");
}

fn parsed(req: String) -> Value {
    serde_json::from_str(&req).unwrap()
}

#[test]
fn tts_request_omits_voice_when_none() {
    let req = parsed(build_tts_request("hello", "sherpa", None, "wav"));
    assert!(req.get("voice").is_none(), "voice key must be absent: {req}");
    assert_eq!(req["provider"], "sherpa");
    assert_eq!(req["text"], "hello");
    assert_eq!(req["format"], "wav");
    assert_eq!(req["timeout_ms"], TTS_TIMEOUT_MS);
}

#[test]
fn tts_request_omits_empty_voice() {
    let req = parsed(build_tts_request("hello", "sherpa", Some(""), "wav"));
    assert!(req.get("voice").is_none(), "empty voice = omitted: {req}");
    let req = parsed(build_tts_request("hello", "sherpa", Some("  "), "wav"));
    assert!(req.get("voice").is_none());
}

#[test]
fn tts_request_includes_voice_when_set() {
    let req = parsed(build_tts_request("hello", "sherpa", Some("af_heart"), "wav"));
    assert_eq!(req["voice"], "af_heart");
}

#[test]
fn tts_request_carries_provider_and_format() {
    let req = parsed(build_tts_request("hello", "openai", Some("alloy"), "mp3"));
    assert_eq!(req["provider"], "openai");
    assert_eq!(req["format"], "mp3");
    assert_eq!(req["voice"], "alloy");
}

#[test]
fn speech_requests_use_the_configured_defaults() {
    let req = parsed(speech_request("say \"hi\"", &None, &None, &None));
    assert_eq!(req["provider"], "sherpa");
    assert_eq!(req["format"], "wav");
    assert_eq!(req["text"], "say \"hi\"");
    let req = parsed(speech_request(
        "x",
        &Some("openai".to_string()),
        &Some("v".to_string()),
        &Some("mp3".to_string()),
    ));
    assert_eq!(req["provider"], "openai");
    assert_eq!(req["voice"], "v");
    assert_eq!(req["format"], "mp3");
}

#[test]
fn sending_decides_between_storing_and_delivering() {
    let mut p = n("hello");
    assert!(matches!(
        begin_send(&p),
        Ok(SendStep::Deliver { kind: ProviderKind::NotifySend })
    ));
    p.silent = true;
    match begin_send(&p).unwrap() {
        SendStep::Store { entry } => {
            assert_eq!(entry.message, "hello");
            assert!(entry.silent);
            assert!(!entry.delivered);
            assert!(!entry.read);
        }
        other => panic!("unexpected step: {other:?}"),
    }
    p.silent = false;
    p.provider = "email".to_string();
    assert!(begin_send(&p).unwrap_err().contains("unknown provider 'email'"));
}

#[test]
fn silent_sends_ignore_provider_and_speech() {
    let mut p = n("m");
    p.provider = "email".to_string();
    p.silent = true;
    p.speak = true;
    match begin_send(&p).unwrap() {
        SendStep::Store { entry } => {
            assert_eq!(entry.message, "m");
            assert_eq!(entry.provider, "email");
            assert!(entry.silent && !entry.delivered && !entry.spoken && !entry.read);
        }
        other => panic!("unexpected step: {other:?}"),
    }
}

#[test]
fn stored_and_sent_replies() {
    let v = parsed(stored_reply(Ok("n-1".to_string())).unwrap());
    assert_eq!(v["id"], "n-1");
    assert!(stored_reply(Err("disk full".to_string())).unwrap_err().contains("disk full"));

    let d = Delivered {
        provider: "wall".to_string(),
        command: "wall".to_string(),
        detail: String::new(),
    };
    let v = parsed(sent_reply(&d, &Speech::NotAsked, &Ok("n-2".to_string())));
    assert_eq!(v["provider"], "wall");
    assert_eq!(v["id"], "n-2");
    let v = parsed(sent_reply(
        &d,
        &Speech::Failed { error: "no tts".to_string() },
        &Err("disk full".to_string()),
    ));
    assert!(v.to_string().contains("no tts"), "{v}");
}

#[test]
fn speech_is_asked_for_only_when_wanted() {
    let mut p = n("hello");
    assert_eq!(speech_text(&p), None);
    p.speak = true;
    p.title = "T".to_string();
    assert_eq!(speech_text(&p), Some("T: hello".to_string()));
    let e = audit_entry(&p, ProviderKind::Wall, &Speech::Spoken);
    assert_eq!(e.provider, "wall");
    assert!(e.delivered && e.spoken && !e.silent && !e.read);
}

#[test]
fn delivery_is_planned_per_provider() {
    let mut p = n("hello");
    p.title = "T".to_string();
    let wall = plan_delivery(ProviderKind::Wall, &p, &all_providers(), EVERYTHING, None).unwrap();
    assert_eq!(wall.bin, "wall");
    assert_eq!(wall.args, vec!["T: hello"]);
    let old = Installed { espeak_ng: false, ..EVERYTHING };
    let speak = plan_delivery(ProviderKind::Espeak, &p, &all_providers(), old, None).unwrap();
    assert_eq!(speak.bin, "espeak");
    let err = plan_delivery(ProviderKind::Wall, &p, &vec![], EVERYTHING, None).unwrap_err();
    assert!(err.contains("wall"), "{err}");
    let err =
        plan_delivery(ProviderKind::Wall, &p, &all_providers(), NOTHING, None).unwrap_err();
    assert_eq!(err, missing_binary("wall"));
}

#[test]
fn commands_report_how_they_ended() {
    let ok = CommandOutcome::Exited {
        success: true,
        status: "exit status: 0".to_string(),
        stdout: b" done \n".to_vec(),
        stderr: vec![],
    };
    assert_eq!(command_result("wall", ok), Ok("done".to_string()));
    let bad = CommandOutcome::Exited {
        success: false,
        status: "exit status: 2".to_string(),
        stdout: vec![],
        stderr: b"nope".to_vec(),
    };
    let err = delivered(ProviderKind::Wall, "wall", bad).unwrap_err();
    assert!(err.contains("exit status: 2") && err.contains("nope"), "{err}");
    let err = command_result("wall", CommandOutcome::SpawnFailed { error: "boom".to_string() })
        .unwrap_err();
    assert!(err.contains("boom"), "{err}");
}

#[test]
fn decoded_audio_is_played_in_a_plain_format() {
    let players = Players { paplay: true, pw_play: false, aplay: false, ffplay: false };
    let p = play_decoded("wav".to_string(), Ok(vec![1]), &None, players).unwrap();
    assert_eq!((p.player.as_str(), p.format.as_str(), p.audio), ("paplay", "wav", vec![1]));
    assert_eq!(
        play_decoded("pcm".to_string(), Ok(vec![1]), &None, players),
        Err("pcm format is not directly playable; use wav".to_string())
    );
    assert_eq!(
        play_decoded("../x".to_string(), Ok(vec![1]), &None, players),
        Err("invalid tts audio format '../x'".to_string())
    );
    assert_eq!(
        play_decoded("wav".to_string(), Err("bad".to_string()), &None, players),
        Err("failed to decode tts audio: bad".to_string())
    );
    assert!(play_decoded("mp3".to_string(), Ok(vec![1]), &None, players).is_err());
}

#[test]
fn playback_decodes_the_audio_and_picks_a_player() {
    let players = Players { paplay: false, pw_play: true, aplay: true, ffplay: true };
    assert_eq!(pick_player("wav", &None, players), Ok("pw-play".to_string()));
    assert_eq!(pick_player("mp3", &None, players), Ok("ffplay".to_string()));
    assert_eq!(
        pick_player("mp3", &Some("mpv".to_string()), players),
        Ok("mpv".to_string())
    );
    let reply = TtsReply::Answered {
        format: "wav".to_string(),
        audio_base64: "AAEC/w==".to_string(),
    };
    let p = plan_playback(reply, &None, players).unwrap();
    assert_eq!(p.audio, vec![0, 1, 2, 255]);
    assert_eq!(p.player, "pw-play");
    let reply = TtsReply::Answered { format: "wav".to_string(), audio_base64: "*".to_string() };
    assert!(plan_playback(reply, &None, players).is_err());
    for reply in [
        TtsReply::CallFailed { error: "boom".to_string() },
        TtsReply::Refused { error: "boom".to_string() },
        TtsReply::Undecodable { error: "boom".to_string() },
    ] {
        assert!(plan_playback(reply, &None, players).unwrap_err().contains("boom"));
    }
    let name = audio_file_name(7, 9, "wav");
    assert!(name.ends_with(".wav"), "{name}");
    assert!(!name.contains('/'));
}
