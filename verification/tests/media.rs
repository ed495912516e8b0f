use serde_json::Value;
use vynkor_plugins::media::{
    done_reply, is_allowed, list_players, load_policy, parse_action, parse_metadata, player_calls,
    players_reply, read_params, resolve_player, seek_offset, status_reply, target_player,
    MediaMetadata, MediaRequest, MetaValue, PlayerPolicy, Refused,
};
use vynkor_plugins::strmap::StrMap;

fn s(v: &str) -> MetaValue {
    MetaValue::Text { text: v.to_string() }
}

fn arr_str(vals: &[&str]) -> MetaValue {
    MetaValue::List { items: vals.iter().map(|v| Some(v.to_string())).collect() }
}

fn meta(pairs: Vec<(&str, MetaValue)>) -> MediaMetadata {
    let mut m: StrMap<MetaValue> = StrMap::new();
    for (k, v) in pairs {
        m.insert(k.to_string(), v);
    }
    parse_metadata(&m)
}

fn open_policy() -> PlayerPolicy {
    load_policy(&None, &None)
}

#[test]
fn parse_empty() {
    let p = meta(vec![]);
    assert!(p.title.is_none());
    assert!(p.artists.is_empty());
    assert!(p.length_micros.is_none());
}

#[test]
fn parse_full() {
    let p = meta(vec![
        ("xesam:title", s("Song")),
        ("xesam:artist", arr_str(&["Alice", "Bob"])),
        ("xesam:album", s("Album X")),
        ("mpris:length", MetaValue::Signed { value: 210_000_000 }),
        ("mpris:trackid", s("/org/mpris/MediaPlayer2/Track/1")),
        ("mpris:artUrl", s("https://example.com/cover.jpg")),
    ]);
    assert_eq!(p.title.as_deref(), Some("Song"));
    assert_eq!(p.artists, vec!["Alice", "Bob"]);
    assert_eq!(p.album.as_deref(), Some("Album X"));
    assert_eq!(p.length_micros, Some(210_000_000));
    assert_eq!(p.track_id.as_deref(), Some("/org/mpris/MediaPlayer2/Track/1"));
    assert_eq!(p.art_url.as_deref(), Some("https://example.com/cover.jpg"));
}

#[test]
fn parse_artist_single_string() {
    let p = meta(vec![("xesam:artist", s("Solo"))]);
    assert_eq!(p.artists, vec!["Solo"]);
}

#[test]
fn parse_artist_array() {
    let p = meta(vec![("xesam:artist", arr_str(&["A", "B", "C"]))]);
    assert_eq!(p.artists, vec!["A", "B", "C"]);
}

#[test]
fn parse_length_u64() {
    let p = meta(vec![("mpris:length", MetaValue::Unsigned { value: 123_456_789 })]);
    assert_eq!(p.length_micros, Some(123_456_789));
}

#[test]
fn parse_missing_length() {
    let p = meta(vec![("xesam:title", s("No length"))]);
    assert!(p.length_micros.is_none());
}

#[test]
fn resolve_first_available() {
    let names = vec![
        "org.mpris.MediaPlayer2.spotify".to_string(),
        "org.mpris.MediaPlayer2.vlc".to_string(),
    ];
    let players = list_players(Ok(names), &open_policy()).unwrap();
    assert!(players.contains(&"org.mpris.MediaPlayer2.spotify".to_string()));
    let resolved = resolve_player(None, &players, &open_policy()).unwrap();
    assert_eq!(resolved, "org.mpris.MediaPlayer2.spotify");
}

#[test]
fn list_players_filters_prefix() {
    let names = vec![
        "org.mpris.MediaPlayer2.spotify".to_string(),
        "org.freedesktop.DBus".to_string(),
        ":1.42".to_string(),
    ];
    let players = list_players(Ok(names), &open_policy()).unwrap();
    assert_eq!(players, vec!["org.mpris.MediaPlayer2.spotify"]);
    assert!(list_players(Err("no bus".to_string()), &open_policy()).is_err());
}

#[test]
fn only_permitted_players_are_resolved() {
    let (spotify, vlc) = ("org.mpris.MediaPlayer2.spotify", "org.mpris.MediaPlayer2.vlc");
    let policy = load_policy(&Some(format!(" {vlc} ,")), &None);
    assert!(is_allowed(&policy, vlc));
    assert!(!is_allowed(&policy, spotify));
    let players = vec![spotify.to_string(), vlc.to_string()];
    let err = resolve_player(Some(spotify), &players, &policy).unwrap_err();
    assert!(err.contains("ERR_MEDIA_PLAYER_NOT_ALLOWED"), "{err}");
    assert_eq!(resolve_player(Some(vlc), &players, &policy).unwrap(), vlc);
    assert_eq!(resolve_player(None, &players, &policy).unwrap(), vlc);
    let err = resolve_player(Some("nope"), &players, &open_policy()).unwrap_err();
    assert!(err.starts_with("ERR_MEDIA_PLAYER_NOT_FOUND: 'nope' not available"), "{err}");
    assert!(err.contains(r#"["org.mpris.MediaPlayer2.spotify", "#), "{err}");
    let err = resolve_player(None, &Vec::new(), &open_policy()).unwrap_err();
    assert!(err.contains("ERR_MEDIA_NO_PLAYERS"), "{err}");
    let policy = load_policy(&None, &Some(vlc.to_string()));
    assert_eq!(resolve_player(None, &players, &policy).unwrap(), vlc);
    let policy = load_policy(&Some(vlc.to_string()), &Some(spotify.to_string()));
    let err = resolve_player(None, &players, &policy).unwrap_err();
    assert!(err.contains("default 'org.mpris.MediaPlayer2.spotify'"), "{err}");
}

#[test]
fn actions_become_requests_and_calls() {
    let params = || read_params(b"{}").unwrap();
    let pause = parse_action("media_pause", params()).unwrap();
    assert_eq!(pause, MediaRequest::Pause);
    let calls = player_calls(&pause);
    assert_eq!(calls.len(), 1);
    assert_eq!(calls[0].method, "Pause");
    let play = parse_action(
        "media_play",
        read_params(br#"{"uri": "file:///a.mp3", "player": "vlc"}"#).unwrap(),
    )
    .unwrap();
    let calls = player_calls(&play);
    assert_eq!(calls[0].method, "OpenUri");
    assert_eq!(calls[0].arg.as_deref(), Some("file:///a.mp3"));
    assert_eq!(calls[1].method, "Play");
    assert!(matches!(
        parse_action("media_nope", params()),
        Err(Refused::NotFound { .. })
    ));
    assert!(matches!(parse_action("media_seek", params()), Err(Refused::Failed { .. })));
    let seek = parse_action("media_seek", read_params(br#"{"position_ms": 1500}"#).unwrap());
    assert_eq!(seek, Ok(MediaRequest::Seek { position_ms: 1500 }));
    assert!(read_params(b"{").is_err());
}

#[test]
fn seeking_is_relative_to_the_position() {
    assert_eq!(seek_offset(1500, Some(500_000)), 1_000_000);
    assert_eq!(seek_offset(0, Some(7)), -7);
    assert_eq!(seek_offset(2, None), 2_000);
}

#[test]
fn replies_report_what_was_done() {
    assert_eq!(done_reply(&MediaRequest::Pause, None), r#"{"ok":true}"#);
    assert_eq!(
        done_reply(&MediaRequest::PlayPause, Some("Playing")),
        r#"{"ok":true,"playing":true}"#
    );
    assert_eq!(
        done_reply(&MediaRequest::PlayPause, Some("Paused")),
        r#"{"ok":true,"playing":false}"#
    );
    assert_eq!(
        done_reply(&MediaRequest::Seek { position_ms: 1500 }, None),
        r#"{"position_ms":1500}"#
    );
    let v: Value = serde_json::from_str(&players_reply(&vec!["a\"b".to_string()])).unwrap();
    assert_eq!(v["players"][0], "a\"b");
}

#[test]
fn status_reports_metadata_and_position() {
    let m = meta(vec![("xesam:title", s("Song")), ("xesam:artist", s("Solo"))]);
    let text = status_reply("vlc", None, "0.5", Some(1_500_000), &m);
    let v: Value = serde_json::from_str(&text).unwrap();
    assert_eq!(v["player"], "vlc");
    assert_eq!(v["status"], "Stopped");
    assert_eq!(v["position_ms"], 1500);
    assert_eq!(v["volume"], 0.5);
    assert_eq!(v["metadata"]["title"], "Song");
}

#[test]
fn status_without_players_says_so_first() {
    let policy = open_policy();
    let err = target_player(&MediaRequest::Status, Some("vlc"), &Vec::new(), &policy).unwrap_err();
    assert!(err.contains("ERR_MEDIA_NO_PLAYERS"), "{err}");
    let err = target_player(&MediaRequest::Pause, Some("vlc"), &Vec::new(), &policy).unwrap_err();
    assert!(err.contains("ERR_MEDIA_PLAYER_NOT_FOUND"), "{err}");
}
