use vynkor_plugins::sound::{
    build_args, exit_code, player_chain, spawn_error, Config, Poll, SpawnFailure, Volume,
    DEFAULT_MAX_BYTES,
};

fn vol(v: f64) -> Volume {
    Volume {
        unity: (v - 1.0).abs() < f64::EPSILON,
        text: format!("{v}"),
        percent: (v * 100.0).round() as i64,
    }
}

#[test]
fn wav_chain_tries_pwcat_paplay_aplay() {
    assert_eq!(
        player_chain(true, &vol(1.0), None, None).unwrap(),
        vec!["pw-cat", "paplay", "aplay"]
    );
}

#[test]
fn non_wav_goes_straight_to_ffplay() {
    assert_eq!(player_chain(false, &vol(1.0), None, None).unwrap(), vec!["ffplay"]);
}

#[test]
fn volume_request_drops_aplay_from_wav_chain() {
    assert_eq!(player_chain(true, &vol(1.5), None, None).unwrap(), vec!["pw-cat", "paplay"]);
}

#[test]
fn device_request_on_non_wav_names_the_conflict() {
    let err = player_chain(false, &vol(1.0), Some("bluez_sink"), None).unwrap_err();
    assert!(err.contains("ERR_SOUND_PROVIDER_MISSING"), "{err}");
    assert!(err.contains("device"), "{err}");

    // wav chain keeps all three — all support device targeting.
    assert_eq!(
        player_chain(true, &vol(1.0), Some("bluez_sink"), None).unwrap(),
        vec!["pw-cat", "paplay", "aplay"]
    );
}

#[test]
fn volume_plus_device_conflict_names_both_constraints() {
    let err = player_chain(false, &vol(2.0), Some("usb"), None).unwrap_err();
    assert!(err.contains("both volume and device"), "{err}");
}

#[test]
fn override_pins_single_backend_and_skips_filtering() {
    // Even though aplay has no volume flag, the operator's pin wins.
    assert_eq!(player_chain(true, &vol(3.0), None, Some("aplay")).unwrap(), vec!["aplay"]);
    // Unknown override passes through verbatim.
    assert_eq!(
        player_chain(false, &vol(1.0), None, Some("my-player")).unwrap(),
        vec!["my-player"]
    );
}

#[test]
fn args_pwcat_playback_volume_target_then_file_last() {
    let args = build_args("pw-cat", "/tmp/a.wav", &vol(1.5), Some("sink0"));
    assert_eq!(args, vec!["--playback", "--volume=1.5", "--target=sink0", "/tmp/a.wav"]);
}

#[test]
fn args_paplay_omits_device_when_unset() {
    let args = build_args("paplay", "/tmp/a.wav", &vol(1.0), None);
    assert_eq!(args, vec!["--volume=1", "/tmp/a.wav"]);
}

#[test]
fn args_aplay_uses_dash_d_for_device() {
    let args = build_args("aplay", "/tmp/a.wav", &vol(1.0), Some("hw:0"));
    assert_eq!(args, vec!["-q", "-D", "hw:0", "/tmp/a.wav"]);
}

#[test]
fn args_ffplay_percent_volume_and_quiet_flags() {
    let args = build_args("ffplay", "/tmp/a.mp3", &vol(0.5), None);
    assert_eq!(
        args,
        vec![
            "-nodisp",
            "-autoexit",
            "-loglevel",
            "error",
            "-volume",
            "50",
            "/tmp/a.mp3"
        ]
    );
}

#[test]
fn args_unknown_player_passes_file_through() {
    let args = build_args("my-player", "/tmp/a.flac", &vol(2.0), Some("x"));
    assert_eq!(args, vec!["/tmp/a.flac"]);
}

#[test]
fn real_spawner_missing_binary_maps_to_provider_missing() {
    let err = spawn_error("definitely-not-a-real-audio-bin-xyz", SpawnFailure::NotFound);
    assert!(err.contains("ERR_SOUND_PROVIDER_MISSING"), "{err}");
    let err = spawn_error("aplay", SpawnFailure::Other { error: "denied".to_string() });
    assert!(err.contains("denied"), "{err}");
}

#[test]
fn a_polled_process_reports_its_exit() {
    assert_eq!(exit_code(Poll::Running), None);
    assert_eq!(exit_code(Poll::Exited { code: Some(0) }), Some(0));
    assert_eq!(exit_code(Poll::Exited { code: None }), Some(-1));
    assert_eq!(exit_code(Poll::Failed), Some(-1));
}

#[test]
fn sound_configuration() {
    let c = Config::from_env(&None, &None, &Some(" ".to_string()), "/tmp".to_string());
    assert_eq!(c.max_bytes, DEFAULT_MAX_BYTES);
    assert_eq!(c.player_override, None);
    assert_eq!(c.default_device, None);
    assert_eq!(c.temp_dir, "/tmp");
    let c = Config::from_env(
        &Some("9".to_string()),
        &Some("aplay".to_string()),
        &Some("hw:0".to_string()),
        "/tmp".to_string(),
    );
    assert_eq!(c.max_bytes, 9);
    assert_eq!(c.player_override.as_deref(), Some("aplay"));
    assert_eq!(c.default_device.as_deref(), Some("hw:0"));
}
