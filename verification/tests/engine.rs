use loxia::audio::commands::{
    command_calls, device_rollback, EngineCommand, PlayerCall, CMD_LOADFILE, CMD_STOP, LOADFILE_APPEND,
    LOADFILE_REPLACE, OPT_REPLAYGAIN,
};
use loxia::audio::error::AudioError;
use loxia::audio::mpv::{PROP_AUDIO_DEVICE, PROP_MUTE, PROP_PAUSE, PROP_VOLUME};
use loxia::config::schema::ReplayGainMode;
use loxia::effect::RedactedUrl;

fn strings(v: &[&str]) -> Vec<String> {
    v.iter().map(|s| s.to_string()).collect()
}

#[test]
fn command_mapping_table() {
    let load = EngineCommand::Load {
        url: RedactedUrl::new("http://host/track.flac".to_string()),
        options: "start=5".to_string(),
    };
    assert_eq!(
        command_calls(&load),
        vec![
            PlayerCall::Command {
                name: CMD_LOADFILE,
                args: strings(&["http://host/track.flac", LOADFILE_REPLACE, "0", "start=5"]),
            },
            PlayerCall::SetFlag { name: PROP_PAUSE, value: false },
        ]
    );

    let cases = vec![
        (EngineCommand::Play, PlayerCall::SetFlag { name: PROP_PAUSE, value: false }),
        (EngineCommand::Pause, PlayerCall::SetFlag { name: PROP_PAUSE, value: true }),
        (EngineCommand::Stop, PlayerCall::Command { name: CMD_STOP, args: vec![] }),
        (EngineCommand::SetVolume(42), PlayerCall::SetNumber { name: PROP_VOLUME, value: 42 }),
        (EngineCommand::SetMute(true), PlayerCall::SetFlag { name: PROP_MUTE, value: true }),
        (
            EngineCommand::SetDevice("alsa/hw:0,0".to_string()),
            PlayerCall::SetText { name: PROP_AUDIO_DEVICE, value: "alsa/hw:0,0".to_string() },
        ),
        (
            EngineCommand::SetReplayGain(ReplayGainMode::Track),
            PlayerCall::SetText { name: OPT_REPLAYGAIN, value: "track".to_string() },
        ),
    ];
    for (cmd, expected) in cases {
        assert_eq!(command_calls(&cmd), vec![expected]);
    }
}

#[test]
fn a_load_without_options_leaves_the_options_out() {
    let load = EngineCommand::Load { url: RedactedUrl::new("http://host/t".to_string()), options: String::new() };
    assert_eq!(
        command_calls(&load)[0],
        PlayerCall::Command { name: CMD_LOADFILE, args: strings(&["http://host/t", LOADFILE_REPLACE]) }
    );
}

#[test]
fn a_preload_appends_and_leaves_pause_alone() {
    let preload = EngineCommand::Preload {
        url: RedactedUrl::new("http://host/next".to_string()),
        options: "http-header-fields=%8%X-A: one".to_string(),
    };
    assert_eq!(
        command_calls(&preload),
        vec![PlayerCall::Command {
            name: CMD_LOADFILE,
            args: strings(&["http://host/next", LOADFILE_APPEND, "0", "http-header-fields=%8%X-A: one"]),
        }]
    );
}

#[test]
fn device_listing_and_shutdown_make_no_call() {
    assert!(command_calls(&EngineCommand::EnumerateDevices).is_empty());
    assert!(command_calls(&EngineCommand::Shutdown).is_empty());
}

#[test]
fn a_failed_call_names_what_it_addressed() {
    let call = PlayerCall::SetFlag { name: PROP_PAUSE, value: true };
    assert_eq!(
        call.failure("property unavailable".to_string()),
        AudioError::Command { cmd: "pause", detail: "property unavailable".to_string() }
    );
}

#[test]
fn set_device_restores_previous_on_failure() {
    let (restore, err) = device_rollback("bogus/does-not-exist".to_string(), Some("alsa/hw:0,0".to_string()));
    assert!(matches!(err, AudioError::DeviceUnavailable { ref id } if id == "bogus/does-not-exist"));
    assert_eq!(restore, Some(PlayerCall::SetText { name: PROP_AUDIO_DEVICE, value: "alsa/hw:0,0".to_string() }));
}

#[test]
fn a_failed_swap_with_no_readable_device_restores_nothing() {
    let (restore, err) = device_rollback("x".to_string(), None);
    assert_eq!(restore, None);
    assert_eq!(err, AudioError::DeviceUnavailable { id: "x".to_string() });
}

#[test]
fn set_device_succeeds_without_touching_the_previous_device() {
    assert_eq!(
        command_calls(&EngineCommand::SetDevice("alsa/hw:1,0".to_string())),
        vec![PlayerCall::SetText { name: PROP_AUDIO_DEVICE, value: "alsa/hw:1,0".to_string() }]
    );
}
