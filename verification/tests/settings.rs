use std::path::PathBuf;
use std::time::Duration;

use loxia::audio::backend::{AudioEvent, PlayStatus};
use loxia::audio::error::AudioError;
use loxia::audio::mock::{MockCommand, MockState, TrackProfile};
use loxia::audio::mpv::{device_from_pairs, devices_from_maps, loadfile_args};
use loxia::config::schema::{Direction, ServerConfig, ServerEndpoint, SortField, SortProfile, SortRule, SortingConfig};
use loxia::config::validate::{
    clamp_prefetch_next, dedup_eq_preset_names, dedup_server_ids, ensure_device_id, resolve_active_server,
    resolve_default_queue_profile, storage_server_id, strip_reserved_headers, truncate_sort_rules, uuid_from_bits,
    validate_log_level, validate_server_url, validate_theme,
};
use loxia::config::Severity;
use loxia::effect::RedactedUrl;
use loxia::model::audio_meta::{AudioDevice, AudioFormat, Codec};
use loxia::model::ids::{ItemId, ServerId};
use loxia::model::item::Track;
use loxia::model::now_playing::format_now_playing;
use loxia::paths::{FixedDirs, PathError, Paths};
use loxia::audio::mpv::{PropertyTranslator, PropertyValue};

// ------------------------------------------------------------------ configuration

fn server(id: &str) -> ServerConfig {
    ServerConfig {
        id: id.to_string(),
        name: String::new(),
        url: "https://example.com".to_string(),
        user_id: String::new(),
        access_token: String::new(),
        device_id: String::new(),
        custom_headers: Vec::new(),
        server_id: String::new(),
        fallbacks: Vec::new(),
    }
}

#[test]
fn reserved_custom_header_is_stripped() {
    let mut s = server("s1");
    s.custom_headers.push(("Authorization".to_string(), "x".to_string()));
    s.custom_headers.push(("X-Custom".to_string(), "y".to_string()));
    let warnings = strip_reserved_headers(&mut s);
    assert_eq!(s.custom_headers.len(), 1);
    assert_eq!(s.custom_headers[0].0, "X-Custom");
    assert!(warnings.iter().any(|w| w.field == "servers.custom_headers"));
    assert_eq!(warnings[0].message, "header \"Authorization\" is set by loxia and cannot be overridden; removed");
}

#[test]
fn reserved_headers_are_stripped_from_fallbacks_too() {
    let mut s = server("s1");
    s.fallbacks.push(ServerEndpoint {
        url: "https://lan".to_string(),
        custom_headers: vec![("HOST".to_string(), "h".to_string()), ("CF-Access".to_string(), "c".to_string())],
    });
    let warnings = strip_reserved_headers(&mut s);
    assert_eq!(warnings.len(), 1);
    assert_eq!(s.fallbacks[0].custom_headers.len(), 1);
    assert_eq!(s.fallbacks[0].url, "https://lan");
}

#[test]
fn duplicate_server_ids_deduped_keeping_first() {
    let mut first = server("dup");
    first.name = "First".to_string();
    let mut second = server("dup");
    second.name = "Second".to_string();
    let mut servers = vec![first, second];
    let warning = dedup_server_ids(&mut servers);
    assert_eq!(servers.len(), 1);
    assert_eq!(servers[0].name, "First");
    assert_eq!(warning.unwrap().field, "servers");
    let mut distinct = vec![server("a"), server("b")];
    assert!(dedup_server_ids(&mut distinct).is_none());
    assert_eq!(distinct.len(), 2);
}

#[test]
fn sort_profile_truncated_to_four_rules() {
    let rule = |field| SortRule { field, direction: Direction::Asc };
    let mut sorting = SortingConfig {
        default_queue_profile: "p".to_string(),
        profiles: vec![SortProfile {
            name: "p".to_string(),
            rules: vec![rule(SortField::Name), rule(SortField::Artist), rule(SortField::Album), rule(SortField::Year), rule(SortField::Genre)],
        }],
    };
    let warnings = truncate_sort_rules(&mut sorting);
    assert_eq!(sorting.profiles[0].rules.len(), 4);
    assert!(warnings.iter().any(|w| w.field == "sorting.profiles.rules"));
    assert_eq!(warnings[0].message, "sort profile \"p\" had more than 4 rules; truncated");
}

#[test]
fn empty_device_id_is_generated_and_stable() {
    let mut s = server("s1");
    let warning = ensure_device_id(&mut s).unwrap();
    assert_eq!(warning.severity, Severity::Info);
    let first_id = s.device_id.clone();
    assert!(!first_id.is_empty());
    assert_eq!(first_id.len(), 36);
    assert!(ensure_device_id(&mut s).is_none());
    assert_eq!(s.device_id, first_id);
}

#[test]
fn uuid_text_has_version_and_variant() {
    assert_eq!(uuid_from_bits(0), "00000000-0000-4000-8000-000000000000");
    assert_eq!(uuid_from_bits(u128::MAX), "ffffffff-ffff-4fff-bfff-ffffffffffff");
    assert_eq!(uuid_from_bits(0x0123_4567_89ab_cdef_0123_4567_89ab_cdef), "01234567-89ab-4def-8123-456789abcdef");
}

#[test]
fn custom_preset_colliding_with_factory_is_renamed() {
    let mut names = vec!["flat".to_string(), "mine".to_string()];
    let warnings = dedup_eq_preset_names(&mut names);
    assert_eq!(names[0], "flat (custom)");
    assert_eq!(names[1], "mine");
    assert!(warnings.iter().any(|w| w.field == "equalizer.custom_presets"));
    assert_eq!(warnings[0].message, "custom preset \"flat\" collides with a factory preset; renamed to \"flat (custom)\"");
}

#[test]
fn single_server_selected_as_active_when_unset() {
    let servers = vec![server("only")];
    let mut active = String::new();
    let w = resolve_active_server(&servers, &mut active).unwrap();
    assert_eq!(active, "only");
    assert_eq!(w.severity, Severity::Info);
}

#[test]
fn active_server_not_matching_any_is_cleared() {
    let servers = vec![server("a"), server("b")];
    let mut active = "c".to_string();
    let w = resolve_active_server(&servers, &mut active).unwrap();
    assert_eq!(active, "");
    assert_eq!(w.severity, Severity::Warning);
    let mut none_at_all = String::new();
    assert!(resolve_active_server(&Vec::new(), &mut none_at_all).is_none());
}

#[test]
fn non_http_urls_are_reported() {
    let mut s = server("s1");
    s.url = "ftp://x".to_string();
    s.fallbacks.push(ServerEndpoint { url: "http://ok".to_string(), custom_headers: Vec::new() });
    s.fallbacks.push(ServerEndpoint { url: String::new(), custom_headers: Vec::new() });
    let warnings = validate_server_url(&s);
    assert_eq!(warnings.len(), 2);
    assert_eq!(warnings[0].message, "server \"s1\" has an empty or non-http(s) url");
    assert_eq!(warnings[1].message, "server \"s1\" fallback 1 has an empty or non-http(s) url");
}

#[test]
fn default_queue_profile_falls_back_to_the_first() {
    let mut sorting = SortingConfig {
        default_queue_profile: "gone".to_string(),
        profiles: vec![SortProfile { name: "first".to_string(), rules: Vec::new() }],
    };
    assert!(resolve_default_queue_profile(&mut sorting).is_some());
    assert_eq!(sorting.default_queue_profile, "first");
    assert!(resolve_default_queue_profile(&mut sorting).is_none());
}

#[test]
fn unknown_theme_falls_back_with_warning() {
    let mut theme = "not_a_theme".to_string();
    let w = validate_theme(&mut theme).unwrap();
    assert_eq!(theme, "default_terminal");
    assert_eq!(w.field, "ui.theme");
    assert_eq!(w.message, "unknown theme \"not_a_theme\"; using default_terminal");
    let mut shipped = "oled_black".to_string();
    assert!(validate_theme(&mut shipped).is_none());
    assert_eq!(shipped, "oled_black");
}

#[test]
fn prefetch_and_log_level_are_repaired() {
    let mut p = 50u8;
    let w = clamp_prefetch_next(&mut p).unwrap();
    assert_eq!(p, 10);
    assert_eq!(w.message, "prefetch_next must be at most 10; clamped from 50");
    let mut level = "LOUD".to_string();
    assert!(validate_log_level(&mut level).is_some());
    assert_eq!(level, "info");
    let mut ok = "DEBUG".to_string();
    assert!(validate_log_level(&mut ok).is_none());
    assert_eq!(ok, "DEBUG");
}

#[test]
fn storage_is_keyed_on_the_servers_own_id() {
    let mut s = server("profile");
    s.server_id = "abc123".to_string();
    assert_eq!(storage_server_id(&vec![s], "profile"), "abc123");
    assert_eq!(storage_server_id(&vec![server("profile")], "profile"), "profile");
    assert_eq!(storage_server_id(&Vec::new(), "x"), "x");
}

// ------------------------------------------------------------------ paths

fn linux_dirs() -> FixedDirs {
    FixedDirs::new(
        Some(PathBuf::from("/home/u/.config")),
        Some(PathBuf::from("/home/u/.cache")),
        Some(PathBuf::from("/home/u/.local/share")),
        Some(PathBuf::from("/home/u/.local/state")),
    )
}

#[test]
fn linux_layout_matches_spec() {
    let paths = Paths::resolve(&linux_dirs(), "auto", "auto", false).unwrap();
    assert_eq!(paths.config_file(), PathBuf::from("/home/u/.config/loxia-player/config.toml"));
    assert_eq!(paths.cache_root(), &PathBuf::from("/home/u/.cache/loxia-player"));
    assert_eq!(paths.tracks_dir(), PathBuf::from("/home/u/.cache/loxia-player/tracks"));
    assert_eq!(paths.images_dir(), PathBuf::from("/home/u/.cache/loxia-player/images"));
    assert_eq!(paths.cache_index_file(), PathBuf::from("/home/u/.cache/loxia-player/cache_index.json"));
    assert_eq!(paths.downloads_root(), &PathBuf::from("/home/u/.local/share/loxia-player"));
    assert_eq!(paths.state_root(), &PathBuf::from("/home/u/.local/state/loxia-player"));
    assert_eq!(paths.session_file(), PathBuf::from("/home/u/.local/state/loxia-player/session.json"));
    assert_eq!(paths.history_file(), PathBuf::from("/home/u/.local/state/loxia-player/history.json"));
    assert_eq!(paths.scrobbles_file(), PathBuf::from("/home/u/.local/state/loxia-player/scrobbles.json"));
    assert_eq!(paths.log_dir(), PathBuf::from("/home/u/.local/state/loxia-player"));
    assert_eq!(
        paths.session_file_for(&ServerId::from("srv1")),
        PathBuf::from("/home/u/.local/state/loxia-player/session-srv1.json")
    );
}

#[test]
fn macos_state_falls_back_to_data_dir() {
    let dirs = FixedDirs::new(
        Some(PathBuf::from("/Users/u/Library/Application Support")),
        Some(PathBuf::from("/Users/u/Library/Caches")),
        Some(PathBuf::from("/Users/u/Library/Application Support")),
        None,
    );
    let paths = Paths::resolve(&dirs, "auto", "auto", false).unwrap();
    assert_eq!(paths.state_root(), paths.downloads_root());
}

#[test]
fn windows_state_falls_back_to_data_dir() {
    let dirs = FixedDirs::new(
        Some(PathBuf::from(r"C:\Users\u\AppData\Roaming")),
        Some(PathBuf::from(r"C:\Users\u\AppData\Local")),
        Some(PathBuf::from(r"C:\Users\u\AppData\Roaming")),
        None,
    );
    let paths = Paths::resolve(&dirs, "auto", "auto", false).unwrap();
    assert_eq!(paths.state_root(), paths.downloads_root());
}

#[test]
fn nested_cache_root_adds_a_cache_segment() {
    let paths = Paths::resolve(&linux_dirs(), "auto", "auto", true).unwrap();
    assert_eq!(paths.cache_root(), &PathBuf::from("/home/u/.cache/loxia-player/cache"));
}

#[test]
fn auto_resolves_to_platform_base() {
    let paths = Paths::resolve(&linux_dirs(), "auto", "auto", false).unwrap();
    assert_eq!(paths.cache_root(), &PathBuf::from("/home/u/.cache/loxia-player"));
}

#[test]
fn absolute_override_is_honoured() {
    let paths = Paths::resolve(&linux_dirs(), "/mnt/bigdisk/loxia-cache", "auto", false).unwrap();
    assert_eq!(paths.cache_root(), &PathBuf::from("/mnt/bigdisk/loxia-cache"));
}

#[test]
fn relative_override_is_rejected() {
    let err = Paths::resolve(&linux_dirs(), "relative/path", "auto", false).err().unwrap();
    assert!(matches!(err, PathError::Relative(ref s) if s == "relative/path"));
    assert_eq!(err.to_string(), "path override must be absolute, got a relative path: relative/path");
}

#[test]
fn missing_base_dir_is_an_error() {
    let dirs = FixedDirs::new(None, Some(PathBuf::from("/x")), Some(PathBuf::from("/y")), None);
    let err = Paths::resolve(&dirs, "auto", "auto", false).err().unwrap();
    assert!(matches!(err, PathError::NoBaseDir));
}

#[test]
fn resolve_performs_no_io() {
    let dirs = FixedDirs::new(
        Some(PathBuf::from("/does/not/exist/config")),
        Some(PathBuf::from("/does/not/exist/cache")),
        Some(PathBuf::from("/does/not/exist/data")),
        Some(PathBuf::from("/does/not/exist/state")),
    );
    let paths = Paths::resolve(&dirs, "auto", "auto", false).unwrap();
    assert_eq!(paths.cache_root(), &PathBuf::from("/does/not/exist/cache/loxia-player"));
}

// ------------------------------------------------------------------ now playing

fn motion(year: Option<u16>) -> Track {
    Track {
        id: ItemId::from("t1"),
        name: "Motion".to_string(),
        album_id: Some(ItemId::from("al-care")),
        album_name: "Care".to_string(),
        album_artist_names: vec!["Boy Harsher".to_string()],
        artist_ids: vec![ItemId::from("ar-bh")],
        artist_names: vec!["Boy Harsher".to_string()],
        track_number: Some(3),
        disc_number: Some(1),
        year,
        duration: Duration::from_secs(200),
        genres: Vec::new(),
        is_favorite: false,
        play_count: 0,
        format: AudioFormat { codec: Codec::Flac, sample_rate_hz: 44_100, bit_depth: Some(16), channels: 2, bitrate_bps: None },
        image: None,
        media_source_id: None,
        lyric_stream: None,
        date_created: None,
        playlist_entry_id: None,
    }
}

#[test]
fn default_template_matches_the_previous_hardcoded_line() {
    assert_eq!(format_now_playing("{title} — {artist} ({album})", &motion(Some(2019))), "Motion — Boy Harsher (Care)");
}

#[test]
fn a_user_can_reorder_and_add_fields() {
    let t = motion(Some(2019));
    assert_eq!(format_now_playing("{artist} - {title} [year: {year}] {album}", &t), "Boy Harsher - Motion [year: 2019] Care");
    assert_eq!(format_now_playing("{track_number}. {title}", &t), "3. Motion");
}

#[test]
fn a_missing_value_does_not_leave_empty_brackets_or_double_spaces() {
    let t = motion(None);
    assert_eq!(format_now_playing("{title} ({year})", &t), "Motion");
    assert_eq!(format_now_playing("{title} [{year}]", &t), "Motion");
    assert_eq!(format_now_playing("{title} — {year}", &t), "Motion");
}

#[test]
fn an_unknown_placeholder_is_left_verbatim() {
    assert_eq!(format_now_playing("{title} {nope}", &motion(Some(2019))), "Motion {nope}");
}

#[test]
fn an_unclosed_brace_is_literal_text() {
    assert_eq!(format_now_playing("{title} {oops", &motion(Some(2019))), "Motion {oops");
}

#[test]
fn duration_renders_as_minutes_and_seconds() {
    assert_eq!(format_now_playing("{duration}", &motion(None)), "3:20");
}

// ------------------------------------------------------------------ mpv devices and loadfile

fn pairs(items: &[(&str, &str)]) -> Vec<(String, String)> {
    items.iter().map(|(k, v)| (k.to_string(), v.to_string())).collect()
}

#[test]
fn device_map_entries_become_devices() {
    let d = device_from_pairs(&pairs(&[("name", "alsa/hw:0,0"), ("description", "Built-in")])).unwrap();
    assert_eq!(d.id, "alsa/hw:0,0");
    assert_eq!(d.driver, "alsa");
    assert_eq!(d.description, "Built-in");
    let bare = device_from_pairs(&pairs(&[("name", "auto")])).unwrap();
    assert_eq!(bare.description, "auto");
    assert_eq!(bare.driver, "auto");
    assert!(device_from_pairs(&pairs(&[("description", "nameless")])).is_none());
    let all = devices_from_maps(&vec![pairs(&[("name", "pulse/x")]), pairs(&[]), pairs(&[("name", "auto")])]);
    assert_eq!(all.len(), 2);
}

#[test]
fn empty_options_are_left_out_of_loadfile() {
    assert_eq!(loadfile_args("u", "replace", ""), vec!["u".to_string(), "replace".to_string()]);
    assert_eq!(
        loadfile_args("u", "append", "start=1"),
        vec!["u".to_string(), "append".to_string(), "0".to_string(), "start=1".to_string()]
    );
}

// ------------------------------------------------------------------ the test engine

fn load(url: &str) -> MockCommand {
    MockCommand::Load { url: RedactedUrl::new(url.to_string()) }
}

#[test]
fn load_emits_loading_format_playing_in_order() {
    let mut m = MockState::new();
    let events = m.send(load("http://host/track"));
    assert_eq!(events.len(), 3);
    assert!(matches!(events[0], AudioEvent::StatusChanged(PlayStatus::Loading)));
    assert!(matches!(events[1], AudioEvent::Format(_)));
    assert!(matches!(events[2], AudioEvent::StatusChanged(PlayStatus::Playing)));
}

#[test]
fn advance_emits_throttled_position_events() {
    let mut m = MockState::new();
    m.send(load("http://host/track"));
    let events = m.advance(Duration::from_secs(1));
    let positions = events.iter().filter(|e| matches!(e, AudioEvent::Position { .. })).count();
    assert_eq!(positions, 4, "1s of virtual time at 4 Hz must yield 4 events");
}

#[test]
fn reaching_duration_emits_track_ended_natural() {
    let mut m = MockState::new();
    m.seed_track("http://host/track", TrackProfile { duration: Duration::from_millis(500), ..TrackProfile::default() });
    m.send(load("http://host/track"));
    let events = m.advance(Duration::from_secs(2));
    assert!(matches!(events.last(), Some(AudioEvent::TrackEnded { natural: true })));
    assert_eq!(events.iter().filter(|e| matches!(e, AudioEvent::TrackEnded { .. })).count(), 1);
}

#[test]
fn finish_track_forces_track_ended_early() {
    let mut m = MockState::new();
    m.send(load("http://host/track"));
    let events = m.finish_track();
    assert_eq!(events.len(), 1);
    assert!(matches!(events[0], AudioEvent::TrackEnded { natural: true }));
}

#[test]
fn stop_emits_track_ended_not_natural() {
    let mut m = MockState::new();
    m.send(load("http://host/track"));
    let events = m.send(MockCommand::Stop);
    assert_eq!(events.len(), 2);
    assert!(matches!(events[0], AudioEvent::TrackEnded { natural: false }));
    assert!(matches!(events[1], AudioEvent::StatusChanged(PlayStatus::Stopped)));
}

#[test]
fn fail_next_load_emits_error_and_stays_stopped() {
    let mut m = MockState::new();
    m.fail_next_load("offline");
    let events = m.send(load("http://host/track"));
    assert_eq!(events.len(), 1);
    assert!(matches!(&events[0], AudioEvent::Error(AudioError::Load { reason, .. }) if reason == "offline"));
    let events = m.send(load("http://host/track"));
    assert!(matches!(events[0], AudioEvent::StatusChanged(PlayStatus::Loading)));
}

#[test]
fn stall_records_commands_but_emits_nothing() {
    let mut m = MockState::new();
    m.stall(true);
    assert!(m.send(load("http://host/track")).is_empty());
    assert!(m.send(MockCommand::Play).is_empty());
    assert_eq!(m.commands().len(), 2);
}

#[test]
fn load_reports_the_seeded_format_else_the_default() {
    let mut m = MockState::new();
    let events = m.send(load("http://host/plain"));
    let flac = AudioFormat { codec: Codec::Flac, sample_rate_hz: 44_100, bit_depth: Some(16), channels: 2, bitrate_bps: None };
    assert!(matches!(&events[1], AudioEvent::Format(f) if *f == flac));
    let opus = AudioFormat { codec: Codec::Opus, sample_rate_hz: 48_000, bit_depth: None, channels: 2, bitrate_bps: Some(128_000) };
    m.seed_track("http://host/opus", TrackProfile { format: opus.clone(), duration: Duration::from_secs(60) });
    let events = m.send(load("http://host/opus"));
    assert!(matches!(&events[1], AudioEvent::Format(f) if *f == opus));
}

#[test]
fn enumerate_devices_reports_the_device_list() {
    let mut m = MockState::new();
    m.set_devices(vec![builtin()]);
    let events = m.send(MockCommand::EnumerateDevices);
    assert_eq!(events.len(), 1);
    assert!(matches!(&events[0], AudioEvent::Devices(ds) if *ds == vec![builtin()]));
    assert_eq!(m.commands().len(), 1);
}

fn builtin() -> AudioDevice {
    AudioDevice { id: "alsa/hw:0,0".to_string(), description: "Built-in".to_string(), driver: "alsa".to_string() }
}

#[test]
fn set_device_unknown_id_errors() {
    let mut m = MockState::new();
    m.set_devices(vec![builtin()]);
    let events = m.send(MockCommand::SetDevice("pulse/nope".to_string()));
    assert_eq!(events.len(), 1);
    assert!(matches!(&events[0], AudioEvent::Error(AudioError::DeviceUnavailable { id }) if id == "pulse/nope"));
}

#[test]
fn remove_device_then_set_device_errors() {
    let mut m = MockState::new();
    m.set_devices(vec![builtin()]);
    m.remove_device("alsa/hw:0,0");
    let events = m.send(MockCommand::SetDevice("alsa/hw:0,0".to_string()));
    assert!(matches!(events.as_slice(), [AudioEvent::Error(AudioError::DeviceUnavailable { .. })]));
}

#[test]
fn mock_is_deterministic() {
    fn run() -> Vec<String> {
        let mut m = MockState::new();
        m.seed_track("http://host/track", TrackProfile { duration: Duration::from_secs(2), ..TrackProfile::default() });
        let mut events = m.send(load("http://host/track"));
        events.extend(m.advance(Duration::from_millis(750)));
        events.extend(m.send(MockCommand::Pause));
        events.extend(m.advance(Duration::from_secs(5)));
        events.iter().map(|e| format!("{e:?}")).collect()
    }
    let first = run();
    for _ in 0..100 {
        assert_eq!(run(), first);
    }
}

// ------------------------------------------------------------------ schema migration

#[test]
fn absent_schema_version_is_stamped() {
    let (stamp, warning) = loxia::config::migrate::migrate(None);
    assert!(warning.is_none());
    assert_eq!(stamp, Some(loxia::config::migrate::CURRENT_SCHEMA_VERSION));
}

#[test]
fn current_version_is_a_noop() {
    let (stamp, warning) = loxia::config::migrate::migrate(Some(1));
    assert!(warning.is_none());
    assert!(stamp.is_none());
}

#[test]
fn future_version_warns_and_proceeds() {
    let (stamp, warning) = loxia::config::migrate::migrate(Some(999));
    let w = warning.unwrap();
    assert_eq!(w.field, "schema_version");
    assert_eq!(
        w.message,
        "config was written by a newer loxia (schema 999, this build understands 1); some settings may be ignored"
    );
    assert!(stamp.is_none(), "a newer version is left as it is");
}

// ------------------------------------------------------------------ player property stream

#[test]
fn duplicate_property_values_do_not_emit() {
    let mut t = PropertyTranslator::new();
    let first = t.on_property_change("pause", PropertyValue::Flag(true));
    assert!(matches!(first, Some(AudioEvent::StatusChanged(PlayStatus::Paused))));
    assert!(t.on_property_change("pause", PropertyValue::Flag(true)).is_none());
    assert!(matches!(t.on_property_change("pause", PropertyValue::Flag(false)), Some(AudioEvent::StatusChanged(PlayStatus::Playing))));
    assert!(matches!(t.on_property_change("core-idle", PropertyValue::Flag(true)), Some(AudioEvent::StatusChanged(PlayStatus::Buffering))));
    assert!(matches!(t.on_property_change("cache-buffering-state", PropertyValue::Int(150)), Some(AudioEvent::Buffering(100))));
    assert!(t.on_property_change("cache-buffering-state", PropertyValue::Int(100)).is_none());
    assert!(t.on_property_change("no-such-property", PropertyValue::Int(1)).is_none());
}

#[test]
fn format_is_announced_once_the_sample_rate_is_known() {
    let mut t = PropertyTranslator::new();
    assert!(t.on_property_change("audio-codec-name", PropertyValue::Str("flac".to_string())).is_none());
    let f = t.on_property_change("audio-params/samplerate", PropertyValue::Int(44_100));
    assert!(matches!(f, Some(AudioEvent::Format(ref g)) if g.codec == Codec::Flac && g.sample_rate_hz == 44_100));
    assert!(t.on_property_change("audio-params/samplerate", PropertyValue::Int(44_100)).is_none());
}

#[test]
fn a_bitrate_change_re_announces_the_format() {
    let mut t = PropertyTranslator::new();
    assert!(t.set_bitrate(Some(320_000)).is_none(), "no format before a sample rate is known");
    assert!(t.on_property_change("audio-params/samplerate", PropertyValue::Int(44_100)).is_some());
    let f = t.set_bitrate(Some(1_000));
    assert!(matches!(f, Some(AudioEvent::Format(ref g)) if g.bitrate_bps == Some(1_000) && g.sample_rate_hz == 44_100));
    assert!(t.set_bitrate(Some(1_000)).is_none(), "the same bitrate again changes nothing");
    let g = t.set_bitrate(None);
    assert!(matches!(g, Some(AudioEvent::Format(ref g)) if g.bitrate_bps.is_none()));
}

#[test]
fn each_server_keeps_its_session_apart() {
    let paths = Paths::resolve(&linux_dirs(), "auto", "auto", false).unwrap();
    let a = paths.session_file_for(&ServerId::from("srv1"));
    let b = paths.session_file_for(&ServerId::from("srv2"));
    assert_ne!(a, b);
    assert_ne!(a, paths.session_file());
    assert_eq!(a.file_name().unwrap(), "session-srv1.json");
}
