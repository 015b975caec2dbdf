use loxia::audio::error::AudioError;
use loxia::audio::replaygain::mode_property;
use loxia::config::schema::{ReplayGainMode, EQ_BANDS_HZ};
use loxia::model::audio_meta::{device_label, group_by_driver, AudioDevice, Codec};
use loxia::model::ids::{ItemId, PlaylistId, QueueEntryId};
use loxia::model::item::Artist;

fn device(id: &str, driver: &str) -> AudioDevice {
    AudioDevice { id: id.to_string(), description: format!("{id} description"), driver: driver.to_string() }
}

#[test]
fn group_by_driver_orders_most_capable_first() {
    let devices = vec![
        device("pulse/a", "pulse"),
        device("coreaudio/a", "coreaudio"),
        device("alsa/hw:0,0", "alsa"),
        device("wasapi/a", "wasapi"),
        device("pipewire/a", "pipewire"),
        device("weird/a", "weird"),
    ];
    let groups = group_by_driver(&devices);
    let order: Vec<&str> = groups.iter().map(|(driver, _)| driver.as_str()).collect();
    assert_eq!(order, vec!["alsa", "wasapi", "coreaudio", "pipewire", "pulse", "weird"]);
}

#[test]
fn group_by_driver_keeps_every_device() {
    let devices = vec![device("alsa/hw:0,0", "alsa"), device("alsa/hw:1,0", "alsa"), device("pulse/a", "pulse")];
    let groups = group_by_driver(&devices);
    let total: usize = groups.iter().map(|(_, g)| g.len()).sum();
    assert_eq!(total, 3);
    let alsa_group = groups.iter().find(|(d, _)| d == "alsa").unwrap();
    assert_eq!(alsa_group.1.len(), 2);
}

#[test]
fn unlisted_drivers_keep_their_first_seen_order() {
    let devices = vec![device("z/a", "zeta"), device("p/a", "pulse"), device("y/a", "ypsilon"), device("z/b", "zeta")];
    let groups = group_by_driver(&devices);
    let order: Vec<&str> = groups.iter().map(|(driver, _)| driver.as_str()).collect();
    assert_eq!(order, vec!["pulse", "zeta", "ypsilon"]);
    assert_eq!(groups[1].1.iter().map(|d| d.id.as_str()).collect::<Vec<_>>(), vec!["z/a", "z/b"]);
}

#[test]
fn device_label_is_the_description() {
    assert_eq!(device_label(&device("pulse/a", "pulse")), "pulse/a description");
}

#[test]
fn codec_from_str_is_case_insensitive() {
    assert_eq!(Codec::from_str_lossy("FLAC"), Codec::Flac);
    assert_eq!(Codec::from_str_lossy("flac"), Codec::Flac);
    assert_eq!(Codec::from_str_lossy("FlAc"), Codec::Flac);
}

#[test]
fn unknown_codec_becomes_other() {
    assert_eq!(Codec::from_str_lossy("dts"), Codec::Other("dts".to_string()));
}

#[test]
fn codec_aliases_and_labels() {
    assert_eq!(Codec::from_str_lossy("OGG"), Codec::Vorbis);
    assert_eq!(Codec::from_str_lossy("pcm"), Codec::Wav);
    assert_eq!(Codec::Opus.label(), "Opus");
    assert_eq!(Codec::Other("dsd".to_string()).label(), "DSD");
}

#[test]
fn from_string_and_str() {
    let a = ItemId::from("abc".to_string());
    let b = ItemId::from("abc");
    assert_eq!(a, b);
    assert_eq!(a.as_str(), "abc");
}

#[test]
fn display_matches_inner_string() {
    let id = PlaylistId::from("xyz");
    assert_eq!(id.to_string(), "xyz");
}

#[test]
fn queue_entry_id_is_copy_and_orders_numerically() {
    let a = QueueEntryId(1);
    let b = a;
    assert_eq!(a, b);
    assert!(QueueEntryId(2) > QueueEntryId(1));
    assert_eq!(QueueEntryId(4096).to_string(), "4096");
}

#[test]
fn ids_are_distinct_types() {
    fn takes_playlist_id(_: PlaylistId) {}
    let item = ItemId::from("x");
    let playlist = PlaylistId::from("x");
    takes_playlist_id(playlist);
    assert_eq!(item.as_str(), "x");
}

fn artist_with_counts(albums: u32, tracks: u32) -> Artist {
    Artist {
        id: ItemId::from("ar1"),
        name: "Boy Harsher".to_string(),
        sort_name: "Boy Harsher".to_string(),
        album_count: albums,
        track_count: tracks,
        genres: Vec::new(),
        is_favorite: false,
        image: None,
        overview: None,
    }
}

#[test]
fn unknown_artist_counts_have_no_summary() {
    assert_eq!(artist_with_counts(0, 0).counts_summary(), None);
}

#[test]
fn each_artist_count_is_shown_only_once_it_is_known() {
    assert_eq!(artist_with_counts(12, 143).counts_summary().as_deref(), Some("12 albums, 143 tracks"));
    assert_eq!(artist_with_counts(0, 143).counts_summary().as_deref(), Some("143 tracks"));
    assert_eq!(artist_with_counts(12, 0).counts_summary().as_deref(), Some("12 albums"));
}

#[test]
fn mode_maps_to_mpv_property() {
    assert_eq!(mode_property(ReplayGainMode::Album), "album");
    assert_eq!(mode_property(ReplayGainMode::Track), "track");
    assert_eq!(mode_property(ReplayGainMode::Off), "no");
}

#[test]
fn eq_bands_are_iso_standard() {
    assert_eq!(EQ_BANDS_HZ, [31, 63, 125, 250, 500, 1000, 2000, 4000, 8000, 16000]);
}

#[test]
fn audio_error_display_is_single_sentence() {
    let cases: Vec<AudioError> = vec![
        AudioError::LibraryNotFound { hint: "install mpv".to_string() },
        AudioError::Init("boom".to_string()),
        AudioError::Command { cmd: "loadfile", detail: "timed out".to_string() },
        AudioError::Load { url_redacted: "http://host/stream".to_string(), reason: "404".to_string() },
        AudioError::DeviceUnavailable { id: "alsa/hw:0,0".to_string() },
        AudioError::Shutdown,
    ];
    for e in cases {
        let s = e.to_string();
        assert!(!s.contains('\n'), "variant {e:?} display contains a newline: {s:?}");
        assert!(s.ends_with('.'), "variant {e:?} display does not end with '.': {s:?}");
    }
}

use loxia::audio::mpv::{encode_headers, observed_properties, parse_bit_depth, parse_device_id};

#[test]
fn header_encoding_table() {
    let cases = [
        (vec![("X-Test", "plain")], "X-Test: plain"),
        (vec![("X-Test", "a,b")], "X-Test: a,b"),
        (vec![("X-Test", "a\"b")], "X-Test: a\"b"),
        (vec![("X-One", "1"), ("X-Two", "2")], "X-One: 1,X-Two: 2"),
        (
            vec![("CF-Access-Client-Id", "id-value"), ("CF-Access-Client-Secret", "secret-value")],
            "CF-Access-Client-Id: id-value,CF-Access-Client-Secret: secret-value",
        ),
    ];
    for (headers, expected_body) in cases {
        let owned: Vec<(String, String)> = headers.iter().map(|(k, v)| (k.to_string(), v.to_string())).collect();
        assert_eq!(encode_headers(&owned), Some(format!("%{}%{expected_body}", expected_body.len())), "{headers:?}");
    }
    assert_eq!(encode_headers(&[]), None);
}

#[test]
fn newline_in_header_is_dropped_with_warning() {
    assert_eq!(
        encode_headers(&[("X-Bad".to_string(), "line1\nline2".to_string()), ("X-Good".to_string(), "fine".to_string())]),
        Some("%12%X-Good: fine".to_string()),
        "the newline-containing header must be dropped, not the whole list"
    );
    assert_eq!(encode_headers(&[("X-Bad\r".to_string(), "value".to_string())]), None, "a newline in the *name* must also drop the entry");
}

#[test]
fn header_length_prefix_counts_bytes() {
    assert_eq!(encode_headers(&[("X-Name".to_string(), "caf\u{e9}".to_string())]), Some("%13%X-Name: caf\u{e9}".to_string()));
}

#[test]
fn device_id_parsing_table() {
    for (raw, expected_driver) in [
        ("alsa/hw:0,0", "alsa"),
        ("pulse/abcd", "pulse"),
        ("pipewire/xyz", "pipewire"),
        ("wasapi/{guid}", "wasapi"),
        ("coreaudio/builtin", "coreaudio"),
        ("justanid", "auto"),
    ] {
        let (driver, id) = parse_device_id(raw);
        assert_eq!(driver, expected_driver);
        assert_eq!(id, raw);
    }
}

#[test]
fn observed_properties_is_non_empty_and_deduplicated() {
    let props = observed_properties();
    assert!(!props.is_empty());
    let mut sorted = props.clone();
    sorted.sort_unstable();
    sorted.dedup();
    assert_eq!(sorted.len(), props.len(), "a property name is listed twice in OBSERVED_PROPERTIES");
}

#[test]
fn bit_depth_of_sample_formats() {
    assert_eq!(parse_bit_depth("s16"), Some(16));
    assert_eq!(parse_bit_depth("s32p"), Some(32));
    assert_eq!(parse_bit_depth("u8"), Some(8));
    assert_eq!(parse_bit_depth("float"), None);
}

#[test]
fn grouped_drivers_are_distinct_and_cover_every_device() {
    let devices = vec![
        device("p/a", "pulse"),
        device("x/a", "xdriver"),
        device("w/a", "wasapi"),
        device("p/b", "pulse"),
        device("a/a", "alsa"),
    ];
    let groups = group_by_driver(&devices);
    let keys: Vec<&str> = groups.iter().map(|(d, _)| d.as_str()).collect();
    assert_eq!(keys, vec!["alsa", "wasapi", "pulse", "xdriver"]);
    for (driver, group) in &groups {
        let expected: Vec<&str> = devices.iter().filter(|d| &d.driver == driver).map(|d| d.id.as_str()).collect();
        assert_eq!(group.iter().map(|d| d.id.as_str()).collect::<Vec<_>>(), expected);
    }
}
