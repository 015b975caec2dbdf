use std::path::PathBuf;
use std::time::{Duration, Instant};

use jiff::Timestamp;
use unicode_segmentation::UnicodeSegmentation;

use loxia::cache::downloads::{prunable, prune_continues, stats_of, DownloadEntry, DownloadIndex, FetchOutcome, FetchReport};
use loxia::cache::layout::{
    assert_within, cache_extension, cache_relative_path, download_path, resolve_collision, sanitize_component, target_codec_extension,
    CacheKey,
};
use loxia::cache::lru::{FileVerdict, ReconcileReport, RollingCache};
use loxia::cache::manifest::{Manifest, ManifestEntry};
use loxia::cache::offline_index::OfflineIndex;
use loxia::cache::scrobble::{Persist, ScrobbleBuffer, MAX_RECORDS};
use loxia::config::schema::{QualityProfile, TargetCodec};
use loxia::fspath::suffixed;
use loxia::model::audio_meta::{AudioFormat, Codec};
use loxia::model::ids::{ItemId, PlaySessionId, ServerId};
use loxia::model::item::{Album, AlbumRelation, Artist, Track};
use loxia::model::playback::{PlayMethod, PlaybackReport};
use loxia::cache::session::{snapshot_verdict, SnapshotVerdict};
use loxia::cache::downloads::next_fetch_allowed;
use loxia::cache::layout::{clean_component, component_or_placeholder};

// ------------------------------------------------------------------ fixtures

fn artist(name: &str) -> Artist {
    Artist {
        id: ItemId::from(format!("ar-{name}")),
        name: name.to_string(),
        sort_name: name.to_string(),
        album_count: 0,
        track_count: 0,
        genres: Vec::new(),
        is_favorite: false,
        image: None,
        overview: None,
    }
}

fn album_with(name: &str, year: u16, by: &Artist, relation: AlbumRelation) -> Album {
    Album {
        id: ItemId::from(format!("al-{name}")),
        name: name.to_string(),
        sort_name: name.to_string(),
        album_artist_names: vec![by.name.clone()],
        album_artist_ids: vec![by.id.clone()],
        year: Some(year),
        track_count: 0,
        total_duration: Duration::ZERO,
        genres: Vec::new(),
        is_favorite: false,
        image: None,
        relation,
    }
}

fn album(name: &str, year: u16, by: &Artist) -> Album {
    album_with(name, year, by, AlbumRelation::Primary)
}

/// A compilation: the album artist is someone else, the artist only contributes.
fn appears_on_album(name: &str, year: u16, by: &Artist) -> Album {
    let mut a = album_with(name, year, by, AlbumRelation::AppearsOn { context_artist: by.id.clone() });
    a.album_artist_names = vec!["Various Artists".to_string()];
    a.album_artist_ids = vec![ItemId::from("ar-various")];
    a
}

fn track(name: &str, number: u32, alb: &Album, artists: &[&Artist]) -> Track {
    Track {
        id: ItemId::from(format!("t-{}-{number}-{name}", alb.name)),
        name: name.to_string(),
        album_id: Some(alb.id.clone()),
        album_name: alb.name.clone(),
        album_artist_names: alb.album_artist_names.clone(),
        artist_ids: artists.iter().map(|a| a.id.clone()).collect(),
        artist_names: artists.iter().map(|a| a.name.clone()).collect(),
        track_number: Some(number),
        disc_number: Some(1),
        year: alb.year,
        duration: Duration::from_secs(200),
        genres: Vec::new(),
        is_favorite: false,
        play_count: 0,
        format: AudioFormat { codec: Codec::Flac, sample_rate_hz: 44_100, bit_depth: Some(16), channels: 2, bitrate_bps: None },
        image: None,
        media_source_id: None,
        lyric_stream: None,
        date_created: None,
        playlist_entry_id: None,
    }
}

fn key(item: &str) -> CacheKey {
    CacheKey { server: ServerId::from("srv1"), item: ItemId::from(item), profile: QualityProfile::Direct }
}

fn at_second(secs: i64) -> Timestamp {
    Timestamp::from_second(1_700_000_000 + secs).unwrap()
}

fn entry(item: &str, bytes: u64, last_access_secs: i64, complete: bool) -> ManifestEntry {
    ManifestEntry {
        key: key(item),
        path: PathBuf::from(format!("/cache/tracks/srv1/{item}.direct.flac")),
        bytes,
        created_at: at_second(0),
        last_access: at_second(last_access_secs),
        complete,
        duration_secs: Some(180),
    }
}

fn cache_with(rows: Vec<ManifestEntry>) -> RollingCache {
    RollingCache::new(Manifest::from_rows(rows, false), PathBuf::from("/cache/tracks"))
}

fn has_row(cache: &RollingCache, item: &str) -> bool {
    cache.manifest().get(&key(item)).is_some()
}

/// Eviction as the cache's owner carries it out: plan, then drop each victim's row.
fn evict_with(cache: &mut RollingCache, limit: u64, protected: &[CacheKey], escapes: Vec<bool>) -> u64 {
    let target = (limit as f64 * 0.9) as u64;
    let plan = cache.eviction_plan(limit, target, &protected.to_vec(), &escapes);
    let keys: Vec<CacheKey> = plan.victims.iter().map(|&i| cache.manifest().entries()[i].key.clone()).collect();
    for k in keys {
        cache.abandon_fetch(&k);
    }
    plan.reclaimed
}

fn evict(cache: &mut RollingCache, limit: u64, protected: &[CacheKey]) -> u64 {
    let n = cache.manifest().entries().len();
    evict_with(cache, limit, protected, vec![false; n])
}

// ------------------------------------------------------------------ layout

#[test]
fn direct_caching_keeps_the_sources_own_extension() {
    for (codec, expected) in [
        (Codec::Flac, "flac"),
        (Codec::Mp3, "mp3"),
        (Codec::Opus, "opus"),
        (Codec::Alac, "m4a"),
        (Codec::Vorbis, "ogg"),
        (Codec::Wav, "wav"),
        (Codec::Other("dsf".to_string()), "dsf"),
    ] {
        assert_eq!(cache_extension(QualityProfile::Direct, &codec, TargetCodec::Mp3), expected);
    }
}

#[test]
fn transcoded_caching_follows_the_requested_codec() {
    for profile in [QualityProfile::TranscodeHigh, QualityProfile::TranscodeMed, QualityProfile::TranscodeLow] {
        for (target, expected) in [(TargetCodec::Mp3, "mp3"), (TargetCodec::Aac, "m4a"), (TargetCodec::Opus, "opus")] {
            assert_eq!(cache_extension(profile, &Codec::Flac, target), expected);
        }
    }
}

#[test]
fn transcode_extensions_match_the_stream_request() {
    assert_eq!(target_codec_extension(TargetCodec::Mp3), "mp3");
    assert_eq!(target_codec_extension(TargetCodec::Aac), "m4a");
    assert_eq!(target_codec_extension(TargetCodec::Opus), "opus");
}

#[test]
fn cached_tracks_are_filed_under_album_artist_and_album() {
    let a = artist("Boy Harsher");
    let alb = album("Care", 2019, &a);
    let t = track("Motion", 3, &alb, &[&a]);
    let path = cache_relative_path(&ServerId::from("srv"), &t, QualityProfile::Direct, "flac");
    assert_eq!(path, PathBuf::from("srv/Boy Harsher/Care/01-03 - Motion.direct.flac"));
}

#[test]
fn each_quality_profile_gets_its_own_file() {
    let a = artist("Boy Harsher");
    let alb = album("Care", 2019, &a);
    let t = track("Motion", 3, &alb, &[&a]);
    let at = |profile, ext| cache_relative_path(&ServerId::from("srv"), &t, profile, ext);
    assert_ne!(at(QualityProfile::Direct, "flac"), at(QualityProfile::TranscodeHigh, "mp3"));
}

#[test]
fn cache_path_components_are_sanitised_individually() {
    let a = artist("AC/DC");
    let alb = album("Back/Slash", 1980, &a);
    let mut t = track("Hells/Bells", 1, &alb, &[&a]);
    t.album_artist_names = vec!["AC/DC".to_string()];
    t.album_name = "Back/Slash".to_string();
    let path = cache_relative_path(&ServerId::from("srv"), &t, QualityProfile::Direct, "flac");
    assert_eq!(path.components().count(), 4, "{path:?}");
    assert!(path.to_string_lossy().contains("ACDC"));
}

#[test]
fn missing_album_metadata_falls_back_to_named_folders() {
    let a = artist("Someone");
    let alb = album("Something", 2000, &a);
    let mut t = track("Untitled", 1, &alb, &[&a]);
    t.album_artist_names = Vec::new();
    t.album_name = String::new();
    let path = cache_relative_path(&ServerId::from("srv"), &t, QualityProfile::Direct, "flac");
    assert!(path.starts_with("srv/Unknown Artist/Unknown Album"), "{path:?}");
}

#[test]
fn sanitize_strips_separators_and_controls() {
    assert_eq!(sanitize_component("a/b\\c:d*e?f\"g<h>i|j"), "abcdefghij");
    assert_eq!(sanitize_component("a\u{0}b\u{1f}c\u{7f}"), "abc");
}

#[test]
fn sanitize_never_yields_a_dot_name_or_an_empty_one() {
    assert_eq!(sanitize_component(".."), "_");
    assert_eq!(sanitize_component("../x"), "x");
    assert_eq!(sanitize_component(" .hidden. "), "hidden");
    assert_eq!(sanitize_component(""), "_");
}

#[test]
fn assert_within_on_canonical_paths() {
    let root = PathBuf::from("/cache/tracks");
    assert!(assert_within(&root, &PathBuf::from("/cache/tracks/srv/a.flac")).is_ok());
    assert!(assert_within(&root, &PathBuf::from("/cache/tracksmore/a.flac")).is_err());
    assert!(assert_within(&root, &PathBuf::from("/home/user/.ssh/authorized_keys")).is_err());
}

#[test]
fn windows_reserved_names_are_prefixed() {
    let names = [
        "CON", "PRN", "AUX", "NUL", "COM1", "COM2", "COM3", "COM4", "COM5", "COM6", "COM7", "COM8", "COM9", "LPT1",
        "LPT2", "LPT3", "LPT4", "LPT5", "LPT6", "LPT7", "LPT8", "LPT9",
    ];
    assert_eq!(names.len(), 22);
    for name in names {
        assert_eq!(sanitize_component(name), format!("_{name}"));
        let lower = name.to_ascii_lowercase();
        assert_eq!(sanitize_component(&lower), format!("_{lower}"));
        let mixed = format!("{}{}", name.chars().next().unwrap(), name[1..].to_ascii_lowercase());
        assert_eq!(sanitize_component(&mixed), format!("_{mixed}"));
        assert_eq!(sanitize_component(&format!("{name}.flac")), format!("_{name}.flac"));
    }
    assert_eq!(sanitize_component("CONcert"), "CONcert");
}

#[test]
fn truncates_at_grapheme_boundary() {
    let title: String = std::iter::repeat_n("🎵", 300).collect();
    let result = sanitize_component(&title);
    assert!(std::str::from_utf8(result.as_bytes()).is_ok());
    assert_eq!(result.graphemes(true).count(), 100);
}

#[test]
fn empty_becomes_underscore() {
    assert_eq!(sanitize_component(""), "_");
    assert_eq!(sanitize_component("   "), "_");
    assert_eq!(sanitize_component("..."), "_");
    assert_eq!(sanitize_component("/\\:*?\"<>|"), "_");
}

#[test]
fn traversal_is_neutralised() {
    let result = sanitize_component("../../etc/passwd");
    assert_eq!(result, "etcpasswd");
    assert!(!result.contains('/'));
    assert!(!result.contains(".."));
    assert!(!sanitize_component("..\\..\\windows").contains('\\'));
}

#[test]
fn cache_key_differs_by_profile() {
    let direct = CacheKey { server: ServerId::from("srv1"), item: ItemId::from("item1"), profile: QualityProfile::Direct };
    let high = CacheKey { server: ServerId::from("srv1"), item: ItemId::from("item1"), profile: QualityProfile::TranscodeHigh };
    assert_ne!(direct.filename("flac"), high.filename("flac"));
    assert!(!direct.same(&high));
}

fn track_with(album_artist: Option<&str>, album_name: Option<&str>, disc: Option<u32>, track_number: Option<u32>) -> Track {
    let a = artist("Boy Harsher");
    let alb = album(album_name.unwrap_or("Care"), 2019, &a);
    let mut t = track("Motion", 1, &alb, &[&a]);
    t.album_artist_names = album_artist.map(|s| vec![s.to_string()]).unwrap_or_default();
    if album_name.is_none() {
        t.album_name = String::new();
    }
    t.disc_number = disc;
    t.track_number = track_number;
    t
}

#[test]
fn download_path_zero_pads_disc_and_track() {
    let t = track_with(Some("Boy Harsher"), Some("Care"), Some(1), Some(3));
    let path = download_path(&PathBuf::from("/cache"), &ServerId::from("srv1"), &t);
    assert_eq!(path.file_name().unwrap().to_str().unwrap(), "01-03 - Motion.flac");
}

#[test]
fn missing_album_artist_uses_placeholder() {
    let t = track_with(None, Some("Care"), Some(1), Some(1));
    let path = download_path(&PathBuf::from("/cache"), &ServerId::from("srv1"), &t);
    assert!(path.to_string_lossy().contains("Unknown Artist"));
    let t2 = track_with(Some("Boy Harsher"), None, Some(1), Some(1));
    let path2 = download_path(&PathBuf::from("/cache"), &ServerId::from("srv1"), &t2);
    assert!(path2.to_string_lossy().contains("Unknown Album"));
}

#[test]
fn collision_appends_suffix() {
    let path = PathBuf::from("/dl/track.flac");
    let resolved = resolve_collision(&path, &|p: &PathBuf| p == &PathBuf::from("/dl/track.flac")).unwrap();
    assert_eq!(resolved, PathBuf::from("/dl/track (2).flac"));
    let same = resolve_collision(&path, &|_p: &PathBuf| false).unwrap();
    assert_eq!(same, path);
}

#[test]
fn collision_gives_up_after_99() {
    let path = PathBuf::from("/dl/track.flac");
    let result = resolve_collision(&path, &|_p: &PathBuf| true);
    assert!(matches!(result, Err(loxia::cache::error::CacheError::TooManyCollisions(_))));
}

#[test]
fn suffix_goes_before_the_extension() {
    assert_eq!(suffixed(&PathBuf::from("/a/foo.flac"), 2), PathBuf::from("/a/foo (2).flac"));
    assert_eq!(suffixed(&PathBuf::from("/a/foo"), 12), PathBuf::from("/a/foo (12)"));
}

// ------------------------------------------------------------------ rolling cache

#[test]
fn evict_removes_least_recently_used_first() {
    let mut cache = cache_with(vec![entry("oldest", 40, 0, true), entry("middle", 40, 10, true), entry("newest", 40, 20, true)]);
    evict(&mut cache, 100, &[]);
    assert!(!has_row(&cache, "oldest"));
    assert!(has_row(&cache, "middle"));
    assert!(has_row(&cache, "newest"));
}

#[test]
fn evict_stops_at_ninety_percent() {
    let rows = (0..10).map(|i| entry(&format!("item{i}"), 100, i, true)).collect();
    let mut cache = cache_with(rows);
    evict(&mut cache, 500, &[]);
    assert!(cache.total_bytes() <= 450);
    assert!(cache.total_bytes() > 0, "must not over-evict past the target");
}

#[test]
fn evict_never_removes_protected_keys() {
    let mut cache = cache_with(vec![entry("playing", 100, 0, true), entry("other", 100, 1, true)]);
    evict(&mut cache, 50, &[key("playing")]);
    assert!(has_row(&cache, "playing"));
}

#[test]
fn evict_never_removes_incomplete_recent_parts() {
    let mut cache = cache_with(vec![entry("downloading", 100, 0, false), entry("old_complete", 100, 1, true)]);
    evict(&mut cache, 50, &[]);
    assert!(has_row(&cache, "downloading"));
}

#[test]
fn evict_returns_bytes_reclaimed() {
    let mut cache = cache_with(vec![entry("a", 100, 0, true), entry("b", 100, 1, true)]);
    let reclaimed = evict(&mut cache, 150, &[]);
    assert_eq!(reclaimed, 100, "exactly the one evicted entry's own byte count");
}

#[test]
fn deletion_calls_assert_within() {
    let mut escapee = entry("escapee", 100, 0, true);
    escapee.path = PathBuf::from("/cache/../escaped.flac");
    let mut cache = cache_with(vec![escapee, entry("normal", 100, 1, true)]);
    // The owner checks each row's path against the tracks root; the escaping one is refused.
    evict_with(&mut cache, 1, &[], vec![true, false]);
    assert!(has_row(&cache, "escapee"));
    assert!(!has_row(&cache, "normal"));
}

#[test]
fn fill_past_limit_then_evict() {
    const GB: u64 = 1024 * 1024 * 1024;
    let rows = (0..6).map(|i| entry(&format!("gb{i}"), GB, i as i64, true)).collect();
    let mut cache = cache_with(rows);
    assert_eq!(cache.total_bytes(), 6 * GB);
    evict(&mut cache, 5 * GB, &[]);
    assert!(cache.total_bytes() <= (4.5 * GB as f64) as u64);
}

#[test]
fn evict_under_the_limit_is_a_no_op() {
    let cache = cache_with(vec![entry("a", 10, 0, true)]);
    let plan = cache.eviction_plan(100, 90, &Vec::new(), &vec![false]);
    assert!(!plan.over_limit);
    assert!(plan.victims.is_empty());
    assert_eq!(plan.reclaimed, 0);
}

#[test]
fn colliding_cache_paths_are_disambiguated() {
    let mut cache = cache_with(Vec::new());
    let relative = PathBuf::from("srv1/Boy Harsher/Care/01-03 - Motion.direct.flac");
    let first = cache.begin_fetch(&key("item-1"), &relative, at_second(0));
    let second = cache.begin_fetch(&key("item-2"), &relative, at_second(1));
    assert_ne!(first, second, "two items must not share one cached file");
    assert_eq!(second, PathBuf::from("/cache/tracks/srv1/Boy Harsher/Care/01-03 - Motion.direct (2).flac"));
    assert_eq!(cache.begin_fetch(&key("item-1"), &relative, at_second(2)), first);
}

#[test]
fn resolve_is_none_before_a_fetch_completes() {
    let mut cache = cache_with(Vec::new());
    let k = key("a");
    cache.begin_fetch(&k, &PathBuf::from("srv/A/B/track.direct.flac"), at_second(0));
    assert!(cache.resolve(&k, true, at_second(1)).is_none());
}

#[test]
fn resolve_returns_path_and_updates_last_access() {
    let mut cache = cache_with(Vec::new());
    let k = key("a");
    let path = cache.begin_fetch(&k, &PathBuf::from("srv/A/B/track.direct.flac"), at_second(0));
    cache.complete_fetch(&k, 4, at_second(1));
    let before = cache.manifest().get(&k).unwrap().last_access;
    let resolved = cache.resolve(&k, true, at_second(5)).unwrap();
    assert_eq!(resolved, path);
    assert!(cache.manifest().get(&k).unwrap().last_access >= before);
    assert_eq!(cache.manifest().get(&k).unwrap().last_access, at_second(5));
}

#[test]
fn resolve_is_none_when_the_file_is_missing() {
    let mut cache = cache_with(Vec::new());
    let k = key("a");
    cache.begin_fetch(&k, &PathBuf::from("srv/A/B/track.direct.flac"), at_second(0));
    cache.complete_fetch(&k, 4, at_second(1));
    assert!(cache.resolve(&k, false, at_second(2)).is_none());
}

#[test]
fn abandon_fetch_drops_the_row_but_not_the_part_file() {
    let mut cache = cache_with(Vec::new());
    let k = key("a");
    cache.begin_fetch(&k, &PathBuf::from("srv/A/B/track.direct.flac"), at_second(0));
    cache.abandon_fetch(&k);
    assert!(cache.manifest().get(&k).is_none());
}

#[test]
fn reconcile_recomputes_total() {
    let mut ghost = entry("ghost", 999, 0, true);
    ghost.path = PathBuf::from("/cache/tracks/srv1/ghost.direct.flac");
    let mut cache = cache_with(vec![entry("kept", 100, 0, true), ghost]);
    let dropped = cache.drop_missing(&vec![true, false]);
    assert_eq!(dropped, 1);
    assert_eq!(cache.total_bytes(), 100);
}

#[test]
fn reconcile_classifies_files_under_tracks() {
    let cache = cache_with(vec![entry("kept", 100, 0, true)]);
    let day = Duration::from_secs(24 * 3600);
    assert_eq!(cache.classify_file(&PathBuf::from("/cache/tracks/srv1/kept.direct.flac"), day * 3), FileVerdict::Keep);
    assert_eq!(cache.classify_file(&PathBuf::from("/cache/tracks/srv1/orphan.direct.flac"), Duration::ZERO), FileVerdict::Orphan);
    assert_eq!(cache.classify_file(&PathBuf::from("/cache/tracks/srv1/x.flac.part"), day * 2), FileVerdict::StalePart);
    assert_eq!(cache.classify_file(&PathBuf::from("/cache/tracks/srv1/x.flac.part"), Duration::from_secs(60)), FileVerdict::Keep);
    let mut report = ReconcileReport::default();
    report.record(FileVerdict::Orphan, 4);
    report.record(FileVerdict::StalePart, 7);
    report.record(FileVerdict::Keep, 100);
    assert_eq!(report, ReconcileReport { dropped_rows: 0, deleted_orphan_files: 1, deleted_stale_parts: 1, reclaimed_bytes: 11 });
}

// ------------------------------------------------------------------ manifest

#[test]
fn manifest_write_is_atomic() {
    let mut m = Manifest::from_rows(Vec::new(), false);
    m.insert(entry("a", 100, 0, true));
    assert!(m.needs_flush());
    m.mark_flushed();
    assert!(!m.needs_flush());
    // Reading back what was written gives the same index.
    let reopened = Manifest::from_rows(m.entries().clone(), false);
    assert_eq!(reopened.total_bytes(), 100);
}

#[test]
fn manifest_writes_are_debounced() {
    let mut m = Manifest::from_rows(Vec::new(), false);
    m.insert(entry("a", 100, 0, true));
    assert!(m.flush_due(None));
    m.mark_flushed();
    m.insert(entry("b", 50, 0, true));
    assert!(!m.flush_due(Some(Duration::from_millis(10))), "a second write within the second waits");
    assert!(m.flush_due(Some(Duration::from_secs(1))));
    assert!(m.needs_flush(), "an explicit flush always writes");
}

#[test]
fn lock_held_enters_readonly_mode() {
    let first = Manifest::from_rows(Vec::new(), false);
    assert!(!first.is_read_only());
    let second = Manifest::from_rows(Vec::new(), true);
    assert!(second.is_read_only());
}

#[test]
fn readonly_manifest_writes_nothing() {
    let mut second = Manifest::from_rows(Vec::new(), true);
    second.insert(entry("a", 100, 0, true));
    assert_eq!(second.total_bytes(), 0, "read-only mode writes nothing, even in memory");
    assert!(!second.needs_flush());
}

#[test]
fn a_later_row_for_the_same_key_wins_on_load() {
    let m = Manifest::from_rows(vec![entry("a", 1, 0, true), entry("b", 2, 0, true), entry("a", 5, 0, true)], false);
    assert_eq!(m.entries().len(), 2);
    assert_eq!(m.get(&key("a")).unwrap().bytes, 5);
    assert_eq!(m.total_bytes(), 7);
}

#[test]
fn manifest_reads_back_what_was_written_and_forgets_what_was_removed() {
    let mut m = Manifest::from_rows(vec![entry("a", 1, 0, true), entry("b", 2, 0, true)], false);
    m.insert(entry("a", 9, 0, true));
    assert_eq!(m.get(&key("a")).unwrap().bytes, 9);
    assert_eq!(m.get(&key("b")).unwrap().bytes, 2);
    assert_eq!(m.entries().len(), 2);
    let gone = m.remove(&key("a"));
    assert_eq!(gone.unwrap().bytes, 9);
    assert!(m.get(&key("a")).is_none());
    assert_eq!(m.get(&key("b")).unwrap().bytes, 2);
}

// ------------------------------------------------------------------ downloads

fn download_row(item: &str, bytes: u64, complete: bool) -> DownloadEntry {
    DownloadEntry {
        item: ItemId::from(item),
        path: PathBuf::from(format!("/dl/{item}.flac")),
        profile: QualityProfile::Direct,
        bytes,
        downloaded_at: None,
        sidecar: PathBuf::from(format!("/dl/{item}.loxia.json")),
        complete,
    }
}

#[test]
fn stats_reads_bytes_and_count_without_a_fetcher() {
    assert_eq!(stats_of(&vec![download_row("a", 100, true), download_row("b", 50, true)]), (150, 2));
}

#[test]
fn stats_on_a_never_downloaded_directory_is_zero() {
    assert_eq!(stats_of(&Vec::new()), (0, 0));
}

#[test]
fn interrupted_pin_resumes_on_restart() {
    let index = DownloadIndex::from_rows(vec![download_row("done", 10, true), download_row("half", 0, false)]);
    assert_eq!(index.incomplete(), vec![1]);
}

#[test]
fn unpin_returns_bytes_freed() {
    let mut index = DownloadIndex::from_rows(vec![download_row("a", 123, true)]);
    let removed = index.remove(&ItemId::from("a")).unwrap();
    assert_eq!(removed.bytes, 123);
    assert!(index.remove(&ItemId::from("a")).is_none(), "never pinned frees nothing");
    assert_eq!(index.total_bytes(), 0);
}

#[test]
fn a_finished_fetch_completes_its_row_and_asks_for_one_cover() {
    let mut index = DownloadIndex::from_rows(Vec::new());
    index.queue(&ItemId::from("t1"), PathBuf::from("/dl/A/B/1.flac"), PathBuf::from("/dl/A/B/1.loxia.json"), QualityProfile::Direct);
    index.queue(&ItemId::from("t2"), PathBuf::from("/dl/A/B/2.flac"), PathBuf::from("/dl/A/B/2.loxia.json"), QualityProfile::Direct);
    let reports = vec![
        FetchReport { item: ItemId::from("t1"), dir: Some(PathBuf::from("/dl/A/B")), album: Some(ItemId::from("al")), outcome: FetchOutcome::Done(10) },
        FetchReport { item: ItemId::from("t2"), dir: Some(PathBuf::from("/dl/A/B")), album: Some(ItemId::from("al")), outcome: FetchOutcome::Done(20) },
    ];
    let s = index.settle(&reports, at_second(0));
    assert_eq!(s.covers, vec![0], "pin_album_writes_cover_once");
    assert!(!s.disk_full);
    assert_eq!(index.total_bytes(), 30);
    assert!(index.incomplete().is_empty());
}

#[test]
fn enospc_cancels_batch_and_toasts_once() {
    let mut index = DownloadIndex::from_rows(Vec::new());
    index.queue(&ItemId::from("t1"), PathBuf::from("/dl/1.flac"), PathBuf::from("/dl/1.loxia.json"), QualityProfile::Direct);
    index.queue(&ItemId::from("t2"), PathBuf::from("/dl/2.flac"), PathBuf::from("/dl/2.loxia.json"), QualityProfile::Direct);
    let reports = vec![
        FetchReport { item: ItemId::from("t1"), dir: None, album: None, outcome: FetchOutcome::Failed { storage_full: true } },
        FetchReport { item: ItemId::from("t2"), dir: None, album: None, outcome: FetchOutcome::Skipped },
    ];
    let s = index.settle(&reports, at_second(0));
    assert!(s.disk_full);
    assert!(s.covers.is_empty());
    assert_eq!(index.incomplete(), vec![0, 1], "both stay queued for a resume");
}

#[test]
fn unpin_prunes_only_directories_left_with_a_cover() {
    assert!(prunable(&Vec::new()));
    assert!(prunable(&vec![Some("cover.jpg".to_string())]));
    assert!(!prunable(&vec![Some("cover.jpg".to_string()), Some("02 - Other.flac".to_string())]));
    assert!(prune_continues(&PathBuf::from("/dl"), &PathBuf::from("/dl/A/B")));
    assert!(!prune_continues(&PathBuf::from("/dl"), &PathBuf::from("/dl")));
    assert!(!prune_continues(&PathBuf::from("/dl"), &PathBuf::from("/elsewhere")));
}

// ------------------------------------------------------------------ offline library

#[test]
fn build_reconstructs_artists_and_albums_from_sidecars() {
    let a = artist("Boy Harsher");
    let alb = album("Care", 2019, &a);
    let t1 = track("Motion", 1, &alb, &[&a]);
    let t2 = track("Escape", 2, &alb, &[&a]);
    let index = OfflineIndex::build(vec![t1, t2]);
    let artists = index.artists();
    assert_eq!(artists.len(), 1);
    assert!(artists[0].id.same(&a.id));
    assert_eq!(artists[0].track_count, 2);
    let tracks = index.album_tracks(&alb.id);
    assert_eq!(tracks.len(), 2);
}

#[test]
fn album_tracks_come_in_disc_and_track_order() {
    let a = artist("Boy Harsher");
    let alb = album("Care", 2019, &a);
    let mut t3 = track("Three", 3, &alb, &[&a]);
    t3.disc_number = Some(1);
    let mut t1 = track("One", 1, &alb, &[&a]);
    t1.disc_number = Some(2);
    let t2 = track("Two", 2, &alb, &[&a]);
    let index = OfflineIndex::build(vec![t1, t3, t2]);
    let names: Vec<String> = index.album_tracks(&alb.id).into_iter().map(|t| t.name).collect();
    assert_eq!(names, vec!["Two", "Three", "One"]);
}

#[test]
fn counts_reflect_downloaded_not_server() {
    let a = artist("Boy Harsher");
    let alb = album("Care", 2019, &a);
    let t = track("Motion", 1, &alb, &[&a]);
    let index = OfflineIndex::build(vec![t]);
    let found = index.artists().into_iter().find(|x| x.id.same(&a.id)).unwrap();
    assert_eq!(found.track_count, 1);
    assert_eq!(found.album_count, 1);
}

#[test]
fn discography_splits_primary_and_appears_on() {
    let a = artist("Boy Harsher");
    let primary_alb = album("Care", 2019, &a);
    let comp_alb = appears_on_album("Darkwave Comp", 2020, &a);
    let t1 = track("Motion", 1, &primary_alb, &[&a]);
    let t2 = track("Contribution", 1, &comp_alb, &[&a]);
    let index = OfflineIndex::build(vec![t1, t2]);
    let d = index.discography(&a.id);
    assert_eq!(d.primary.len(), 1);
    assert!(d.primary[0].id.same(&primary_alb.id));
    assert_eq!(d.appears_on.len(), 1);
    assert!(d.appears_on[0].id.same(&comp_alb.id));
}

#[test]
fn search_matches_titles_and_artists() {
    let a = artist("Boy Harsher");
    let alb = album("Care", 2019, &a);
    let t = track("Motion", 1, &alb, &[&a]);
    let index = OfflineIndex::build(vec![t]);
    let by_title = index.search("Motion");
    assert_eq!(by_title.tracks.len(), 1);
    let by_artist = index.search("Boy Harsher");
    assert_eq!(by_artist.artists.len(), 1);
    let blank = index.search("   ");
    assert!(blank.artists.is_empty() && blank.albums.is_empty() && blank.tracks.is_empty());
}

#[test]
fn build_10k_tracks_under_two_seconds() {
    let a = artist("Prolific Artist");
    let mut sidecars = Vec::new();
    for album_n in 0..100 {
        let alb = album(&format!("Album {album_n}"), 2000 + album_n as u16, &a);
        for track_n in 0..100 {
            sidecars.push(track(&format!("Track {track_n}"), track_n as u32, &alb, &[&a]));
        }
    }
    let start = Instant::now();
    let index = OfflineIndex::build(sidecars);
    let elapsed = start.elapsed();
    assert_eq!(index.artists().len(), 1);
    assert!(elapsed < Duration::from_secs(2), "build took {elapsed:?} for 10,000 tracks");
}

#[test]
fn contains_knows_tracks_albums_and_artists() {
    let a = artist("Boy Harsher");
    let alb = album("Care", 2019, &a);
    let t = track("Motion", 1, &alb, &[&a]);
    let id = t.id.clone();
    let index = OfflineIndex::build(vec![t]);
    assert!(index.contains(&id));
    assert!(index.contains(&alb.id));
    assert!(index.contains(&a.id));
    assert!(!index.contains(&ItemId::from("nope")));
}

// ------------------------------------------------------------------ scrobbles

fn start(item: &str, session: &str) -> PlaybackReport {
    PlaybackReport::Start { item: ItemId::from(item), session: PlaySessionId::from(session) }
}

fn progress(item: &str, session: &str, secs: u64) -> PlaybackReport {
    PlaybackReport::Progress {
        item: ItemId::from(item),
        session: PlaySessionId::from(session),
        position: Duration::from_secs(secs),
        paused: false,
        play_method: PlayMethod::DirectStream,
    }
}

fn stopped(item: &str, session: &str, secs: u64) -> PlaybackReport {
    PlaybackReport::Stopped { item: ItemId::from(item), session: PlaySessionId::from(session), position: Duration::from_secs(secs) }
}

fn played(item: &str) -> PlaybackReport {
    PlaybackReport::Played { item: ItemId::from(item) }
}

fn buffer() -> ScrobbleBuffer {
    ScrobbleBuffer::new(ServerId::from("srv1"), Vec::new())
}

/// A replay as the buffer's owner runs it: send in order, stop at the first failure, settle.
fn drain(buf: &mut ScrobbleBuffer, mut send: impl FnMut(&PlaybackReport) -> bool) -> usize {
    let order = buf.replay_order();
    let mut sent = 0;
    for &idx in &order {
        if send(&buf.records()[idx].report) {
            sent += 1;
        } else {
            break;
        }
    }
    buf.settle_replay(&order, sent);
    sent
}

#[test]
fn drain_collapses_progress_per_session() {
    let mut buf = buffer();
    for secs in 0..5 {
        buf.append(progress("t1", "s1", secs), at_second(secs as i64));
    }
    let mut reports = Vec::new();
    let sent = drain(&mut buf, |r| {
        reports.push(r.clone());
        true
    });
    assert_eq!(sent, 1, "five Progress records collapse to one");
    assert_eq!(reports.len(), 1);
    assert!(matches!(&reports[0], PlaybackReport::Progress { position, .. } if *position == Duration::from_secs(4)));
    assert_eq!(buf.pending(), 0);
}

#[test]
fn drain_keeps_start_stopped_and_played() {
    let mut buf = buffer();
    buf.append(start("t1", "s1"), at_second(0));
    buf.append(stopped("t1", "s1", 10), at_second(1));
    buf.append(played("t1"), at_second(2));
    assert_eq!(drain(&mut buf, |_| true), 3);
}

#[test]
fn drain_replays_chronologically() {
    let mut buf = buffer();
    buf.append(stopped("t1", "s1", 10), at_second(5));
    buf.append(start("t1", "s1"), at_second(0));
    buf.append(played("t2"), at_second(3));
    let mut order = Vec::new();
    drain(&mut buf, |r| {
        order.push(r.clone());
        true
    });
    assert!(matches!(order[0], PlaybackReport::Start { .. }));
    assert!(matches!(order[1], PlaybackReport::Played { .. }));
    assert!(matches!(order[2], PlaybackReport::Stopped { .. }));
}

#[test]
fn drain_stops_at_first_failure_and_retains_remainder() {
    let mut buf = buffer();
    buf.append(start("t1", "s1"), at_second(0));
    buf.append(played("t2"), at_second(1));
    buf.append(played("t3"), at_second(2));
    let mut calls = 0;
    let sent = drain(&mut buf, |_| {
        calls += 1;
        calls == 1
    });
    assert_eq!(sent, 1);
    assert_eq!(buf.pending(), 2, "the failed record and everything after stays");
}

#[test]
fn drain_deduplicates_by_session_and_kind() {
    let mut buf = buffer();
    buf.append(stopped("t1", "s1", 5), at_second(0));
    buf.append(stopped("t1", "s1", 10), at_second(1));
    assert_eq!(drain(&mut buf, |_| true), 1, "duplicates for the same (item, session, kind) collapse to one");
}

#[test]
fn overflow_drops_oldest_progress_first() {
    let mut buf = buffer();
    for i in 0..MAX_RECORDS {
        buf.append(progress("t1", &format!("s{i}"), 0), at_second(i as i64));
    }
    assert_eq!(buf.append(played("newest"), at_second(MAX_RECORDS as i64)), Persist::RewriteAll);
    assert_eq!(buf.pending(), MAX_RECORDS);
    assert!(!buf.records().iter().any(|r| matches!(&r.report, PlaybackReport::Progress { session, .. } if session.as_str() == "s0")));
    assert!(buf.records().iter().any(|r| matches!(r.report, PlaybackReport::Played { .. })));
}

#[test]
fn overflow_never_drops_played() {
    let mut buf = buffer();
    for i in 0..MAX_RECORDS {
        buf.append(played(&format!("t{i}")), at_second(i as i64));
    }
    buf.append(progress("new", "s", 0), at_second(MAX_RECORDS as i64));
    let played_count = buf.records().iter().filter(|r| matches!(r.report, PlaybackReport::Played { .. })).count();
    assert_eq!(played_count, MAX_RECORDS, "every Played record survives");
}

#[test]
fn buffer_survives_restart() {
    let mut buf = buffer();
    buf.append(start("t1", "s1"), at_second(0));
    buf.append(played("t2"), at_second(1));
    let kept: Vec<_> = buf
        .records()
        .iter()
        .map(|r| loxia::cache::scrobble::ScrobbleRecord { server: r.server.clone(), occurred_at: r.occurred_at, report: r.report.clone() })
        .collect();
    let reopened = ScrobbleBuffer::new(ServerId::from("srv1"), kept);
    assert_eq!(reopened.pending(), 2);
}

#[test]
fn pending_count_matches_records() {
    let mut buf = buffer();
    assert_eq!(buf.pending(), 0);
    assert_eq!(buf.append(start("t1", "s1"), at_second(0)), Persist::AppendLast);
    assert_eq!(buf.pending(), 1);
    buf.append(played("t1"), at_second(1));
    assert_eq!(buf.pending(), 2);
}

// ------------------------------------------------------------------ history

#[test]
fn history_capped_at_fifty_newest_first() {
    let mut history: Vec<String> = Vec::new();
    for i in 0..60 {
        history = loxia::cache::session::push_history(history, format!("Track {i}"));
    }
    assert_eq!(history.len(), 50);
    assert_eq!(history[0], "Track 59");
    assert_eq!(history[49], "Track 10");
}

#[test]
fn snapshot_version_decides_restore() {
    assert_eq!(snapshot_verdict(Some(3), 3), SnapshotVerdict::Use);
    assert_eq!(snapshot_verdict(Some(2), 3), SnapshotVerdict::Discard);
    assert_eq!(snapshot_verdict(None, 3), SnapshotVerdict::Quarantine);
}

#[test]
fn a_full_disk_stops_the_rest_of_the_batch() {
    assert!(next_fetch_allowed(false, &FetchOutcome::Done(10)));
    assert!(next_fetch_allowed(false, &FetchOutcome::Failed { storage_full: false }));
    assert!(!next_fetch_allowed(false, &FetchOutcome::Failed { storage_full: true }));
    assert!(!next_fetch_allowed(true, &FetchOutcome::Done(10)));
    assert!(!next_fetch_allowed(true, &FetchOutcome::Skipped));
}

#[test]
fn a_short_clean_component_comes_back_whole() {
    assert_eq!(clean_component(" ..CON.flac "), "_CON.flac");
    assert_eq!(component_or_placeholder(String::new()), "_");
    assert_eq!(component_or_placeholder("x".to_string()), "x");
    let long = "a".repeat(150);
    assert_eq!(sanitize_component(&long).chars().count(), 100);
}

#[test]
fn try_build_refuses_an_album_too_long_for_a_duration() {
    let a = artist("Boy Harsher");
    let alb = album("Care", 2019, &a);
    let mut t1 = track("Motion", 1, &alb, &[&a]);
    let mut t2 = track("Tears", 2, &alb, &[&a]);
    t1.duration = Duration::from_secs(180);
    t2.duration = Duration::from_secs(200);
    let ok = OfflineIndex::try_build(vec![t1.clone(), t2.clone()]).unwrap();
    assert_eq!(ok.tracks().len(), 2);
    t1.duration = Duration::MAX;
    assert!(OfflineIndex::try_build(vec![t1.clone(), t2]).is_none());
    assert!(OfflineIndex::try_build(vec![t1]).is_some());
}

#[test]
fn parse_srt_synced_lines_are_timed_and_never_blank() {
    let srt = "1\n00:00:01,000 --> 00:00:02,000\nfirst\n\n2\n00:00:03,500 --> 00:00:04,000\nsecond\n";
    match loxia::lyrics::parse_srt(srt) {
        loxia::lyrics::Lyrics::Synced(v) => {
            assert_eq!(v.len(), 2);
            assert!(v.iter().any(|l| l.at > Duration::ZERO));
            assert!(v.iter().all(|l| !l.text.trim().is_empty()));
            assert_eq!(v[1].at, Duration::from_millis(3500));
        }
        other => panic!("expected synced lyrics, got {other:?}"),
    }
}
