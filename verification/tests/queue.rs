use std::cmp::Ordering;
use std::time::Duration;

use loxia::config::schema::{Direction, SortField, SortProfile, SortRule};
use loxia::model::audio_meta::{AudioFormat, Codec};
use loxia::model::ids::ItemId;
use loxia::model::item::{Album, AlbumRelation, Artist, MediaItem, SectionHeader, SectionKind, Track};
use loxia::queue::appears_on::{filter_tracks, TrackFilter};
use loxia::queue::natural::natural_cmp;
use loxia::queue::shuffle::{shuffle, unshuffle};
use loxia::queue::sort::{album_years, compare, compare_with_album_year, sort_items, sort_tracks};
use loxia::queue::state::{QueueEntry, QueueState};

fn artist(name: &str) -> Artist {
    Artist {
        id: ItemId::from(format!("ar-{name}")),
        name: name.to_string(),
        sort_name: name.to_string(),
        album_count: 0,
        track_count: 0,
        genres: Vec::new(),
        is_favorite: false,
        image: None,
        overview: None,
    }
}

fn album_with(name: &str, year: u16, by: &Artist, relation: AlbumRelation) -> Album {
    Album {
        id: ItemId::from(format!("al-{name}")),
        name: name.to_string(),
        sort_name: name.to_string(),
        album_artist_names: vec![by.name.clone()],
        album_artist_ids: vec![by.id.clone()],
        year: Some(year),
        track_count: 0,
        total_duration: Duration::ZERO,
        genres: Vec::new(),
        is_favorite: false,
        image: None,
        relation,
    }
}

fn album(name: &str, year: u16, by: &Artist) -> Album {
    album_with(name, year, by, AlbumRelation::Primary)
}

fn appears_on_album(name: &str, year: u16, by: &Artist) -> Album {
    album_with(name, year, by, AlbumRelation::AppearsOn { context_artist: by.id.clone() })
}

fn track(name: &str, number: u32, alb: &Album, artists: &[&Artist]) -> Track {
    Track {
        id: ItemId::from(format!("t-{}-{number}-{name}", alb.name)),
        name: name.to_string(),
        album_id: Some(alb.id.clone()),
        album_name: alb.name.clone(),
        album_artist_names: alb.album_artist_names.clone(),
        artist_ids: artists.iter().map(|a| a.id.clone()).collect(),
        artist_names: artists.iter().map(|a| a.name.clone()).collect(),
        track_number: Some(number),
        disc_number: Some(1),
        year: alb.year,
        duration: Duration::from_secs(200),
        genres: Vec::new(),
        is_favorite: false,
        play_count: 0,
        format: AudioFormat { codec: Codec::Flac, sample_rate_hz: 44_100, bit_depth: Some(16), channels: 2, bitrate_bps: None },
        image: None,
        media_source_id: None,
        lyric_stream: None,
        date_created: None,
        playlist_entry_id: None,
    }
}

fn rule(field: SortField, direction: Direction) -> SortRule {
    SortRule { field, direction }
}

fn profile(name: &str, rules: Vec<SortRule>) -> SortProfile {
    SortProfile { name: name.to_string(), rules }
}

fn chronological_discog() -> SortProfile {
    profile(
        "chronological_discog",
        vec![
            rule(SortField::AlbumArtist, Direction::Asc),
            rule(SortField::Year, Direction::Asc),
            rule(SortField::Album, Direction::Asc),
            rule(SortField::TrackNumber, Direction::Asc),
        ],
    )
}

fn release_chronology() -> SortProfile {
    profile(
        "release_chronology",
        vec![
            rule(SortField::Year, Direction::Desc),
            rule(SortField::Album, Direction::Asc),
            rule(SortField::TrackNumber, Direction::Asc),
        ],
    )
}

fn discog_fixture() -> Vec<Track> {
    let artist = artist("Boy Harsher");
    let early = album("Careful", 2017, &artist);
    let late = album("Care", 2019, &artist);
    vec![
        track("Fate", 2, &late, &[&artist]),
        track("Motion", 1, &early, &[&artist]),
        track("Come Closer", 3, &late, &[&artist]),
        track("Deep Well", 2, &early, &[&artist]),
    ]
}

fn names(tracks: &[Track]) -> Vec<&str> {
    tracks.iter().map(|t| t.name.as_str()).collect()
}

#[test]
fn sort_profile_applies_all_four_rules_in_order() {
    let mut tracks = discog_fixture();
    sort_tracks(&mut tracks, &chronological_discog());
    assert_eq!(names(&tracks), vec!["Motion", "Deep Well", "Fate", "Come Closer"]);
}

#[test]
fn chronological_discog_keeps_an_album_together_despite_a_dirty_track_year() {
    let artist = artist("Boy Harsher");
    let early = album("Careful", 2017, &artist);
    let late = album("Care", 2019, &artist);
    let mut tracks = vec![
        track("Motion", 1, &early, &[&artist]),
        track("Deep Well", 2, &early, &[&artist]),
        track("Fate", 1, &late, &[&artist]),
        track("Come Closer", 2, &late, &[&artist]),
    ];
    tracks[1].year = None;

    let mut plain = tracks.clone();
    plain.sort_by(|a, b| compare(a, b, &chronological_discog()));
    assert_eq!(names(&plain), vec!["Motion", "Fate", "Come Closer", "Deep Well"], "per-track year scatters the album \u{2014} this documents the bug");

    let years = album_years(&tracks);
    tracks.sort_by(|a, b| compare_with_album_year(a, b, &chronological_discog(), &years));
    assert_eq!(names(&tracks), vec!["Motion", "Deep Well", "Fate", "Come Closer"]);
}

#[test]
fn release_chronology_profile_matches_expected() {
    let mut tracks = discog_fixture();
    sort_tracks(&mut tracks, &release_chronology());
    assert_eq!(names(&tracks), vec!["Fate", "Come Closer", "Motion", "Deep Well"]);
}

#[test]
fn sort_is_stable_for_equal_keys() {
    let a = artist("A");
    let alb = album("Alb", 2020, &a);
    let mut t1 = track("Same", 1, &alb, &[&a]);
    let mut t2 = track("Same", 1, &alb, &[&a]);
    t1.id = ItemId::from("same-id");
    t2.id = ItemId::from("same-id");
    t2.play_count = 7;
    let mut tracks = vec![t1.clone(), t2.clone()];
    sort_tracks(&mut tracks, &profile("by_name", vec![rule(SortField::Name, Direction::Asc)]));
    assert_eq!(tracks, vec![t1, t2]);
}

#[test]
fn none_sorts_last_ascending() {
    let a = artist("A");
    let alb = album("Alb", 2020, &a);
    let mut with_year = track("Has Year", 1, &alb, &[&a]);
    with_year.year = Some(2000);
    let mut without_year = track("No Year", 2, &alb, &[&a]);
    without_year.year = None;
    let mut tracks = vec![without_year.clone(), with_year.clone()];
    sort_tracks(&mut tracks, &profile("by_year", vec![rule(SortField::Year, Direction::Asc)]));
    assert_eq!(tracks, vec![with_year, without_year]);
}

#[test]
fn none_sorts_last_descending() {
    let a = artist("A");
    let alb = album("Alb", 2020, &a);
    let mut with_year = track("Has Year", 1, &alb, &[&a]);
    with_year.year = Some(2000);
    let mut without_year = track("No Year", 2, &alb, &[&a]);
    without_year.year = None;
    let mut tracks = vec![without_year.clone(), with_year.clone()];
    sort_tracks(&mut tracks, &profile("by_year", vec![rule(SortField::Year, Direction::Desc)]));
    assert_eq!(tracks, vec![with_year, without_year], "None must stay last even when direction reverses");
}

#[test]
fn leading_article_is_ignored() {
    let a1 = artist("The Soft Moon");
    let a2 = artist("Boy Harsher");
    let alb1 = album("Alb1", 2020, &a1);
    let alb2 = album("Alb2", 2020, &a2);
    let t_soft_moon = track("Track", 1, &alb1, &[&a1]);
    let t_boy_harsher = track("Track", 1, &alb2, &[&a2]);
    let mut tracks = vec![t_soft_moon.clone(), t_boy_harsher.clone()];
    sort_tracks(&mut tracks, &profile("by_artist", vec![rule(SortField::Artist, Direction::Asc)]));
    assert_eq!(tracks, vec![t_boy_harsher, t_soft_moon]);
}

#[test]
fn case_insensitive_comparison() {
    let a = artist("A");
    let alb = album("Alb", 2020, &a);
    let upper = track("APPLE", 1, &alb, &[&a]);
    let lower = track("banana", 2, &alb, &[&a]);
    let mut tracks = vec![lower.clone(), upper.clone()];
    sort_tracks(&mut tracks, &profile("by_name", vec![rule(SortField::Name, Direction::Asc)]));
    assert_eq!(tracks, vec![upper, lower]);
}

#[test]
fn numeric_aware_comparison() {
    let a = artist("A");
    let alb = album("Alb", 2020, &a);
    let t2 = track("Track 2", 1, &alb, &[&a]);
    let t10 = track("Track 10", 2, &alb, &[&a]);
    let mut tracks = vec![t10.clone(), t2.clone()];
    sort_tracks(&mut tracks, &profile("by_name", vec![rule(SortField::Name, Direction::Asc)]));
    assert_eq!(tracks, vec![t2, t10]);
}

#[test]
fn track_number_sorts_by_disc_then_track() {
    let a = artist("A");
    let alb = album("Alb", 2020, &a);
    let mut disc1_track2 = track("A", 2, &alb, &[&a]);
    disc1_track2.disc_number = Some(1);
    let mut disc2_track1 = track("B", 1, &alb, &[&a]);
    disc2_track1.disc_number = Some(2);
    let mut tracks = vec![disc2_track1.clone(), disc1_track2.clone()];
    sort_tracks(&mut tracks, &profile("by_track_number", vec![rule(SortField::TrackNumber, Direction::Asc)]));
    assert_eq!(tracks, vec![disc1_track2, disc2_track1]);
}

fn section_header(label: &str, count: usize) -> MediaItem {
    MediaItem::SectionHeader(SectionHeader { label: label.to_string(), count, kind: SectionKind::Custom })
}

#[test]
fn sort_items_does_not_move_headers() {
    let a = artist("A");
    let alb = album("Alb", 2020, &a);
    let mut items = vec![
        section_header("GROUP 1", 2),
        MediaItem::Track(track("Zeta", 1, &alb, &[&a])),
        MediaItem::Track(track("Alpha", 2, &alb, &[&a])),
    ];
    sort_items(&mut items, &profile("by_name", vec![rule(SortField::Name, Direction::Asc)]));
    assert!(matches!(items[0], MediaItem::SectionHeader(_)));
    assert_eq!(items[1].display_name(), "Alpha");
    assert_eq!(items[2].display_name(), "Zeta");
}

#[test]
fn sort_items_does_not_merge_sections() {
    let a = artist("A");
    let alb = album("Alb", 2020, &a);
    let mut items = vec![
        section_header("GROUP 1", 1),
        MediaItem::Track(track("Zeta", 1, &alb, &[&a])),
        section_header("GROUP 2", 1),
        MediaItem::Track(track("Alpha", 2, &alb, &[&a])),
    ];
    sort_items(&mut items, &profile("by_name", vec![rule(SortField::Name, Direction::Asc)]));
    let labels: Vec<&str> = items.iter().map(|i| i.display_name()).collect();
    assert_eq!(labels, vec!["GROUP 1", "Zeta", "GROUP 2", "Alpha"]);
}

#[test]
fn sort_items_leaves_non_track_columns_untouched() {
    let a = artist("Sync24");
    let zeta = album("Zeta", 2020, &a);
    let alpha = album("Alpha", 2019, &a);
    let mut items = vec![MediaItem::Album(zeta), MediaItem::Album(alpha)];
    sort_items(&mut items, &profile("by_name", vec![rule(SortField::Name, Direction::Asc)]));
    let labels: Vec<&str> = items.iter().map(|i| i.display_name()).collect();
    assert_eq!(labels, vec!["Zeta", "Alpha"]);
}

#[test]
fn natural_cmp_is_digit_aware_and_case_insensitive() {
    assert_eq!(natural_cmp("track2", "track10"), Ordering::Less);
    assert_eq!(natural_cmp("Track 10", "track 2"), Ordering::Greater);
    assert_eq!(natural_cmp("The Cure", "cure"), Ordering::Equal);
    assert_eq!(natural_cmp("An Album", "album"), Ordering::Equal);
    assert_eq!(natural_cmp("abc", "abd"), Ordering::Less);
    assert_eq!(natural_cmp("1", "a"), Ordering::Less);
}

// ---------------------------------------------------------------- shuffle

fn queue_of(n: usize) -> QueueState {
    let mut queue = QueueState::new();
    for i in 0..n {
        let queue_id = queue.alloc_queue_id();
        queue.entries.push(QueueEntry { queue_id, track_id: format!("track-{i}") });
    }
    queue.play_order = (0..n).collect();
    queue
}

#[test]
fn shuffle_empty_queue_is_a_noop() {
    let mut queue = queue_of(0);
    shuffle(&mut queue, 1);
    assert_eq!(queue.play_order, Vec::<usize>::new());
    assert_eq!(queue.position, 0);
}

#[test]
fn shuffle_single_entry_queue_is_a_noop() {
    let mut queue = queue_of(1);
    shuffle(&mut queue, 1);
    assert_eq!(queue.play_order, vec![0]);
    assert_eq!(queue.position, 0);
}

#[test]
fn shuffle_at_last_position_is_a_noop() {
    let mut queue = queue_of(5);
    queue.position = 4;
    let before = queue.play_order.clone();
    shuffle(&mut queue, 1);
    assert_eq!(queue.play_order, before);
    assert_eq!(queue.position, 4);
}

#[test]
fn shuffle_preserves_current_track() {
    let mut queue = queue_of(10);
    queue.position = 3;
    let current = queue.current_entry().cloned();
    shuffle(&mut queue, 42);
    assert_eq!(queue.current_entry().cloned(), current);
    assert_eq!(queue.position, 3);
}

#[test]
fn shuffle_does_not_reorder_entries() {
    let mut queue = queue_of(10);
    let entries_before = queue.entries.clone();
    shuffle(&mut queue, 7);
    assert_eq!(queue.entries, entries_before);
}

#[test]
fn shuffle_preserves_played_history_order() {
    let mut queue = queue_of(10);
    queue.position = 4;
    let history_before = queue.play_order[..=4].to_vec();
    shuffle(&mut queue, 99);
    assert_eq!(queue.play_order[..=4], history_before[..]);
}

#[test]
fn shuffle_is_deterministic_for_a_seed() {
    let mut a = queue_of(10);
    let mut b = queue_of(10);
    shuffle(&mut a, 123);
    shuffle(&mut b, 123);
    assert_eq!(a.play_order, b.play_order);
}

#[test]
fn different_seeds_give_different_orders() {
    let mut a = queue_of(10);
    let mut b = queue_of(10);
    shuffle(&mut a, 1);
    shuffle(&mut b, 2);
    assert_ne!(a.play_order, b.play_order);
}

#[test]
fn unshuffle_resets_identity_and_keeps_current_entry() {
    let mut queue = queue_of(10);
    queue.position = 2;
    shuffle(&mut queue, 5);
    let current = queue.current_entry().cloned();
    unshuffle(&mut queue);
    assert_eq!(queue.play_order, (0..10).collect::<Vec<_>>());
    assert_eq!(queue.current_entry().cloned(), current);
    assert!(!queue.shuffled);
}

#[test]
fn unshuffle_round_trips_to_original_order_on_samples() {
    for n in 1usize..12 {
        for seed in [0u64, 1, 77, u64::MAX] {
            let mut queue = queue_of(n);
            queue.position = (seed as usize) % n;
            shuffle(&mut queue, seed);
            unshuffle(&mut queue);
            assert_eq!(queue.play_order, (0..n).collect::<Vec<_>>());
        }
    }
}

// ---------------------------------------------------------------- appears on

#[test]
fn all_keeps_every_track() {
    let a = artist("A");
    let alb = album("Alb", 2020, &a);
    let tracks = vec![track("One", 1, &alb, &[&a]), track("Two", 2, &alb, &[&a])];
    assert_eq!(filter_tracks(&tracks, &TrackFilter::All), tracks);
}

#[test]
fn filter_matches_by_id_not_name() {
    let beatles = artist("Beatles");
    let fab_beatles = artist("Fab Beatles");
    let alb = appears_on_album("Various", 1970, &beatles);
    let by_beatles = track("Yesterday", 1, &alb, &[&beatles]);
    let by_fab_beatles = track("Tomorrow", 2, &alb, &[&fab_beatles]);
    let tracks = vec![by_beatles.clone(), by_fab_beatles];
    let filtered = filter_tracks(&tracks, &TrackFilter::ArtistOnly(beatles.id.clone()));
    assert_eq!(filtered, vec![by_beatles]);
}

#[test]
fn artist_only_excludes_non_matching_tracks() {
    let a = artist("A");
    let b = artist("B");
    let alb = appears_on_album("Comp", 2020, &a);
    let mine = track("Mine", 1, &alb, &[&a]);
    let theirs = track("Theirs", 2, &alb, &[&b]);
    let tracks = vec![mine.clone(), theirs];
    let filtered = filter_tracks(&tracks, &TrackFilter::ArtistOnly(a.id.clone()));
    assert_eq!(filtered, vec![mine]);
}

// ---------------------------------------------------------------- discography

use loxia::discography::classify;

#[test]
fn classification_function_is_shared_not_duplicated() {
    let a = artist("Boy Harsher");
    let alb = album("Care", 2019, &a);
    let t = track("Motion", 1, &alb, &[&a]);
    assert_eq!(classify(&t, &a.id), Some(AlbumRelation::Primary));
}

#[test]
fn classify_finds_appears_on_when_name_not_in_album_artists() {
    let main = artist("Various Artists");
    let contributor = artist("Boy Harsher");
    let alb = appears_on_album("Compilation", 2020, &main);
    let t = track("Track", 1, &alb, &[&contributor]);
    assert_eq!(classify(&t, &contributor.id), Some(AlbumRelation::AppearsOn { context_artist: contributor.id.clone() }));
}

#[test]
fn classify_is_none_for_a_non_contributor() {
    let a = artist("Boy Harsher");
    let stranger = artist("Someone Else");
    let alb = album("Care", 2019, &a);
    let t = track("Motion", 1, &alb, &[&a]);
    assert_eq!(classify(&t, &stranger.id), None);
}

#[test]
fn classify_matches_by_exact_name_not_substring() {
    let beatles = artist("Beatles");
    let fab_beatles = artist("Fab Beatles");
    let alb = album("Revolver", 1966, &beatles);
    let t = track("Yesterday", 1, &alb, &[&fab_beatles]);
    assert_eq!(classify(&t, &fab_beatles.id), Some(AlbumRelation::AppearsOn { context_artist: fab_beatles.id.clone() }));
}
