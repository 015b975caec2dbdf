use loxia::lyrics::{parse_lrc, parse_plain, parse_srt, LyricLine, Lyrics};
use std::time::Duration;


/// A server answering the subtitle request with an empty body parses into one blank line, which
/// used to count as real content: the pane reserved space and drew nothing, so a track looked
/// like it had lyrics that never appeared (`docs/12-decisions.md`).
#[test]
fn all_blank_lines_count_as_empty() {
    assert!(Lyrics::Unsynced(vec![String::new()]).is_empty());
    assert!(Lyrics::Unsynced(vec!["   ".to_string(), "\t".to_string()]).is_empty());
    assert!(
        Lyrics::Synced(vec![LyricLine {
            at: Duration::ZERO,
            text: "  ".to_string(),
        }])
        .is_empty()
    );

    assert!(!Lyrics::Unsynced(vec!["real".to_string()]).is_empty());
    assert!(
        !Lyrics::Synced(vec![LyricLine {
            at: Duration::ZERO,
            text: "real".to_string(),
        }])
        .is_empty()
    );
}

fn d(secs_f64: f64) -> Duration {
    Duration::from_millis((secs_f64 * 1000.0).round() as u64)
}

#[test]
fn parses_centiseconds_and_milliseconds() {
    let l = parse_lrc("[01:24.00]a\n[01:24.005]b");
    match l {
        Lyrics::Synced(lines) => {
            assert_eq!(lines[0].at, d(84.00));
            assert_eq!(lines[1].at, d(84.005));
        }
        _ => panic!("expected synced"),
    }
}

#[test]
fn bare_mm_ss_timestamp() {
    let l = parse_lrc("[01:24]hello");
    match l {
        Lyrics::Synced(lines) => assert_eq!(lines[0].at, d(84.0)),
        _ => panic!("expected synced"),
    }
}

#[test]
fn multiple_timestamps_on_one_line_expand() {
    let l = parse_lrc("[00:12.00][01:30.00] chorus");
    match l {
        Lyrics::Synced(lines) => {
            assert_eq!(lines.len(), 2);
            assert_eq!(lines[0].text, "chorus");
            assert_eq!(lines[1].text, "chorus");
        }
        _ => panic!("expected synced"),
    }
}

#[test]
fn metadata_tags_are_discarded() {
    let l = parse_lrc("[ar:Boy Harsher]\n[ti:Motion]\n[00:01.00]line one");
    match l {
        Lyrics::Synced(lines) => {
            assert_eq!(lines.len(), 1);
            assert_eq!(lines[0].text, "line one");
        }
        _ => panic!("expected synced"),
    }
}

#[test]
fn positive_offset_shifts_earlier() {
    let l = parse_lrc("[offset:+500]\n[00:10.00]line");
    match l {
        Lyrics::Synced(lines) => assert_eq!(lines[0].at, d(9.5)),
        _ => panic!("expected synced"),
    }
}

#[test]
fn negative_offset_shifts_later() {
    let l = parse_lrc("[offset:-500]\n[00:10.00]line");
    match l {
        Lyrics::Synced(lines) => assert_eq!(lines[0].at, d(10.5)),
        _ => panic!("expected synced"),
    }
}

#[test]
fn untimed_lines_dropped_when_synced_lines_exist() {
    let l = parse_lrc("some untimed junk\n[00:01.00]real line");
    match l {
        Lyrics::Synced(lines) => assert_eq!(lines.len(), 1),
        _ => panic!("expected synced"),
    }
}

#[test]
fn all_untimed_input_becomes_unsynced() {
    let l = parse_lrc("line one\nline two");
    assert_eq!(
        l,
        Lyrics::Unsynced(vec!["line one".to_string(), "line two".to_string()])
    );
}

#[test]
fn garbage_input_never_panics_and_becomes_unsynced() {
    let l = parse_lrc("[[[not a tag at all\n[unterminated");
    assert!(matches!(l, Lyrics::Unsynced(_)));
}


#[test]
fn handles_bom_and_crlf() {
    let l = parse_lrc("\u{FEFF}[00:01.00]hi\r\n[00:02.00]there\r\n");
    match l {
        Lyrics::Synced(lines) => {
            assert_eq!(lines.len(), 2);
            assert_eq!(lines[0].text, "hi");
            assert_eq!(lines[1].text, "there");
        }
        _ => panic!("expected synced"),
    }
}

#[test]
fn lines_are_sorted_by_time() {
    let l = parse_lrc("[00:05.00]second\n[00:01.00]first");
    match l {
        Lyrics::Synced(lines) => {
            assert_eq!(lines[0].text, "first");
            assert_eq!(lines[1].text, "second");
        }
        _ => panic!("expected synced"),
    }
}

#[test]
fn active_line_before_first_is_none() {
    let l = parse_lrc("[00:05.00]first");
    assert_eq!(l.active_line(Duration::from_secs(1)), None);
}

#[test]
fn active_line_is_last_at_or_before_position() {
    let l = parse_lrc("[00:01.00]a\n[00:05.00]b\n[00:10.00]c");
    assert_eq!(l.active_line(Duration::from_secs(0)), None);
    assert_eq!(l.active_line(Duration::from_secs(1)), Some(0));
    assert_eq!(l.active_line(Duration::from_secs(4)), Some(0));
    assert_eq!(l.active_line(Duration::from_secs(5)), Some(1));
    assert_eq!(l.active_line(Duration::from_secs(100)), Some(2));
}

#[test]
fn active_line_uses_binary_search_at_scale() {
    let mut src = String::new();
    for i in 0..100_000u32 {
        src.push_str(&format!(
            "[{:02}:{:02}.00]line {i}\n",
            (i / 60) % 100,
            i % 60
        ));
    }
    let l = parse_lrc(&src);
    let start = std::time::Instant::now();
    let _ = l.active_line(Duration::from_secs(500));
    assert!(start.elapsed() < Duration::from_millis(50));
}

#[test]
fn parse_plain_is_always_unsynced() {
    let l = parse_plain("a\nb\nc");
    assert_eq!(
        l,
        Lyrics::Unsynced(vec!["a".to_string(), "b".to_string(), "c".to_string()])
    );
}

fn line(secs: u64, millis: u64, text: &str) -> LyricLine {
    LyricLine {
        at: Duration::from_millis(secs * 1000 + millis),
        text: text.to_string(),
    }
}

/// Cue numbers and the `-->` line are chrome, but the cue's **start** is the whole point: it is
/// what lets `.srt`-fallback lyrics scroll with playback instead of sitting static.
#[test]
fn parse_srt_keeps_cue_start_times() {
    let srt = "1\n00:00:01,000 --> 00:00:04,000\nFirst line\n\n2\n00:01:05,500 --> 00:01:08,000\nSecond line\n";
    assert_eq!(
        parse_srt(srt),
        Lyrics::Synced(vec![line(1, 0, "First line"), line(65, 500, "Second line")])
    );
}

/// The timestamps must be real enough to drive the pane, not merely present.
#[test]
fn parse_srt_output_tracks_playback_position() {
    let srt =
        "1\n00:00:01,000 --> 00:00:04,000\nFirst\n\n2\n00:00:05,000 --> 00:00:08,000\nSecond\n";
    let l = parse_srt(srt);
    assert_eq!(l.active_line(Duration::from_millis(500)), None);
    assert_eq!(l.active_line(Duration::from_secs(2)), Some(0));
    assert_eq!(l.active_line(Duration::from_secs(30)), Some(1));
}

/// A cue's own line breaks are preserved as separate lines sharing its start, so the pane shows
/// the whole cue rather than one long joined row.
#[test]
fn parse_srt_gives_every_line_of_a_cue_the_cue_start() {
    let srt = "1\n00:00:02,000 --> 00:00:06,000\nfirst half\nsecond half\n";
    assert_eq!(
        parse_srt(srt),
        Lyrics::Synced(vec![line(2, 0, "first half"), line(2, 0, "second half")])
    );
}

/// Muxers emit both separators, and hour-less stamps turn up in hand-made files. Refusing
/// either would silently cost the file its timing.
#[test]
fn parse_srt_accepts_decimal_point_and_omitted_hours() {
    assert_eq!(
        parse_srt("1\n00:00:01.250 --> 00:00:04.000\nDot\n"),
        Lyrics::Synced(vec![line(1, 250, "Dot")])
    );
    assert_eq!(
        parse_srt("1\n01:05,000 --> 01:08,000\nNo hours\n"),
        Lyrics::Synced(vec![line(65, 0, "No hours")])
    );
}

/// **Found against the live server.** Emby synthesises an `.srt` from a plain-text lyric
/// sidecar, and every cue in it is `00:00:00,000 --> 00:00:00,000` — cue syntax with no time in
/// it. Honoured as timing, `active_line` picks the *last* line from the very first frame and
/// the pane sits at the bottom of the lyrics for the whole song (`docs/12-decisions.md`).
/// Shape reproduced exactly, BOM included; the words are invented.
#[test]
fn an_srt_with_all_zero_timings_is_not_treated_as_timed() {
    let srt = "\u{FEFF}1\n00:00:00,000 --> 00:00:00,000\nfirst line\n\n\
               2\n00:00:00,000 --> 00:00:00,000\nsecond line\n\n\
               3\n00:00:00,000 --> 00:00:00,000\nthird line\n";
    let lyrics = parse_srt(srt);

    assert_eq!(
        lyrics,
        Lyrics::Unsynced(vec![
            "first line".to_string(),
            "second line".to_string(),
            "third line".to_string(),
        ]),
        "identical timestamps are not timing — keep the words, drop the clock"
    );
    assert_eq!(
        lyrics.active_line(Duration::ZERO),
        None,
        "the pane must not jump to the last line before the song has started"
    );
}

/// The same degenerate shape can reach `parse_lrc`, with the same consequence.
#[test]
fn an_lrc_with_one_repeated_timestamp_is_not_treated_as_timed() {
    // No trailing newline: `parse_lrc`'s untimed path keeps one final empty line for it,
    // which is long-standing behaviour and not what this test is about.
    let lrc = "[00:00.00]first line\n[00:00.00]second line";
    assert_eq!(
        parse_lrc(lrc),
        Lyrics::Unsynced(vec!["first line".to_string(), "second line".to_string()])
    );
}

/// The guard must stay narrow: a single genuinely-timed cue is still timed, and a cue that
/// merely *starts* at zero alongside later ones is normal.
#[test]
fn a_real_timestamp_anywhere_keeps_the_file_synced() {
    let srt =
        "1\n00:00:00,000 --> 00:00:04,000\nfirst\n\n2\n00:00:09,000 --> 00:00:12,000\nsecond\n";
    let lyrics = parse_srt(srt);
    assert_eq!(
        lyrics,
        Lyrics::Synced(vec![line(0, 0, "first"), line(9, 0, "second")])
    );
    assert_eq!(lyrics.active_line(Duration::from_secs(10)), Some(1));
}

/// Nothing timed anywhere: identical to the behaviour before timings were parsed at all.
#[test]
fn parse_srt_falls_back_on_malformed_block() {
    let l = parse_srt("just some text\nmore text");
    assert_eq!(
        l,
        Lyrics::Unsynced(vec!["just some text".to_string(), "more text".to_string()])
    );
}

/// One bad cue must not cost the file the timing every other cue does supply — and the bad
/// cue's raw timecode line must not leak into the lyrics as if it were a lyric.
#[test]
fn parse_srt_keeps_timings_despite_one_unparseable_cue() {
    let srt = "1\nnot:a:time --> whatever\nStray\n\n2\n00:00:09,000 --> 00:00:12,000\nGood\n";
    assert_eq!(parse_srt(srt), Lyrics::Synced(vec![line(9, 0, "Good")]));
}


#[test]
fn is_empty_true_for_empty_variants() {
    assert!(Lyrics::Unsynced(vec![]).is_empty());
    assert!(Lyrics::Synced(vec![]).is_empty());
    assert!(!Lyrics::Unsynced(vec!["x".to_string()]).is_empty());
}

