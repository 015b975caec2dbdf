//! Lyrics, lyric lines, and the LRC / SRT / plain-text parsers.
//!
//! Parsing is forgiving by design: anything that cannot be read as timed lyrics degrades to
//! `Unsynced`, and no input makes a parser fail or panic.
use crate::clock::{duration_as_nanos, duration_from_millis, duration_nanos};
use crate::msort::{iota, key_le, msort_by, sort_indices_by_keys};
use crate::text::{
    ascii_lower_seq, eq_str, find_char, lemma_trim_start_char_len, parse_i64, parse_i64_chars,
    to_ascii_lower_chars, trim, trim_chars, trim_start_char, trim_start_char_chars, all_digits, all_digits_chars, decimal_value, first_index_of, is_digit, lemma_first_index_of,
    parse_digits_u64, slice_vec, split_once_char, split_char, split_char_chars, trim_end_char,
    trim_end_char_chars, views, string_from_chars, chars_of, is_blank, is_blank_chars,
    find_chars, first_occurrence,
};
use std::time::Duration;
use vstd::prelude::*;

verus! {

#[derive(Debug, Clone, PartialEq)]
pub enum Lyrics {
    Unsynced(Vec<String>),
    Synced(Vec<LyricLine>),
}

#[derive(Debug, Clone, PartialEq)]
pub struct LyricLine {
    pub at: Duration,
    pub text: String,
}

/// A lyric line as a value: its time in nanoseconds and its text.
pub open spec fn line_view(l: LyricLine) -> (nat, Seq<char>) {
    (duration_nanos(l.at), l.text@)
}

/// The mathematical value of a `Lyrics`.
pub enum LyricsView {
    Unsynced(Seq<Seq<char>>),
    Synced(Seq<(nat, Seq<char>)>),
}

impl View for Lyrics {
    type V = LyricsView;

    open spec fn view(&self) -> LyricsView {
        match self {
            Lyrics::Unsynced(v) => LyricsView::Unsynced(v@.map_values(|s: String| s@)),
            Lyrics::Synced(v) => LyricsView::Synced(v@.map_values(|l: LyricLine| line_view(l))),
        }
    }
}

// ---------------------------------------------------------------- lines

/// Drops a leading byte-order mark.
pub open spec fn strip_bom(s: Seq<char>) -> Seq<char> {
    if s.len() > 0 && s[0] == '\u{FEFF}' {
        s.drop_first()
    } else {
        s
    }
}

/// The input's lines: BOM removed, split on `\n`, trailing `\r`s removed from each line.
pub open spec fn split_lines(s: Seq<char>) -> Seq<Seq<char>> {
    split_char(strip_bom(s), '\n').map_values(|l: Seq<char>| trim_end_char(l, '\r'))
}

fn split_lines_exec(v: &[char]) -> (r: Vec<Vec<char>>)
    ensures
        views(r@) == split_lines(v@),
{
    let body = if v.len() > 0 && v[0] == '\u{FEFF}' {
        slice_vec(v, 1, v.len())
    } else {
        slice_vec(v, 0, v.len())
    };
    proof {
        assert(body@ =~= strip_bom(v@));
    }
    let pieces = split_char_chars(&body, '\n');
    let mut r: Vec<Vec<char>> = Vec::new();
    let mut i: usize = 0;
    while i < pieces.len()
        invariant
            i <= pieces@.len(),
            views(pieces@) == split_char(strip_bom(v@), '\n'),
            views(r@) == views(pieces@).take(i as int).map_values(
                |l: Seq<char>| trim_end_char(l, '\r'),
            ),
        decreases pieces@.len() - i,
    {
        let line = trim_end_char_chars(&pieces[i], '\r');
        let ghost prev = r@;
        r.push(line);
        proof {
            let target = views(pieces@).take(i + 1).map_values(|l: Seq<char>| trim_end_char(l, '\r'));
            assert(views(pieces@)[i as int] == pieces@[i as int]@);
            assert(r@ == prev.push(line));
            assert(views(prev).len() == i);
            assert(prev.len() == i);
            assert(r@.len() == i + 1);
            assert forall|j: int| 0 <= j < i + 1 implies views(r@)[j] == target[j] by {
                assert(views(r@)[j] == r@[j]@);
                assert(target[j] == trim_end_char(views(pieces@).take(i + 1)[j], '\r'));
                if j < i {
                    assert(r@[j] == prev[j]);
                    assert(views(prev)[j] == prev[j]@);
                    assert(views(prev)[j] == trim_end_char(views(pieces@).take(i as int)[j], '\r'));
                }
            }
            assert(views(r@) =~= target);
        }
        i = i + 1;
    }
    proof {
        assert(views(pieces@).take(pieces@.len() as int) =~= views(pieces@));
    }
    r
}

// ---------------------------------------------------------------- timestamps

/// Milliseconds from the digits after the decimal separator: one digit is tenths, two are
/// hundredths, three or more are thousandths (digits past the third are ignored).
pub open spec fn frac_millis(f: Seq<char>) -> Option<nat> {
    if f.len() == 0 || !all_digits(f) {
        None
    } else {
        let d = if f.len() < 3 { f } else { f.take(3) };
        let v = decimal_value(d);
        Some(if d.len() == 1 { v * 100 } else if d.len() == 2 { v * 10 } else { v })
    }
}

/// `mm:ss`, `mm:ss.x`, `mm:ss.xx`, `mm:ss.xxx` as milliseconds, or `None`. A value too large for
/// a `u64` millisecond count is not a timestamp.
pub open spec fn lrc_timestamp(s: Seq<char>) -> Option<nat> {
    match first_index_of(s, ':') {
        None => None,
        Some(k) => {
            let minutes = s.take(k);
            let rest = s.skip(k + 1);
            let (seconds, frac) = match first_index_of(rest, '.') {
                Some(d) => (rest.take(d), Some(rest.skip(d + 1))),
                None => (rest, None::<Seq<char>>),
            };
            if minutes.len() == 0 || !all_digits(minutes) || seconds.len() != 2 || !all_digits(
                seconds,
            ) {
                None
            } else {
                let millis = match frac {
                    None => Some(0nat),
                    Some(f) => frac_millis(f),
                };
                match millis {
                    None => None,
                    Some(ms) => {
                        let total = decimal_value(minutes) * 60000 + decimal_value(seconds) * 1000
                            + ms;
                        if total <= u64::MAX {
                            Some(total as nat)
                        } else {
                            None
                        }
                    },
                }
            }
        },
    }
}

fn frac_millis_exec(f: &[char]) -> (r: Option<u64>)
    ensures
        match r {
            Some(v) => frac_millis(f@) == Some(v as nat),
            None => frac_millis(f@) is None,
        },
{
    if f.len() == 0 || !all_digits_chars(f) {
        return None;
    }
    let d = if f.len() < 3 {
        slice_vec(f, 0, f.len())
    } else {
        slice_vec(f, 0, 3)
    };
    proof {
        assert(f.len() < 3 ==> d@ =~= f@);
        assert(all_digits(d@));
        lemma_decimal_value_small(d@);
    }
    let v = match parse_digits_u64(&d) {
        Some(v) => v,
        None => { return None; },
    };
    if d.len() == 1 {
        Some(v * 100)
    } else if d.len() == 2 {
        Some(v * 10)
    } else {
        Some(v)
    }
}

/// Up to three digits have a value below 1000.
pub proof fn lemma_decimal_value_small(d: Seq<char>)
    requires
        d.len() <= 3,
        all_digits(d),
    ensures
        decimal_value(d) < 1000,
        d.len() == 1 ==> decimal_value(d) < 10,
        d.len() == 2 ==> decimal_value(d) < 100,
        d.len() == 0 ==> decimal_value(d) == 0,
    decreases d.len(),
{
    if d.len() > 0 {
        assert(all_digits(d.drop_last()));
        lemma_decimal_value_small(d.drop_last());
        assert(is_digit(d.last()));
    }
}

fn lrc_timestamp_exec(s: &[char]) -> (r: Option<u64>)
    ensures
        match r {
            Some(v) => lrc_timestamp(s@) == Some(v as nat),
            None => lrc_timestamp(s@) is None,
        },
{
    proof {
        lemma_first_index_of(s@, ':');
    }
    let (minutes, rest) = match split_once_char(s, ':') {
        None => { return None; },
        Some(p) => p,
    };
    proof {
        lemma_first_index_of(rest@, '.');
    }
    let (seconds, frac) = match split_once_char(&rest, '.') {
        Some((a, b)) => (a, Some(b)),
        None => (rest.clone(), None),
    };
    if minutes.len() == 0 || !all_digits_chars(&minutes) || seconds.len() != 2
        || !all_digits_chars(&seconds) {
        return None;
    }
    let ms: u64 = match frac {
        None => 0,
        Some(f) => match frac_millis_exec(&f) {
            Some(v) => v,
            None => { return None; },
        },
    };
    proof {
        lemma_decimal_value_small(seconds@);
    }
    let sec = match parse_digits_u64(&seconds) {
        Some(v) => v,
        None => { return None; },
    };
    let min = match parse_digits_u64(&minutes) {
        Some(v) => v,
        None => { return None; },
    };
    let total: u128 = min as u128 * 60_000 + sec as u128 * 1000 + ms as u128;
    if total > u64::MAX as u128 {
        return None;
    }
    Some(total as u64)
}


// ---------------------------------------------------------------- LRC tags

/// A recognised leading `[...]` tag of an LRC line.
pub enum LrcTag {
    Time(nat),
    Offset(int),
    Metadata,
}

/// The metadata keys whose tags are discarded (`ar`, `ti`, `al`, `by`, `re`, `ve`, `length`).
pub open spec fn is_metadata_key(k: Seq<char>) -> bool {
    k == "ar"@ || k == "ti"@ || k == "al"@ || k == "by"@ || k == "re"@ || k == "ve"@ || k
        == "length"@
}

/// What a tag's bracketed content means: a timestamp, an `offset:` (its value parsed as a
/// signed millisecond count, 0 when unreadable), a metadata key, or nothing recognised.
pub open spec fn classify_tag(content: Seq<char>) -> Option<LrcTag> {
    match lrc_timestamp(content) {
        Some(ms) => Some(LrcTag::Time(ms)),
        None => match first_index_of(content, ':') {
            None => None,
            Some(k) => {
                let key = ascii_lower_seq(trim(content.take(k)));
                let value = content.skip(k + 1);
                if key == "offset"@ {
                    Some(
                        LrcTag::Offset(
                            match parse_i64(trim_start_char(trim(value), '+')) {
                                Some(v) => v,
                                None => 0,
                            },
                        ),
                    )
                } else if is_metadata_key(key) {
                    Some(LrcTag::Metadata)
                } else {
                    None
                }
            },
        },
    }
}

/// Strips the recognised leading tags of a line (spaces before a tag are skipped); stops at the
/// first bracket that is not a recognised tag, which stays in the returned rest.
pub open spec fn strip_tags(line: Seq<char>) -> (Seq<LrcTag>, Seq<char>)
    decreases line.len(),
{
    let t = trim_start_char(line, ' ');
    if t.len() == 0 || t[0] != '[' {
        (Seq::empty(), line)
    } else {
        let after = t.drop_first();
        match first_index_of(after, ']') {
            None => (Seq::empty(), line),
            Some(c) => {
                if 0 <= c < after.len() {
                    match classify_tag(after.take(c)) {
                        None => (Seq::empty(), line),
                        Some(tag) => {
                            proof {
                                lemma_trim_start_char_len(line, ' ');
                            }
                            let inner = strip_tags(after.skip(c + 1));
                            (seq![tag] + inner.0, inner.1)
                        },
                    }
                } else {
                    (Seq::empty(), line)
                }
            },
        }
    }
}

pub enum Tag {
    Time(u64),
    Offset(i64),
    Metadata,
}

impl View for Tag {
    type V = LrcTag;

    open spec fn view(&self) -> LrcTag {
        match self {
            Tag::Time(t) => LrcTag::Time(*t as nat),
            Tag::Offset(o) => LrcTag::Offset(*o as int),
            Tag::Metadata => LrcTag::Metadata,
        }
    }
}

fn is_metadata_key_exec(k: &[char]) -> (r: bool)
    ensures
        r == is_metadata_key(k@),
{
    eq_str(k, "ar") || eq_str(k, "ti") || eq_str(k, "al") || eq_str(k, "by") || eq_str(k, "re")
        || eq_str(k, "ve") || eq_str(k, "length")
}

fn classify_tag_exec(content: &[char]) -> (r: Option<Tag>)
    ensures
        match r {
            Some(t) => classify_tag(content@) == Some(t@),
            None => classify_tag(content@) is None,
        },
{
    if let Some(ms) = lrc_timestamp_exec(content) {
        return Some(Tag::Time(ms));
    }
    proof {
        lemma_first_index_of(content@, ':');
    }
    match split_once_char(content, ':') {
        None => None,
        Some((key_raw, value)) => {
            let key = to_ascii_lower_chars(&trim_chars(&key_raw));
            if eq_str(&key, "offset") {
                let v = trim_start_char_chars(&trim_chars(&value), '+');
                let ms: i64 = match parse_i64_chars(&v) {
                    Some(x) => x,
                    None => 0,
                };
                Some(Tag::Offset(ms))
            } else if is_metadata_key_exec(&key) {
                Some(Tag::Metadata)
            } else {
                None
            }
        },
    }
}

pub open spec fn tags_view(v: Seq<Tag>) -> Seq<LrcTag> {
    v.map_values(|t: Tag| t@)
}

fn strip_leading_tags(line: &[char]) -> (r: (Vec<Tag>, Vec<char>))
    ensures
        tags_view(r.0@) == strip_tags(line@).0,
        r.1@ == strip_tags(line@).1,
{
    let mut tags: Vec<Tag> = Vec::new();
    let mut cur = slice_vec(line, 0, line.len());
    assert(cur@ =~= line@);
    loop
        invariant
            tags_view(tags@) + strip_tags(cur@).0 == strip_tags(line@).0,
            strip_tags(cur@).1 == strip_tags(line@).1,
        decreases cur@.len(),
    {
        let t = trim_start_char_chars(&cur, ' ');
        if t.len() == 0 || t[0] != '[' {
            assert(strip_tags(cur@).0 =~= Seq::<LrcTag>::empty());
            assert(tags_view(tags@) + Seq::<LrcTag>::empty() =~= tags_view(tags@));
            return (tags, cur);
        }
        let after = slice_vec(&t, 1, t.len());
        assert(after@ =~= t@.drop_first());
        proof {
            lemma_first_index_of(after@, ']');
        }
        match find_char(&after, ']') {
            None => {
                assert(strip_tags(cur@).0 =~= Seq::<LrcTag>::empty());
                assert(tags_view(tags@) + Seq::<LrcTag>::empty() =~= tags_view(tags@));
                return (tags, cur);
            },
            Some(c) => {
                let content = slice_vec(&after, 0, c);
                assert(content@ =~= after@.take(c as int));
                match classify_tag_exec(&content) {
                    None => {
                        assert(strip_tags(cur@).0 =~= Seq::<LrcTag>::empty());
                        assert(tags_view(tags@) + Seq::<LrcTag>::empty() =~= tags_view(tags@));
                        return (tags, cur);
                    },
                    Some(tag) => {
                        let next = slice_vec(&after, c + 1, after.len());
                        assert(next@ =~= after@.skip(c + 1));
                        proof {
                            lemma_trim_start_char_len(cur@, ' ');
                        }
                        let ghost prev_tags = tags@;
                        let ghost tv = tag@;
                        tags.push(tag);
                        proof {
                            assert(tags_view(tags@) =~= tags_view(prev_tags).push(tv));
                            assert(strip_tags(cur@).0 == seq![tv] + strip_tags(next@).0);
                            assert(tags_view(tags@) + strip_tags(next@).0 =~= tags_view(prev_tags)
                                + (seq![tv] + strip_tags(next@).0));
                        }
                        cur = next;
                    },
                }
            },
        }
    }
}


// ---------------------------------------------------------------- shared result building

/// Timed lines as (milliseconds, text) pairs.
pub open spec fn pairs(times: Seq<u64>, texts: Seq<Vec<char>>) -> Seq<(nat, Seq<char>)> {
    Seq::new(times.len(), |i: int| (times[i] as nat, texts[i]@))
}

/// The millisecond keys of timed lines (each at most `u64::MAX`).
pub open spec fn keys_of(lines: Seq<(nat, Seq<char>)>) -> Seq<u64> {
    lines.map_values(|l: (nat, Seq<char>)| l.0 as u64)
}

/// `lines` in ascending time order; lines with equal times keep their relative order.
pub open spec fn sort_by_time(lines: Seq<(nat, Seq<char>)>) -> Seq<(nat, Seq<char>)> {
    msort_by(iota(lines.len()), key_le(keys_of(lines))).map_values(|i: usize| lines[i as int])
}

/// Milliseconds to the nanosecond view of a `Duration`.
pub open spec fn to_nanos(lines: Seq<(nat, Seq<char>)>) -> Seq<(nat, Seq<char>)> {
    lines.map_values(|l: (nat, Seq<char>)| (l.0 * 1_000_000, l.1))
}

/// At least one line has a non-zero time: timing worth honouring.
pub open spec fn has_usable_timing(lines: Seq<(nat, Seq<char>)>) -> bool {
    exists|i: int| 0 <= i < lines.len() && lines[i].0 > 0
}

/// The texts of timed lines, in order.
pub open spec fn texts_of(lines: Seq<(nat, Seq<char>)>) -> Seq<Seq<char>> {
    lines.map_values(|l: (nat, Seq<char>)| l.1)
}

fn usable_timing_exec(times: &Vec<u64>) -> (r: bool)
    ensures
        r == exists|i: int| 0 <= i < times@.len() && times@[i] > 0,
{
    let mut i: usize = 0;
    while i < times.len()
        invariant
            i <= times@.len(),
            forall|k: int| 0 <= k < i ==> times@[k] == 0,
        decreases times@.len() - i,
    {
        if times[i] > 0 {
            return true;
        }
        i = i + 1;
    }
    false
}

fn strings_of(v: &Vec<Vec<char>>) -> (r: Vec<String>)
    ensures
        r@.map_values(|s: String| s@) == views(v@),
{
    let mut r: Vec<String> = Vec::new();
    let mut i: usize = 0;
    while i < v.len()
        invariant
            i <= v@.len(),
            r@.map_values(|s: String| s@) == views(v@).take(i as int),
        decreases v@.len() - i,
    {
        let s = string_from_chars(&v[i]);
        let ghost prev = r@;
        r.push(s);
        proof {
            assert(r@.map_values(|s: String| s@) =~= prev.map_values(|s: String| s@).push(s@));
            assert(views(v@).take(i + 1) =~= views(v@).take(i as int).push(v@[i as int]@));
        }
        i = i + 1;
    }
    assert(views(v@).take(v@.len() as int) =~= views(v@));
    r
}

/// `Lyrics::Unsynced` over the timed texts followed by the untimed lines.
fn build_unsynced(texts: Vec<Vec<char>>, untimed: Vec<Vec<char>>) -> (r: Lyrics)
    ensures
        r@ == LyricsView::Unsynced(views(texts@) + views(untimed@)),
{
    let mut all = texts;
    let ghost a = all@;
    let mut i: usize = 0;
    while i < untimed.len()
        invariant
            i <= untimed@.len(),
            views(all@) == views(a) + views(untimed@).take(i as int),
        decreases untimed@.len() - i,
    {
        let ghost prev = all@;
        let c = slice_vec(&untimed[i], 0, untimed[i].len());
        assert(c@ =~= untimed@[i as int]@);
        all.push(c);
        proof {
            assert(all@ == prev.push(c));
            assert(views(all@) =~= views(prev).push(untimed@[i as int]@));
            assert(views(untimed@).take(i + 1) =~= views(untimed@).take(i as int).push(
                untimed@[i as int]@,
            ));
        }
        i = i + 1;
    }
    assert(views(untimed@).take(untimed@.len() as int) =~= views(untimed@));
    Lyrics::Unsynced(strings_of(&all))
}

/// `Lyrics::Synced` over the lines stably sorted by time.
fn build_synced(times: &Vec<u64>, texts: &Vec<Vec<char>>) -> (r: Lyrics)
    requires
        times@.len() == texts@.len(),
    ensures
        r@ == LyricsView::Synced(to_nanos(sort_by_time(pairs(times@, texts@)))),
{
    let ghost lines = pairs(times@, texts@);
    proof {
        assert(keys_of(lines) =~= times@);
    }
    let order = sort_indices_by_keys(times);
    proof {
        crate::msort::lemma_msort_multiset(iota(times@.len()), key_le(times@));
        crate::msort::lemma_msort_in_range(iota(times@.len()), key_le(times@), times@.len());
    }
    let mut out: Vec<LyricLine> = Vec::new();
    let mut k: usize = 0;
    while k < order.len()
        invariant
            k <= order@.len(),
            order@.len() == times@.len(),
            times@.len() == texts@.len(),
            lines == pairs(times@, texts@),
            forall|j: int| 0 <= j < order@.len() ==> order@[j] < times@.len(),
            order@ == msort_by(iota(times@.len()), key_le(keys_of(lines))),
            out@.map_values(|l: LyricLine| line_view(l)) == to_nanos(
                sort_by_time(lines).take(k as int),
            ),
        decreases order@.len() - k,
    {
        let idx = order[k];
        let at = duration_from_millis(times[idx]);
        let text = string_from_chars(&texts[idx]);
        let ghost prev = out@;
        out.push(LyricLine { at, text });
        proof {
            let sorted = sort_by_time(lines);
            assert(sorted[k as int] == lines[idx as int]);
            assert(sorted.take(k + 1) =~= sorted.take(k as int).push(sorted[k as int]));
            assert(out@.map_values(|l: LyricLine| line_view(l)) =~= prev.map_values(
                |l: LyricLine| line_view(l),
            ).push(line_view(out@[k as int])));
            assert(to_nanos(sorted.take(k + 1)) =~= to_nanos(sorted.take(k as int)).push(
                (sorted[k as int].0 * 1_000_000, sorted[k as int].1),
            ));
        }
        k = k + 1;
    }
    proof {
        assert(sort_by_time(lines).take(order@.len() as int) =~= sort_by_time(lines));
    }
    Lyrics::Synced(out)
}


// ---------------------------------------------------------------- LRC

/// The times of the `Time` tags, in order.
pub open spec fn tag_times(tags: Seq<LrcTag>) -> Seq<nat>
    decreases tags.len(),
{
    if tags.len() == 0 {
        Seq::empty()
    } else {
        let prev = tag_times(tags.drop_last());
        match tags.last() {
            LrcTag::Time(t) => prev.push(t),
            _ => prev,
        }
    }
}

/// The offset in force after reading `tags`: the last `Offset` tag, else `cur`.
pub open spec fn tags_offset(tags: Seq<LrcTag>, cur: int) -> int
    decreases tags.len(),
{
    if tags.len() == 0 {
        cur
    } else {
        match tags.last() {
            LrcTag::Offset(o) => o,
            _ => tags_offset(tags.drop_last(), cur),
        }
    }
}

/// What the LRC reader has gathered so far.
pub struct LrcState {
    pub offset: int,
    pub timed: Seq<(nat, Seq<char>)>,
    pub untimed: Seq<Seq<char>>,
}

/// One raw line read into the state: each timestamp of the line yields the line's text (one
/// leading space dropped); a line of only tags and whitespace is header data and dropped; any
/// other line is kept, whole, as untimed text.
pub open spec fn lrc_step(st: LrcState, raw: Seq<char>) -> LrcState {
    let (tags, rest) = strip_tags(raw);
    let times = tag_times(tags);
    let offset = tags_offset(tags, st.offset);
    if times.len() > 0 {
        let text = if rest.len() > 0 && rest[0] == ' ' {
            rest.drop_first()
        } else {
            rest
        };
        LrcState {
            offset,
            timed: st.timed + times.map_values(|t: nat| (t, text)),
            untimed: st.untimed,
        }
    } else if tags.len() > 0 && is_blank(rest) {
        LrcState { offset, timed: st.timed, untimed: st.untimed }
    } else {
        LrcState { offset, timed: st.timed, untimed: st.untimed.push(raw) }
    }
}

/// The state after reading `lines` in order.
pub open spec fn lrc_fold(lines: Seq<Seq<char>>) -> LrcState
    decreases lines.len(),
{
    if lines.len() == 0 {
        LrcState { offset: 0, timed: Seq::empty(), untimed: Seq::empty() }
    } else {
        lrc_step(lrc_fold(lines.drop_last()), lines.last())
    }
}

/// A time moved earlier by a positive offset (later by a negative one), clamped to the range of
/// a `u64` millisecond count.
pub open spec fn shift_by_offset(at: nat, offset: int) -> nat {
    let v = at - offset;
    if v < 0 {
        0
    } else if v > u64::MAX {
        u64::MAX as nat
    } else {
        v as nat
    }
}

/// The LRC reading of `input`: `Synced` (offset applied, sorted by time) when some timestamp is
/// non-zero; otherwise `Unsynced` over the timed texts followed by the untimed lines.
pub open spec fn spec_parse_lrc(input: Seq<char>) -> LyricsView {
    let st = lrc_fold(split_lines(input));
    if has_usable_timing(st.timed) {
        LyricsView::Synced(
            to_nanos(
                sort_by_time(
                    st.timed.map_values(
                        |l: (nat, Seq<char>)| (shift_by_offset(l.0, st.offset), l.1),
                    ),
                ),
            ),
        )
    } else {
        LyricsView::Unsynced(texts_of(st.timed) + st.untimed)
    }
}

fn shift_exec(at: u64, offset: i64) -> (r: u64)
    ensures
        r as nat == shift_by_offset(at as nat, offset as int),
{
    let v: i128 = at as i128 - offset as i128;
    if v < 0 {
        0
    } else if v > u64::MAX as i128 {
        u64::MAX
    } else {
        v as u64
    }
}

/// Parses an LRC file. Never fails: input with no usable timestamp degrades to `Unsynced`,
/// keeping the lines that are not pure metadata.
pub fn parse_lrc(input: &str) -> (r: Lyrics)
    ensures
        r@ == spec_parse_lrc(input@),
{
    let chars = chars_of(input);
    let lines = split_lines_exec(&chars);
    let mut offset: i64 = 0;
    let mut times: Vec<u64> = Vec::new();
    let mut texts: Vec<Vec<char>> = Vec::new();
    let mut untimed: Vec<Vec<char>> = Vec::new();
    let mut i: usize = 0;
    proof {
        assert(pairs(times@, texts@) =~= Seq::<(nat, Seq<char>)>::empty());
        assert(views(untimed@) =~= Seq::<Seq<char>>::empty());
        assert(views(lines@).take(0) =~= Seq::<Seq<char>>::empty());
    }
    while i < lines.len()
        invariant
            i <= lines@.len(),
            views(lines@) == split_lines(input@),
            times@.len() == texts@.len(),
            lrc_fold(views(lines@).take(i as int)) == (LrcState {
                offset: offset as int,
                timed: pairs(times@, texts@),
                untimed: views(untimed@),
            }),
        decreases lines@.len() - i,
    {
        let raw = &lines[i];
        let ghost rawv = raw@;
        let ghost st = lrc_fold(views(lines@).take(i as int));
        proof {
            assert(views(lines@).take(i + 1).drop_last() =~= views(lines@).take(i as int));
            assert(views(lines@).take(i + 1).last() == rawv);
        }
        let (tags, rest) = strip_leading_tags(raw);
        let ghost tv = tags_view(tags@);
        let mut line_times: Vec<u64> = Vec::new();
        let mut j: usize = 0;
        while j < tags.len()
            invariant
                j <= tags@.len(),
                tv == tags_view(tags@),
                line_times@.map_values(|t: u64| t as nat) == tag_times(tv.take(j as int)),
                tags_offset(tv.take(j as int), st.offset) == offset as int,
            decreases tags@.len() - j,
        {
            proof {
                assert(tv.take(j + 1).drop_last() =~= tv.take(j as int));
                assert(tv.take(j + 1).last() == tags@[j as int]@);
            }
            match &tags[j] {
                Tag::Time(t) => {
                    let ghost prev = line_times@;
                    line_times.push(*t);
                    proof {
                        assert(line_times@.map_values(|t: u64| t as nat) =~= prev.map_values(
                            |t: u64| t as nat,
                        ).push(*t as nat));
                    }
                },
                Tag::Offset(o) => {
                    offset = *o;
                },
                Tag::Metadata => {},
            }
            j = j + 1;
        }
        proof {
            assert(tv.take(tags@.len() as int) =~= tv);
        }
        if line_times.len() > 0 {
            let text = if rest.len() > 0 && rest[0] == ' ' {
                slice_vec(&rest, 1, rest.len())
            } else {
                slice_vec(&rest, 0, rest.len())
            };
            proof {
                if rest@.len() > 0 && rest@[0] == ' ' {
                    assert(text@ =~= rest@.drop_first());
                } else {
                    assert(text@ =~= rest@);
                }
            }
            let ghost before = pairs(times@, texts@);
            let mut k: usize = 0;
            while k < line_times.len()
                invariant
                    k <= line_times@.len(),
                    times@.len() == texts@.len(),
                    pairs(times@, texts@) == before + line_times@.map_values(
                        |t: u64| t as nat,
                    ).take(k as int).map_values(|t: nat| (t, text@)),
                decreases line_times@.len() - k,
            {
                let ghost pt = times@;
                let ghost px = texts@;
                times.push(line_times[k]);
                let c = slice_vec(&text, 0, text.len());
                assert(c@ =~= text@);
                texts.push(c);
                proof {
                    let lt = line_times@.map_values(|t: u64| t as nat);
                    assert(lt.take(k + 1) =~= lt.take(k as int).push(line_times@[k as int] as nat));
                    assert(times@ == pt.push(line_times@[k as int]));
                    assert(texts@ == px.push(c));
                    assert(pairs(times@, texts@) =~= pairs(pt, px).push(
                        (line_times@[k as int] as nat, text@),
                    ));
                    assert(pairs(times@, texts@) =~= before + lt.take(k + 1).map_values(
                        |t: nat| (t, text@),
                    ));
                }
                k = k + 1;
            }
            proof {
                let lt = line_times@.map_values(|t: u64| t as nat);
                assert(lt.take(line_times@.len() as int) =~= lt);
            }
        } else if tags.len() > 0 && is_blank_chars(&rest) {
        } else {
            let ghost pu = untimed@;
            untimed.push(slice_vec(raw, 0, raw.len()));
            proof {
                assert(untimed@[untimed@.len() - 1]@ =~= rawv);
                assert(views(untimed@) =~= views(pu).push(rawv));
            }
        }
        i = i + 1;
    }
    proof {
        assert(views(lines@).take(lines@.len() as int) =~= views(lines@));
    }
    if usable_timing_exec(&times) {
        let mut shifted: Vec<u64> = Vec::new();
        let mut k: usize = 0;
        while k < times.len()
            invariant
                k <= times@.len(),
                shifted@.len() == k,
                forall|j: int| 0 <= j < k ==> shifted@[j] as nat == shift_by_offset(
                    times@[j] as nat,
                    offset as int,
                ),
            decreases times@.len() - k,
        {
            shifted.push(shift_exec(times[k], offset));
            k = k + 1;
        }
        proof {
            let st = lrc_fold(split_lines(input@));
            assert(has_usable_timing(st.timed)) by {
                let w = choose|w: int| 0 <= w < times@.len() && times@[w] > 0;
                assert(st.timed[w].0 > 0);
            }
            assert(pairs(shifted@, texts@) =~= st.timed.map_values(
                |l: (nat, Seq<char>)| (shift_by_offset(l.0, st.offset), l.1),
            ));
        }
        build_synced(&shifted, &texts)
    } else {
        proof {
            let st = lrc_fold(split_lines(input@));
            assert(!has_usable_timing(st.timed)) by {
                if has_usable_timing(st.timed) {
                    let w = choose|w: int| 0 <= w < st.timed.len() && st.timed[w].0 > 0;
                    assert(times@[w] > 0);
                }
            }
            assert(texts_of(st.timed) =~= views(texts@));
        }
        build_unsynced(texts, untimed)
    }
}


/// Plain-text lyrics: always `Unsynced`, one entry per input line.
pub fn parse_plain(input: &str) -> (r: Lyrics)
    ensures
        r@ == LyricsView::Unsynced(split_lines(input@)),
{
    let chars = chars_of(input);
    let lines = split_lines_exec(&chars);
    Lyrics::Unsynced(strings_of(&lines))
}

// ---------------------------------------------------------------- SRT

/// Index of the first `,` or `.` in `s`.
pub open spec fn first_decimal_sep(s: Seq<char>) -> Option<int>
    decreases s.len(),
{
    if s.len() == 0 {
        None
    } else if s[0] == ',' || s[0] == '.' {
        Some(0)
    } else {
        match first_decimal_sep(s.drop_first()) {
            Some(i) => Some(i + 1),
            None => None,
        }
    }
}

pub proof fn lemma_first_decimal_sep(s: Seq<char>)
    ensures
        match first_decimal_sep(s) {
            Some(i) => 0 <= i < s.len() && (s[i] == ',' || s[i] == '.') && forall|k: int|
                0 <= k < i ==> s[k] != ',' && s[k] != '.',
            None => forall|k: int| 0 <= k < s.len() ==> s[k] != ',' && s[k] != '.',
        },
    decreases s.len(),
{
    if s.len() > 0 {
        lemma_first_decimal_sep(s.drop_first());
        if !(s[0] == ',' || s[0] == '.') {
            match first_decimal_sep(s.drop_first()) {
                Some(i) => {
                    assert forall|k: int| 0 <= k < i + 1 implies s[k] != ',' && s[k] != '.' by {
                        if k > 0 {
                            assert(s[k] == s.drop_first()[k - 1]);
                        }
                    }
                },
                None => {
                    assert forall|k: int| 0 <= k < s.len() implies s[k] != ',' && s[k] != '.' by {
                        if k > 0 {
                            assert(s[k] == s.drop_first()[k - 1]);
                        }
                    }
                },
            }
        }
    }
}

/// The part of a clock before its decimal separator.
pub open spec fn clock_whole(t: Seq<char>) -> Seq<char> {
    match first_decimal_sep(t) {
        Some(k) => t.take(k),
        None => t,
    }
}

/// A clock field: non-empty, digits only, and small enough to parse.
pub open spec fn clock_field_ok(f: Seq<char>) -> bool {
    f.len() > 0 && all_digits(f) && decimal_value(f) <= u64::MAX
}

/// An SRT cue clock, `HH:MM:SS,mmm` (or with `.`, or without the hours), as milliseconds.
pub open spec fn srt_timestamp(s: Seq<char>) -> Option<nat> {
    let t = trim(s);
    let frac = match first_decimal_sep(t) {
        Some(k) => Some(t.skip(k + 1)),
        None => None::<Seq<char>>,
    };
    let fields = split_char(clock_whole(t), ':');
    if !(forall|i: int| 0 <= i < fields.len() ==> clock_field_ok(#[trigger] fields[i])) {
        None
    } else if fields.len() != 2 && fields.len() != 3 {
        None
    } else {
        let secs: nat = if fields.len() == 3 {
            decimal_value(fields[0]) * 3600 + decimal_value(fields[1]) * 60 + decimal_value(
                fields[2],
            )
        } else {
            decimal_value(fields[0]) * 60 + decimal_value(fields[1])
        };
        let millis = match frac {
            None => Some(0nat),
            Some(f) => frac_millis(f),
        };
        match millis {
            None => None,
            Some(ms) => if secs * 1000 + ms <= u64::MAX {
                Some(secs * 1000 + ms)
            } else {
                None
            },
        }
    }
}

proof fn lemma_srt_bad_field(s: Seq<char>, i: int)
    requires
        0 <= i < split_char(clock_whole(trim(s)), ':').len(),
        !clock_field_ok(split_char(clock_whole(trim(s)), ':')[i]),
    ensures
        srt_timestamp(s) is None,
{
}

fn srt_timestamp_exec(s: &[char]) -> (r: Option<u64>)
    ensures
        match r {
            Some(v) => srt_timestamp(s@) == Some(v as nat),
            None => srt_timestamp(s@) is None,
        },
{
    let t = trim_chars(s);
    let mut k: usize = 0;
    while k < t.len() && t[k] != ',' && t[k] != '.'
        invariant
            k <= t@.len(),
            forall|j: int| 0 <= j < k ==> t@[j] != ',' && t@[j] != '.',
        decreases t@.len() - k,
    {
        k = k + 1;
    }
    proof {
        lemma_first_decimal_sep(t@);
        if k < t@.len() {
            assert(first_decimal_sep(t@) == Some(k as int));
        } else {
            assert(first_decimal_sep(t@) is None);
        }
    }
    let whole = slice_vec(&t, 0, k);
    let frac = if k < t.len() {
        Some(slice_vec(&t, k + 1, t.len()))
    } else {
        None
    };
    proof {
        if k < t@.len() {
            assert(whole@ =~= t@.take(k as int));
        } else {
            assert(whole@ =~= t@);
        }
    }
    let fields = split_char_chars(&whole, ':');
    let ghost fv = views(fields@);
    proof {
        assert(fv == split_char(whole@, ':'));
    }
    let mut values: Vec<u64> = Vec::new();
    let mut i: usize = 0;
    while i < fields.len()
        invariant
            i <= fields@.len(),
            fv == views(fields@),
            t@ == trim(s@),
            whole@ == clock_whole(t@),
            fv == split_char(whole@, ':'),
            values@.len() == i,
            forall|j: int| 0 <= j < i ==> clock_field_ok(#[trigger] fv[j]) && values@[j] as nat
                == decimal_value(fv[j]),
        decreases fields@.len() - i,
    {
        assert(fv[i as int] == fields@[i as int]@);
        let empty = fields[i].len() == 0;
        let digits = all_digits_chars(&fields[i]);
        if empty || !digits {
            proof {
                lemma_srt_bad_field(s@, i as int);
            }
            return None;
        }
        match parse_digits_u64(&fields[i]) {
            None => {
                assert(!clock_field_ok(fv[i as int]));
                assert(!(forall|j: int| 0 <= j < fv.len() ==> clock_field_ok(#[trigger] fv[j])));
                return None;
            },
            Some(v) => {
                values.push(v);
            },
        }
        i = i + 1;
    }
    if fields.len() != 2 && fields.len() != 3 {
        return None;
    }
    let secs: u128 = if fields.len() == 3 {
        values[0] as u128 * 3600 + values[1] as u128 * 60 + values[2] as u128
    } else {
        values[0] as u128 * 60 + values[1] as u128
    };
    let ms: u64 = match frac {
        None => 0,
        Some(f) => {
            proof {
                assert(f@ =~= t@.skip(k + 1));
            }
            match frac_millis_exec(&f) {
                Some(v) => v,
                None => {
                    return None;
                },
            }
        },
    };
    proof {
        if frac is Some {
            assert(frac_millis(t@.skip(k + 1)) is Some);
        }
    }
    if secs > (u64::MAX as u128) {
        return None;
    }
    let total: u128 = secs * 1000 + ms as u128;
    if total > u64::MAX as u128 {
        return None;
    }
    Some(total as u64)
}

/// The payload lines that are not empty, in order.
pub open spec fn non_empty(lines: Seq<Seq<char>>) -> Seq<Seq<char>>
    decreases lines.len(),
{
    if lines.len() == 0 {
        Seq::empty()
    } else {
        let prev = non_empty(lines.drop_last());
        if lines.last().len() > 0 {
            prev.push(lines.last())
        } else {
            prev
        }
    }
}

/// The lines of a cue block after its optional cue number.
pub open spec fn after_cue_number(block: Seq<Seq<char>>) -> Seq<Seq<char>> {
    if block.len() > 0 && trim(block[0]).len() > 0 && all_digits(trim(block[0])) {
        block.drop_first()
    } else {
        block
    }
}

/// Whether the block's first remaining line is a timing line (holds `-->`).
pub open spec fn has_timing_line(rest: Seq<Seq<char>>) -> bool {
    rest.len() > 0 && first_occurrence(rest[0], "-->"@) is Some
}

/// A cue's start time: the clock before its first `-->`.
pub open spec fn cue_start(rest: Seq<Seq<char>>) -> Option<nat> {
    if has_timing_line(rest) {
        srt_timestamp(rest[0].take(first_occurrence(rest[0], "-->"@).unwrap()))
    } else {
        None
    }
}

/// The payload lines of a cue block: what follows the cue number and the timing line.
pub open spec fn cue_payload(block: Seq<Seq<char>>) -> Seq<Seq<char>> {
    let rest = after_cue_number(block);
    if has_timing_line(rest) {
        rest.drop_first()
    } else {
        rest
    }
}

/// One finished block read into the (timed, untimed) lines: each non-empty payload line gets the
/// cue's start time, or is kept untimed when the block has no readable start.
pub open spec fn srt_flush(
    timed: Seq<(nat, Seq<char>)>,
    untimed: Seq<Seq<char>>,
    block: Seq<Seq<char>>,
) -> (Seq<(nat, Seq<char>)>, Seq<Seq<char>>) {
    let kept = non_empty(cue_payload(block));
    match cue_start(after_cue_number(block)) {
        Some(a) => (timed + kept.map_values(|p: Seq<char>| (a, p)), untimed),
        None => (timed, untimed + kept),
    }
}

/// What the SRT reader has gathered so far.
pub struct SrtState {
    pub timed: Seq<(nat, Seq<char>)>,
    pub untimed: Seq<Seq<char>>,
    pub block: Seq<Seq<char>>,
}

/// A blank line ends the current block; any other line joins it.
pub open spec fn srt_step(st: SrtState, line: Seq<char>) -> SrtState {
    if is_blank(line) {
        let (t, u) = srt_flush(st.timed, st.untimed, st.block);
        SrtState { timed: t, untimed: u, block: Seq::empty() }
    } else {
        SrtState { timed: st.timed, untimed: st.untimed, block: st.block.push(line) }
    }
}

pub open spec fn srt_fold(lines: Seq<Seq<char>>) -> SrtState
    decreases lines.len(),
{
    if lines.len() == 0 {
        SrtState { timed: Seq::empty(), untimed: Seq::empty(), block: Seq::empty() }
    } else {
        srt_step(srt_fold(lines.drop_last()), lines.last())
    }
}

/// The SRT reading of `input`: `Synced` over the timed payload lines sorted by time when some
/// cue starts after zero; otherwise `Unsynced` over all payload text.
pub open spec fn spec_parse_srt(input: Seq<char>) -> LyricsView {
    let st = srt_fold(split_lines(input));
    let (timed, untimed) = srt_flush(st.timed, st.untimed, st.block);
    if !has_usable_timing(timed) {
        LyricsView::Unsynced(texts_of(timed) + untimed)
    } else {
        LyricsView::Synced(to_nanos(sort_by_time(timed)))
    }
}

fn timing_line(line: &Vec<char>) -> (r: (bool, Option<u64>))
    ensures
        r.0 == (first_occurrence(line@, "-->"@) is Some),
        r.0 ==> match r.1 {
            Some(a) => srt_timestamp(line@.take(first_occurrence(line@, "-->"@).unwrap()))
                == Some(a as nat),
            None => srt_timestamp(line@.take(first_occurrence(line@, "-->"@).unwrap())) is None,
        },
        !r.0 ==> r.1 is None,
{
    let dashes = chars_of("-->");
    match find_chars(line, &dashes) {
        Some(p) => {
            let prefix = slice_vec(line, 0, p);
            assert(prefix@ =~= line@.take(p as int));
            (true, srt_timestamp_exec(&prefix))
        },
        None => (false, None),
    }
}

#[verifier::rlimit(40)]
#[verifier::spinoff_prover]
fn cue_header(block: &Vec<Vec<char>>) -> (r: (usize, Option<u64>))
    ensures
        r.0 <= block@.len(),
        views(block@).skip(r.0 as int) == cue_payload(views(block@)),
        match r.1 {
            Some(a) => cue_start(after_cue_number(views(block@))) == Some(a as nat),
            None => cue_start(after_cue_number(views(block@))) is None,
        },
{
    let ghost b = views(block@);
    let mut start: usize = 0;
    if block.len() > 0 {
        let t = trim_chars(&block[0]);
        if t.len() > 0 && all_digits_chars(&t) {
            start = 1;
        }
    }
    let ghost rest = after_cue_number(b);
    proof {
        if block@.len() > 0 {
            assert(b[0] == block@[0]@);
        }
        assert(rest =~= b.skip(start as int));
    }
    let mut at: Option<u64> = None;
    let mut timing = false;
    if start < block.len() {
        assert(rest[0] == block@[start as int]@);
        let (tm, a) = timing_line(&block[start]);
        timing = tm;
        at = a;
    }
    let first = if timing {
        start + 1
    } else {
        start
    };
    proof {
        assert(timing == has_timing_line(rest));
        assert(b.skip(first as int) =~= cue_payload(b));
    }
    (first, at)
}

fn srt_flush_exec(
    times: &mut Vec<u64>,
    texts: &mut Vec<Vec<char>>,
    untimed: &mut Vec<Vec<char>>,
    block: &Vec<Vec<char>>,
)
    requires
        old(times)@.len() == old(texts)@.len(),
    ensures
        final(times)@.len() == final(texts)@.len(),
        (pairs(final(times)@, final(texts)@), views(final(untimed)@)) == srt_flush(
            pairs(old(times)@, old(texts)@),
            views(old(untimed)@),
            views(block@),
        ),
{
    let ghost b = views(block@);
    let (first, at) = cue_header(block);
    let ghost payload = cue_payload(b);
    let ghost t0 = pairs(times@, texts@);
    let ghost u0 = views(untimed@);
    let mut k: usize = first;
    proof {
        assert(payload.take(0) =~= Seq::<Seq<char>>::empty());
        assert(non_empty(Seq::<Seq<char>>::empty()) =~= Seq::<Seq<char>>::empty());
        assert(t0 + Seq::<Seq<char>>::empty().map_values(|p: Seq<char>| (0nat, p)) =~= t0);
        assert(u0 + Seq::<Seq<char>>::empty() =~= u0);
    }
    while k < block.len()
        invariant
            first <= k <= block@.len(),
            b == views(block@),
            payload == b.skip(first as int),
            times@.len() == texts@.len(),
            match at {
                Some(a) => pairs(times@, texts@) == t0 + non_empty(
                    payload.take(k - first),
                ).map_values(|p: Seq<char>| (a as nat, p)) && views(untimed@) == u0,
                None => pairs(times@, texts@) == t0 && views(untimed@) == u0 + non_empty(
                    payload.take(k - first),
                ),
            },
        decreases block@.len() - k,
    {
        let line = &block[k];
        proof {
            assert(payload.take(k + 1 - first).drop_last() =~= payload.take(k - first));
            assert(payload.take(k + 1 - first).last() == line@);
        }
        if line.len() > 0 {
            let c = slice_vec(line, 0, line.len());
            assert(c@ =~= line@);
            match at {
                Some(a) => {
                    let ghost pt = times@;
                    let ghost px = texts@;
                    times.push(a);
                    texts.push(c);
                    proof {
                        let ne = non_empty(payload.take(k - first));
                        assert(pairs(times@, texts@) =~= pairs(pt, px).push((a as nat, c@)));
                        assert(ne.push(line@).map_values(|p: Seq<char>| (a as nat, p)) =~= ne.map_values(
                            |p: Seq<char>| (a as nat, p),
                        ).push((a as nat, line@)));
                    }
                },
                None => {
                    let ghost pu = untimed@;
                    untimed.push(c);
                    proof {
                        assert(views(untimed@) =~= views(pu).push(c@));
                    }
                },
            }
        }
        k = k + 1;
    }
    proof {
        assert(payload.take(block@.len() - first) =~= payload);
    }
}

/// SRT subtitles read as lyrics: cue numbers and timing lines are dropped, and each cue's start
/// time becomes the time of every payload line of that cue.
pub fn parse_srt(input: &str) -> (r: Lyrics)
    ensures
        r@ == spec_parse_srt(input@),
        r@ matches LyricsView::Synced(v) ==> {
            &&& v.len() >= 1
            &&& sorted_by_at(v)
            &&& exists|k: int| 0 <= k < v.len() && #[trigger] v[k].0 > 0
            &&& forall|k: int| 0 <= k < v.len() ==> !is_blank(#[trigger] v[k].1)
        },
{
    let chars = chars_of(input);
    let lines = split_lines_exec(&chars);
    let mut times: Vec<u64> = Vec::new();
    let mut texts: Vec<Vec<char>> = Vec::new();
    let mut untimed: Vec<Vec<char>> = Vec::new();
    let mut block: Vec<Vec<char>> = Vec::new();
    proof {
        assert(pairs(times@, texts@) =~= Seq::<(nat, Seq<char>)>::empty());
        assert(views(untimed@) =~= Seq::<Seq<char>>::empty());
        assert(views(block@) =~= Seq::<Seq<char>>::empty());
        assert(views(lines@).take(0) =~= Seq::<Seq<char>>::empty());
    }
    let mut i: usize = 0;
    while i < lines.len()
        invariant
            i <= lines@.len(),
            views(lines@) == split_lines(input@),
            times@.len() == texts@.len(),
            srt_fold(views(lines@).take(i as int)) == (SrtState {
                timed: pairs(times@, texts@),
                untimed: views(untimed@),
                block: views(block@),
            }),
        decreases lines@.len() - i,
    {
        proof {
            assert(views(lines@).take(i + 1).drop_last() =~= views(lines@).take(i as int));
            assert(views(lines@).take(i + 1).last() == lines@[i as int]@);
        }
        if is_blank_chars(&lines[i]) {
            srt_flush_exec(&mut times, &mut texts, &mut untimed, &block);
            block = Vec::new();
            proof {
                assert(views(block@) =~= Seq::<Seq<char>>::empty());
            }
        } else {
            let ghost pb = block@;
            let c = slice_vec(&lines[i], 0, lines[i].len());
            assert(c@ =~= lines@[i as int]@);
            block.push(c);
            proof {
                assert(views(block@) =~= views(pb).push(c@));
            }
        }
        i = i + 1;
    }
    proof {
        assert(views(lines@).take(lines@.len() as int) =~= views(lines@));
    }
    srt_flush_exec(&mut times, &mut texts, &mut untimed, &block);
    if !usable_timing_exec(&times) {
        proof {
            let timed = pairs(times@, texts@);
            assert(!has_usable_timing(timed)) by {
                if has_usable_timing(timed) {
                    let w = choose|w: int| 0 <= w < timed.len() && timed[w].0 > 0;
                    assert(times@[w] > 0);
                }
            }
            assert(texts_of(timed) =~= views(texts@));
        }
        build_unsynced(texts, untimed)
    } else {
        proof {
            let timed = pairs(times@, texts@);
            assert(has_usable_timing(timed)) by {
                let w = choose|w: int| 0 <= w < times@.len() && times@[w] > 0;
                assert(timed[w].0 > 0);
            }
            let ls = split_lines(input@);
            assert(ls == views(lines@));
            let st = srt_fold(ls);
            lemma_srt_fold_nonblank(ls);
            lemma_srt_flush_nonblank(st.timed, st.untimed, st.block);
            lemma_parse_srt_sorted(input@);
            lemma_srt_times_bounded(ls);
            lemma_sort_by_time_same_lines(timed);
            let out = sort_by_time(timed);
            let v = to_nanos(out);
            let w = choose|w: int| 0 <= w < timed.len() && timed[w].0 > 0;
            assert(out.contains(timed[w]));
            let j = choose|j: int| 0 <= j < out.len() && out[j] == timed[w];
            assert(v[j].0 == out[j].0 * 1_000_000);
            assert(v[j].0 > 0) by (nonlinear_arith)
                requires v[j].0 == out[j].0 * 1_000_000, out[j].0 > 0;
            assert forall|k: int| 0 <= k < v.len() implies !is_blank(#[trigger] v[k].1) by {
                assert(timed.contains(out[k]));
                let m = choose|m: int| 0 <= m < timed.len() && timed[m] == out[k];
                assert(!is_blank(timed[m].1));
            }
        }
        build_synced(&times, &texts)
    }
}


// ---------------------------------------------------------------- queries

/// Times never decrease along the sequence.
pub open spec fn sorted_by_at(v: Seq<(nat, Seq<char>)>) -> bool {
    forall|i: int, j: int| 0 <= i < j < v.len() ==> v[i].0 <= v[j].0
}

impl Lyrics {
    /// True when there is nothing worth showing: every line (if any) is blank.
    pub fn is_empty(&self) -> (r: bool)
        ensures
            r == match self@ {
                LyricsView::Unsynced(v) => forall|i: int| 0 <= i < v.len() ==> is_blank(#[trigger] v[i]),
                LyricsView::Synced(v) => forall|i: int| 0 <= i < v.len() ==> is_blank(#[trigger] v[i].1),
            },
    {
        match self {
            Lyrics::Unsynced(v) => {
                let mut i: usize = 0;
                while i < v.len()
                    invariant
                        i <= v@.len(),
                        self@ == LyricsView::Unsynced(v@.map_values(|s: String| s@)),
                        forall|k: int| 0 <= k < i ==> is_blank(#[trigger] v@[k]@),
                    decreases v@.len() - i,
                {
                    let c = chars_of(v[i].as_str());
                    if !is_blank_chars(&c) {
                        assert(self@->Unsynced_0[i as int] == v@[i as int]@);
                        assert(!is_blank(self@->Unsynced_0[i as int]));
                        return false;
                    }
                    i = i + 1;
                }
                assert forall|k: int| 0 <= k < v@.len() implies is_blank(#[trigger] self@->Unsynced_0[k]) by {
                    assert(self@->Unsynced_0[k] == v@[k]@);
                }
                true
            },
            Lyrics::Synced(v) => {
                let mut i: usize = 0;
                while i < v.len()
                    invariant
                        i <= v@.len(),
                        self@ == LyricsView::Synced(v@.map_values(|l: LyricLine| line_view(l))),
                        forall|k: int| 0 <= k < i ==> is_blank(#[trigger] v@[k].text@),
                    decreases v@.len() - i,
                {
                    let c = chars_of(v[i].text.as_str());
                    if !is_blank_chars(&c) {
                        assert(self@->Synced_0[i as int].1 == v@[i as int].text@);
                        assert(!is_blank(self@->Synced_0[i as int].1));
                        return false;
                    }
                    i = i + 1;
                }
                assert forall|k: int| 0 <= k < v@.len() implies is_blank(#[trigger] self@->Synced_0[k].1) by {
                    assert(self@->Synced_0[k].1 == v@[k].text@);
                }
                true
            },
        }
    }

    /// The index of the last line at or before `position`, or `None` before the first line and
    /// always for `Unsynced`. A binary search: on time-sorted lines (which every parser produces)
    /// the answer is exact; on unsorted lines it is some index in range.
    pub fn active_line(&self, position: Duration) -> (r: Option<usize>)
        ensures
            match self@ {
                LyricsView::Unsynced(_) => r is None,
                LyricsView::Synced(v) => {
                    &&& (r matches Some(k) ==> k < v.len())
                    &&& sorted_by_at(v) ==> {
                        let pos = duration_nanos(position);
                        &&& (r is None <==> (v.len() == 0 || v[0].0 > pos))
                        &&& (r matches Some(k) ==> v[k as int].0 <= pos && (k + 1 == v.len()
                            || v[k + 1].0 > pos))
                    }
                },
            },
    {
        match self {
            Lyrics::Unsynced(_) => None,
            Lyrics::Synced(lines) => {
                let ghost v = self@->Synced_0;
                let pos = duration_as_nanos(&position);
                let mut lo: usize = 0;
                let mut hi: usize = lines.len();
                while lo < hi
                    invariant
                        lo <= hi <= lines@.len(),
                        v == lines@.map_values(|l: LyricLine| line_view(l)),
                        sorted_by_at(v) ==> (forall|i: int| 0 <= i < lo ==> v[i].0 <= pos),
                        sorted_by_at(v) ==> (forall|i: int| hi <= i < v.len() ==> v[i].0 > pos),
                    decreases hi - lo,
                {
                    let mid = lo + (hi - lo) / 2;
                    let at = duration_as_nanos(&lines[mid].at);
                    assert(v[mid as int].0 == at);
                    if at <= pos {
                        lo = mid + 1;
                    } else {
                        hi = mid;
                    }
                }
                if lo == 0 {
                    None
                } else {
                    Some(lo - 1)
                }
            },
        }
    }
}

/// Every `Synced` result of the parsers is sorted by time, which is what makes `active_line`
/// exact on parsed lyrics.
pub proof fn lemma_sort_by_time_sorted(lines: Seq<(nat, Seq<char>)>)
    requires
        forall|i: int| 0 <= i < lines.len() ==> lines[i].0 <= u64::MAX,
    ensures
        sorted_by_at(sort_by_time(lines)),
        sorted_by_at(to_nanos(sort_by_time(lines))),
        sort_by_time(lines).len() == lines.len(),
{
    let keys = keys_of(lines);
    let le = key_le(keys);
    crate::msort::lemma_key_le_total(keys);
    crate::msort::lemma_msort_sorted(iota(lines.len()), le);
    crate::msort::lemma_msort_multiset(iota(lines.len()), le);
    crate::msort::lemma_msort_in_range(iota(lines.len()), le, lines.len());
    let order = msort_by(iota(lines.len()), le);
    let out = sort_by_time(lines);
    assert forall|i: int, j: int| 0 <= i < j < out.len() implies out[i].0 <= out[j].0 by {
        assert(le(order[i], order[j]));
        assert(keys[order[i] as int] == lines[order[i] as int].0);
        assert(keys[order[j] as int] == lines[order[j] as int].0);
    }
    let n = to_nanos(out);
    assert forall|i: int, j: int| 0 <= i < j < n.len() implies n[i].0 <= n[j].0 by {
        assert(out[i].0 <= out[j].0);
        vstd::arithmetic::mul::lemma_mul_inequality(out[i].0 as int, out[j].0 as int, 1_000_000);
    }
}

/// Law: a `Synced` LRC result is sorted by time.
pub proof fn lemma_parse_lrc_sorted(input: Seq<char>)
    ensures
        spec_parse_lrc(input) matches LyricsView::Synced(v) ==> sorted_by_at(v),
{
    let st = lrc_fold(split_lines(input));
    let shifted = st.timed.map_values(|l: (nat, Seq<char>)| (shift_by_offset(l.0, st.offset), l.1));
    lemma_sort_by_time_sorted(shifted);
}

/// Law: LRC text in which no line carries a time tag (after leading spaces and recognised
/// metadata tags) reads as `Unsynced`.
pub proof fn lemma_parse_lrc_untagged_is_unsynced(input: Seq<char>)
    ensures
        lrc_fold(split_lines(input)).timed.len() == 0 ==> spec_parse_lrc(input) is Unsynced,
{
}

/// Law: a timestamp `mm:ss`, `mm:ss.x`, `mm:ss.xx` or `mm:ss.xxx` reads as a clock would: the
/// minutes times 60 000 plus the seconds times 1000 plus the fraction in milliseconds, where a
/// single fraction digit counts tenths, two count hundredths (centiseconds) and three count
/// thousandths.
#[verifier::spinoff_prover]
#[verifier::rlimit(50)]
pub proof fn lemma_lrc_timestamp_value(m1: char, m2: char, s1: char, s2: char, f: Seq<char>)
    requires
        '0' <= m1 <= '9' && '0' <= m2 <= '9' && '0' <= s1 <= '9' && '0' <= s2 <= '9',
        1 <= f.len() <= 3,
        forall|i: int| 0 <= i < f.len() ==> '0' <= #[trigger] f[i] <= '9',
    ensures
        ({
            let base = 600_000 * (m1 as int - 48) + 60_000 * (m2 as int - 48) + 10_000 * (s1 as int - 48)
                + 1000 * (s2 as int - 48);
            &&& lrc_timestamp(seq![m1, m2, ':', s1, s2]) == Some(base as nat)
            &&& f.len() == 1 ==> lrc_timestamp(seq![m1, m2, ':', s1, s2, '.'] + f)
                == Some((base + 100 * (f[0] as int - 48)) as nat)
            &&& f.len() == 2 ==> lrc_timestamp(seq![m1, m2, ':', s1, s2, '.'] + f)
                == Some((base + 100 * (f[0] as int - 48) + 10 * (f[1] as int - 48)) as nat)
            &&& f.len() == 3 ==> lrc_timestamp(seq![m1, m2, ':', s1, s2, '.'] + f)
                == Some((base + 100 * (f[0] as int - 48) + 10 * (f[1] as int - 48) + (f[2] as int - 48)) as nat)
        }),
{
    let plain = seq![m1, m2, ':', s1, s2];
    let full = seq![m1, m2, ':', s1, s2, '.'] + f;
    reveal_with_fuel(first_index_of, 9);
    reveal_with_fuel(decimal_value, 4);
    assert(plain.take(2) =~= seq![m1, m2]);
    assert(plain.skip(3) =~= seq![s1, s2]);
    assert(seq![m1, m2].drop_last() =~= seq![m1]);
    assert(seq![s1, s2].drop_last() =~= seq![s1]);
    assert(seq![m1].drop_last() =~= Seq::<char>::empty());
    assert(seq![s1].drop_last() =~= Seq::<char>::empty());
    assert(first_index_of(plain, ':') == Some(2int));
    assert(first_index_of(seq![s1, s2], '.') is None);
    let rest = full.skip(3);
    assert(full.take(2) =~= seq![m1, m2]);
    assert(rest =~= seq![s1, s2, '.'] + f);
    assert(first_index_of(full, ':') == Some(2int));
    assert(first_index_of(rest, '.') == Some(2int));
    assert(rest.take(2) =~= seq![s1, s2]);
    assert(rest.skip(3) =~= f);
    assert(all_digits(f));
    if f.len() == 1 {
        assert(f.drop_last() =~= Seq::<char>::empty());
    } else if f.len() == 2 {
        assert(f.drop_last() =~= seq![f[0]]);
        assert(seq![f[0]].drop_last() =~= Seq::<char>::empty());
    } else {
        assert(f.take(3) =~= f);
        assert(f.drop_last() =~= seq![f[0], f[1]]);
        assert(seq![f[0], f[1]].drop_last() =~= seq![f[0]]);
        assert(seq![f[0]].drop_last() =~= Seq::<char>::empty());
    }
}

proof fn lemma_clock_fields(h: Seq<char>, m: Seq<char>, sec: Seq<char>)
    requires
        h.len() == 2 && m.len() == 2 && sec.len() == 2,
        h[0] != ':' && h[1] != ':' && m[0] != ':' && m[1] != ':' && sec[0] != ':' && sec[1] != ':',
    ensures
        split_char(h + seq![':'] + m + seq![':'] + sec, ':') == seq![h, m, sec],
{
    reveal_with_fuel(first_index_of, 4);
    let whole = h + seq![':'] + m + seq![':'] + sec;
    assert(whole =~= seq![h[0], h[1], ':', m[0], m[1], ':', sec[0], sec[1]]);
    let r1 = whole.skip(3);
    assert(r1 =~= seq![m[0], m[1], ':', sec[0], sec[1]]);
    let r2 = r1.skip(3);
    assert(r2 =~= seq![sec[0], sec[1]]);
    assert(first_index_of(whole, ':') == Some(2int));
    assert(first_index_of(r1, ':') == Some(2int));
    assert(first_index_of(r2, ':') is None);
    assert(split_char(r2, ':') == seq![r2]);
    assert(whole.take(2) =~= h);
    assert(r1.take(2) =~= m);
    assert(r2 =~= sec);
    assert(split_char(r1, ':') =~= seq![m, sec]);
    assert(split_char(whole, ':') =~= seq![h, m, sec]);
}

/// Law: an SRT cue clock `hh:mm:ss,mmm` (or with `.` before the milliseconds) reads as the hours
/// times 3 600 000 plus the minutes times 60 000 plus the seconds times 1000 plus the
/// milliseconds.
#[verifier::spinoff_prover]
#[verifier::rlimit(50)]
pub proof fn lemma_srt_timestamp_value(h: Seq<char>, m: Seq<char>, sec: Seq<char>, ms: Seq<char>, sep: char)
    requires
        h.len() == 2 && m.len() == 2 && sec.len() == 2 && ms.len() == 3,
        forall|i: int| 0 <= i < 2 ==> '0' <= #[trigger] h[i] <= '9' && '0' <= m[i] <= '9' && '0' <= sec[i] <= '9',
        forall|i: int| 0 <= i < 3 ==> '0' <= #[trigger] ms[i] <= '9',
        sep == ',' || sep == '.',
    ensures
        srt_timestamp(h + seq![':'] + m + seq![':'] + sec + seq![sep] + ms) == Some((
            3_600_000 * (10 * (h[0] as int - 48) + (h[1] as int - 48))
            + 60_000 * (10 * (m[0] as int - 48) + (m[1] as int - 48))
            + 1000 * (10 * (sec[0] as int - 48) + (sec[1] as int - 48))
            + 100 * (ms[0] as int - 48) + 10 * (ms[1] as int - 48) + (ms[2] as int - 48)) as nat),
{
    let s = h + seq![':'] + m + seq![':'] + sec + seq![sep] + ms;
    assert(s =~= seq![h[0], h[1], ':', m[0], m[1], ':', sec[0], sec[1], sep, ms[0], ms[1], ms[2]]);
    assert('0' <= h[0] <= '9' && '0' <= h[1] <= '9');
    assert('0' <= m[0] <= '9' && '0' <= m[1] <= '9');
    assert('0' <= sec[0] <= '9' && '0' <= sec[1] <= '9');
    assert('0' <= ms[0] <= '9' && '0' <= ms[1] <= '9' && '0' <= ms[2] <= '9');
    assert(crate::text::trim_start(s) == s);
    assert(crate::text::trim_end(s) == s);
    assert(trim(s) == s);
    reveal_with_fuel(first_decimal_sep, 10);
    reveal_with_fuel(decimal_value, 4);
    assert(first_decimal_sep(s) == Some(8int));
    let whole = s.take(8);
    assert(clock_whole(s) == whole);
    assert(whole =~= h + seq![':'] + m + seq![':'] + sec);
    lemma_clock_fields(h, m, sec);
    let fields = split_char(whole, ':');
    assert(h.drop_last() =~= seq![h[0]]);
    assert(m.drop_last() =~= seq![m[0]]);
    assert(sec.drop_last() =~= seq![sec[0]]);
    assert(seq![h[0]].drop_last() =~= Seq::<char>::empty());
    assert(seq![m[0]].drop_last() =~= Seq::<char>::empty());
    assert(seq![sec[0]].drop_last() =~= Seq::<char>::empty());
    assert(all_digits(h) && all_digits(m) && all_digits(sec) && all_digits(ms));
    assert(forall|i: int| 0 <= i < fields.len() ==> clock_field_ok(#[trigger] fields[i]));
    assert(s.skip(9) =~= ms);
    assert(ms.take(3) =~= ms);
    assert(ms.drop_last() =~= seq![ms[0], ms[1]]);
    assert(seq![ms[0], ms[1]].drop_last() =~= seq![ms[0]]);
    assert(seq![ms[0]].drop_last() =~= Seq::<char>::empty());
}

/// Law: a `Synced` SRT result is sorted by time.
pub proof fn lemma_parse_srt_sorted(input: Seq<char>)
    ensures
        spec_parse_srt(input) matches LyricsView::Synced(v) ==> sorted_by_at(v),
{
    let st = srt_fold(split_lines(input));
    let (timed, untimed) = srt_flush(st.timed, st.untimed, st.block);
    lemma_srt_times_bounded(split_lines(input));
    lemma_sort_by_time_sorted(timed);
}

pub open spec fn times_bounded(timed: Seq<(nat, Seq<char>)>) -> bool {
    forall|i: int| 0 <= i < timed.len() ==> timed[i].0 <= u64::MAX
}

proof fn lemma_srt_flush_bounded(timed: Seq<(nat, Seq<char>)>, untimed: Seq<Seq<char>>, block: Seq<Seq<char>>)
    requires
        times_bounded(timed),
    ensures
        times_bounded(srt_flush(timed, untimed, block).0),
{
    let kept = non_empty(cue_payload(block));
    match cue_start(after_cue_number(block)) {
        Some(a) => {
            let t2 = timed + kept.map_values(|p: Seq<char>| (a, p));
            assert forall|i: int| 0 <= i < t2.len() implies t2[i].0 <= u64::MAX by {
                if i >= timed.len() {
                    assert(t2[i].0 == a);
                }
            }
        },
        None => {},
    }
}

/// Every SRT time the reader records fits a `u64` millisecond count.
pub proof fn lemma_srt_times_bounded(lines: Seq<Seq<char>>)
    ensures
        times_bounded(srt_fold(lines).timed),
        times_bounded(srt_flush(srt_fold(lines).timed, srt_fold(lines).untimed, srt_fold(lines).block).0),
    decreases lines.len(),
{
    if lines.len() > 0 {
        lemma_srt_times_bounded(lines.drop_last());
        let st = srt_fold(lines.drop_last());
        lemma_srt_flush_bounded(st.timed, st.untimed, st.block);
    }
    let st = srt_fold(lines);
    lemma_srt_flush_bounded(st.timed, st.untimed, st.block);
}


/// Sorting by time only reorders: every sorted line is an input line, and every input line is
/// among the sorted ones.
proof fn lemma_sort_by_time_same_lines(lines: Seq<(nat, Seq<char>)>)
    requires
        lines.len() <= usize::MAX,
    ensures
        sort_by_time(lines).len() == lines.len(),
        forall|j: int| 0 <= j < sort_by_time(lines).len() ==> lines.contains(#[trigger] sort_by_time(lines)[j]),
        forall|i: int| 0 <= i < lines.len() ==> sort_by_time(lines).contains(#[trigger] lines[i]),
{
    broadcast use vstd::seq_lib::group_to_multiset_ensures;

    let n = lines.len();
    let le = key_le(keys_of(lines));
    let order = msort_by(iota(n), le);
    crate::msort::lemma_msort_multiset(iota(n), le);
    crate::msort::lemma_msort_in_range(iota(n), le, n);
    crate::msort::lemma_iota_in_range(n);
    assert(order.len() == iota(n).len()) by {
        assert(order.to_multiset().len() == iota(n).to_multiset().len());
    }
    let out = sort_by_time(lines);
    assert forall|j: int| 0 <= j < out.len() implies lines.contains(#[trigger] out[j]) by {
        assert(out[j] == lines[order[j] as int]);
    }
    assert forall|i: int| 0 <= i < n implies out.contains(#[trigger] lines[i]) by {
        let x = i as usize;
        assert(iota(n)[i] == x);
        assert(iota(n).contains(x));
        assert(iota(n).to_multiset().count(x) > 0);
        assert(order.to_multiset().count(x) > 0);
        assert(order.contains(x));
        let j = choose|j: int| 0 <= j < order.len() && order[j] == x;
        assert(out[j] == lines[i]);
    }
}

proof fn lemma_non_empty_within(x: Seq<Seq<char>>)
    ensures
        forall|k: int| 0 <= k < non_empty(x).len() ==> x.contains(#[trigger] non_empty(x)[k]),
    decreases x.len(),
{
    if x.len() > 0 {
        lemma_non_empty_within(x.drop_last());
        let p = non_empty(x.drop_last());
        assert forall|k: int| 0 <= k < non_empty(x).len() implies x.contains(#[trigger] non_empty(x)[k]) by {
            if k < p.len() {
                assert(non_empty(x)[k] == p[k]);
                let m = choose|m: int| 0 <= m < x.drop_last().len() && x.drop_last()[m] == p[k];
                assert(x[m] == p[k]);
            } else {
                assert(non_empty(x)[k] == x[x.len() - 1]);
            }
        }
    }
}

/// The timed lines a flush adds are non-blank when the block's lines are.
proof fn lemma_srt_flush_nonblank(timed: Seq<(nat, Seq<char>)>, untimed: Seq<Seq<char>>, block: Seq<Seq<char>>)
    requires
        forall|k: int| 0 <= k < timed.len() ==> !is_blank(#[trigger] timed[k].1),
        forall|k: int| 0 <= k < block.len() ==> !is_blank(#[trigger] block[k]),
    ensures
        forall|k: int| 0 <= k < srt_flush(timed, untimed, block).0.len() ==> !is_blank(#[trigger] srt_flush(timed, untimed, block).0[k].1),
{
    let pay = cue_payload(block);
    assert forall|k: int| 0 <= k < pay.len() implies !is_blank(#[trigger] pay[k]) by {
        let rest = after_cue_number(block);
        if rest != block {
            assert(rest[k] == block[k + 1] || rest[k + 1] == block[k + 2]);
        }
        if has_timing_line(rest) {
            assert(pay[k] == rest[k + 1]);
            if rest != block {
                assert(rest[k + 1] == block[k + 2]);
            }
        } else {
            if rest != block {
                assert(rest[k] == block[k + 1]);
            }
        }
    }
    lemma_non_empty_within(pay);
    let kept = non_empty(pay);
    match cue_start(after_cue_number(block)) {
        Some(a) => {
            let t2 = timed + kept.map_values(|p: Seq<char>| (a, p));
            assert forall|k: int| 0 <= k < t2.len() implies !is_blank(#[trigger] t2[k].1) by {
                if k >= timed.len() {
                    let q = k - timed.len();
                    assert(t2[k].1 == kept[q]);
                    let m = choose|m: int| 0 <= m < pay.len() && pay[m] == kept[q];
                }
            }
        },
        None => {},
    }
}

/// The SRT reader's state holds only non-blank block lines and timed texts.
proof fn lemma_srt_fold_nonblank(lines: Seq<Seq<char>>)
    ensures
        forall|k: int| 0 <= k < srt_fold(lines).block.len() ==> !is_blank(#[trigger] srt_fold(lines).block[k]),
        forall|k: int| 0 <= k < srt_fold(lines).timed.len() ==> !is_blank(#[trigger] srt_fold(lines).timed[k].1),
    decreases lines.len(),
{
    if lines.len() > 0 {
        lemma_srt_fold_nonblank(lines.drop_last());
        let st = srt_fold(lines.drop_last());
        lemma_srt_flush_nonblank(st.timed, st.untimed, st.block);
        let line = lines.last();
        if !is_blank(line) {
            let b = st.block.push(line);
            assert forall|k: int| 0 <= k < b.len() implies !is_blank(#[trigger] b[k]) by {
                if k < st.block.len() {
                    assert(b[k] == st.block[k]);
                }
            }
        }
    }
}

} // verus!
