//! Multi-criteria sort profiles: up to four stacked rules applied to the queue and to browse
//! columns, with the track id as the final tiebreak.
use crate::clock::{timestamp_as_nanosecond, timestamp_nanos};
use crate::config::schema::{Direction, SortField, SortProfile, SortRule};
use crate::model::ids::ItemId;
use crate::model::item::{MediaItem, Track};
use crate::msort::{
    is_permutation, iota, lemma_msort_permutation, lemma_msort_sorted, merge_sort_indices, msort_by, permute,
    total_preorder,
};
use crate::queue::natural::{
    key_order, key_ordering, lemma_natural_order_laws, lemma_text_order_antisym, lemma_text_order_trans,
    natural_key, natural_order, normalize, ordering_from, spec_natural_key, spec_normalize, text_order,
    text_ordering, ix,
};
use crate::text::chars_of;
use std::cmp::Ordering;
use vstd::prelude::*;

verus! {

/// The text a field reads from a track, empty when the data is missing. The album artist falls
/// back to the first track artist when the first album artist is empty.
pub open spec fn spec_text_key(t: Track, field: SortField) -> Seq<char> {
    match field {
        SortField::Name => t.name@,
        SortField::Artist => first_text(t.artist_names@),
        SortField::AlbumArtist => {
            let p = first_text(t.album_artist_names@);
            if p.len() == 0 {
                first_text(t.artist_names@)
            } else {
                p
            }
        },
        SortField::Album => t.album_name@,
        SortField::Genre => first_text(t.genres@),
        _ => Seq::empty(),
    }
}

/// The first string of a list, or nothing.
pub open spec fn first_text(v: Seq<String>) -> Seq<char> {
    if v.len() > 0 {
        v[0]@
    } else {
        Seq::empty()
    }
}

/// A field compared as text.
pub open spec fn is_text_field(f: SortField) -> bool {
    match f {
        SortField::Year | SortField::TrackNumber | SortField::DateAdded => false,
        _ => true,
    }
}

fn first_str(v: &Vec<String>) -> (r: &str)
    ensures
        r@ == first_text(v@),
{
    proof {
        reveal_strlit("");
    }
    if v.len() > 0 {
        v[0].as_str()
    } else {
        ""
    }
}

pub fn text_key(track: &Track, field: SortField) -> (r: &str)
    requires
        is_text_field(field),
    ensures
        r@ == spec_text_key(*track, field),
{
    match field {
        SortField::Name => track.name.as_str(),
        SortField::Artist => first_str(&track.artist_names),
        SortField::AlbumArtist => {
            let p = first_str(&track.album_artist_names);
            let pc = chars_of(p);
            if pc.len() == 0 {
                first_str(&track.artist_names)
            } else {
                p
            }
        },
        SortField::Album => track.album_name.as_str(),
        _ => first_str(&track.genres),
    }
}

/// An outcome turned around for a descending rule.
pub open spec fn directed(o: int, d: Direction) -> int {
    match d {
        Direction::Asc => o,
        Direction::Desc => -o,
    }
}

/// Missing values last whatever the direction; only two present values are direction-reversed.
pub open spec fn option_last_order(a: Option<int>, b: Option<int>, d: Direction) -> int {
    match (a, b) {
        (None, None) => 0,
        (None, Some(_)) => 1,
        (Some(_), None) => -1,
        (Some(x), Some(y)) => directed(if x < y { -1 } else if x > y { 1 } else { 0 }, d),
    }
}

/// A track's year as a number.
pub open spec fn year_of(t: Track) -> Option<int> {
    match t.year {
        Some(y) => Some(y as int),
        None => None,
    }
}

/// A track's date added as nanoseconds since the epoch.
pub open spec fn date_of(t: Track) -> Option<int> {
    match t.date_created {
        Some(d) => Some(timestamp_nanos(d)),
        None => None,
    }
}

/// (disc, track) numbers, a missing one read as 0.
pub open spec fn number_pair(t: Track) -> (int, int) {
    (
        match t.disc_number { Some(n) => n as int, None => 0 },
        match t.track_number { Some(n) => n as int, None => 0 },
    )
}

/// How one rule orders two tracks: -1, 0 or 1.
pub open spec fn field_order(a: Track, b: Track, field: SortField, d: Direction) -> int {
    match field {
        SortField::Year => option_last_order(year_of(a), year_of(b), d),
        SortField::DateAdded => option_last_order(date_of(a), date_of(b), d),
        SortField::TrackNumber => {
            let (a1, a2) = number_pair(a);
            let (b1, b2) = number_pair(b);
            directed(if a1 < b1 { -1 } else if a1 > b1 { 1 } else if a2 < b2 { -1 } else if a2 > b2 { 1 } else { 0 }, d)
        },
        _ => directed(natural_order(spec_text_key(a, field), spec_text_key(b, field)), d),
    }
}

/// The first `n` rules decide in turn; the track id is the final tiebreak.
pub open spec fn rules_order(a: Track, b: Track, rules: Seq<SortRule>, i: int) -> int
    decreases rules.len() - i,
{
    if i < 0 || i >= rules.len() || i >= 4 {
        text_order(a.id@, b.id@, 0)
    } else if field_order(a, b, rules[i].field, rules[i].direction) != 0 {
        field_order(a, b, rules[i].field, rules[i].direction)
    } else {
        rules_order(a, b, rules, i + 1)
    }
}

/// How a profile orders two tracks: its first four rules in turn, then the track id.
pub open spec fn profile_order(a: Track, b: Track, rules: Seq<SortRule>) -> int {
    rules_order(a, b, rules, 0)
}

/// A present value as a number.
pub open spec fn opt_int(a: Option<i128>) -> Option<int> {
    match a {
        Some(x) => Some(x as int),
        None => None,
    }
}

fn year_value(t: &Track) -> (r: Option<i128>)
    ensures
        year_of(*t) == opt_int(r),
{
    match t.year {
        Some(y) => Some(y as i128),
        None => None,
    }
}

fn date_value(t: &Track) -> (r: Option<i128>)
    ensures
        date_of(*t) == opt_int(r),
{
    match &t.date_created {
        Some(d) => Some(timestamp_as_nanosecond(d)),
        None => None,
    }
}

fn number_values(t: &Track) -> (r: (u32, u32))
    ensures
        number_pair(*t) == (r.0 as int, r.1 as int),
{
    let disc = match t.disc_number { Some(n) => n, None => 0 };
    let num = match t.track_number { Some(n) => n, None => 0 };
    (disc, num)
}

pub fn apply_direction(ord: Ordering, direction: Direction) -> (r: Ordering)
    ensures
        r == match direction {
            Direction::Asc => ord,
            Direction::Desc => match ord {
                Ordering::Less => Ordering::Greater,
                Ordering::Greater => Ordering::Less,
                Ordering::Equal => Ordering::Equal,
            },
        },
{
    match direction {
        Direction::Asc => ord,
        Direction::Desc => match ord {
            Ordering::Less => Ordering::Greater,
            Ordering::Greater => Ordering::Less,
            Ordering::Equal => Ordering::Equal,
        },
    }
}

/// Missing sorts last regardless of direction.
pub fn compare_option_last(a: Option<i128>, b: Option<i128>, direction: Direction) -> (r: Ordering)
    ensures
        r == ordering_from(option_last_order(opt_int(a), opt_int(b), direction)),
{
    match (a, b) {
        (None, None) => Ordering::Equal,
        (None, Some(_)) => Ordering::Greater,
        (Some(_), None) => Ordering::Less,
        (Some(x), Some(y)) => {
            let o = if x < y { Ordering::Less } else if x > y { Ordering::Greater } else { Ordering::Equal };
            apply_direction(o, direction)
        },
    }
}

/// A pair of numbers in order as -1, 0 or 1.
pub open spec fn pair_outcome(a: (u32, u32), b: (u32, u32)) -> int {
    if a.0 < b.0 { -1 } else if a.0 > b.0 { 1 } else if a.1 < b.1 { -1 } else if a.1 > b.1 { 1 } else { 0 }
}

proof fn lemma_number_pair(a: Track, b: Track, x: (u32, u32), y: (u32, u32), d: Direction)
    requires
        number_pair(a) == (x.0 as int, x.1 as int),
        number_pair(b) == (y.0 as int, y.1 as int),
    ensures
        field_order(a, b, SortField::TrackNumber, d) == directed(pair_outcome(x, y), d),
{
}

/// How one rule orders two tracks.
pub fn compare_field(a: &Track, b: &Track, field: SortField, direction: Direction) -> (r: Ordering)
    ensures
        r == ordering_from(field_order(*a, *b, field, direction)),
{
    match field {
        SortField::Year => compare_option_last(year_value(a), year_value(b), direction),
        SortField::DateAdded => compare_option_last(date_value(a), date_value(b), direction),
        SortField::TrackNumber => {
            let ka = number_values(a);
            let kb = number_values(b);
            proof {
                lemma_number_pair(*a, *b, ka, kb, direction);
            }
            let o = if ka.0 < kb.0 {
                Ordering::Less
            } else if ka.0 > kb.0 {
                Ordering::Greater
            } else if ka.1 < kb.1 {
                Ordering::Less
            } else if ka.1 > kb.1 {
                Ordering::Greater
            } else {
                Ordering::Equal
            };
            apply_direction(o, direction)
        },
        _ => {
            let na = normalize(text_key(a, field));
            let nb = normalize(text_key(b, field));
            let ka = natural_key(&na);
            let kb = natural_key(&nb);
            apply_direction(key_ordering(&ka, &kb), direction)
        },
    }
}

/// Applies the profile's first four rules in order, each breaking the previous one's ties, then
/// the id: this is what makes the order total, and applying a profile twice a no-op.
pub fn compare(a: &Track, b: &Track, profile: &SortProfile) -> (r: Ordering)
    ensures
        r == ordering_from(profile_order(*a, *b, profile.rules@)),
{
    let mut i: usize = 0;
    while i < profile.rules.len() && i < 4
        invariant
            i <= 4,
            i <= profile.rules@.len(),
            profile_order(*a, *b, profile.rules@) == rules_order(*a, *b, profile.rules@, ix(i)),
        decreases profile.rules@.len() - i,
    {
        let rule = profile.rules[i];
        let o = compare_field(a, b, rule.field, rule.direction);
        match o {
            Ordering::Equal => {},
            _ => {
                return o;
            },
        }
        i = i + 1;
    }
    let ia = chars_of(a.id.as_str());
    let ib = chars_of(b.id.as_str());
    text_ordering(&ia, &ib)
}

/// A length as a natural number.
pub open spec fn nat_of(n: usize) -> nat {
    n as nat
}

/// "`i` sorts no later than `j`" among `tracks` under `rules`.
pub open spec fn sorts_before(tracks: Seq<Track>, rules: Seq<SortRule>) -> spec_fn(usize, usize) -> bool {
    |i: usize, j: usize| if i < tracks.len() && j < tracks.len() {
        profile_order(tracks[i as int], tracks[j as int], rules) <= 0
    } else {
        j >= tracks.len()
    }
}

proof fn lemma_field_order_laws(a: Track, b: Track, c: Track, field: SortField, d: Direction)
    ensures
        field_order(a, b, field, d) == -field_order(b, a, field, d),
        field_order(a, b, field, d) <= 0 && field_order(b, c, field, d) <= 0 ==> field_order(a, c, field, d) <= 0,
{
    match field {
        SortField::Year | SortField::DateAdded | SortField::TrackNumber => {},
        _ => {
            let (ka, kb, kc) = (spec_text_key(a, field), spec_text_key(b, field), spec_text_key(c, field));
            lemma_natural_order_laws(ka, kb, kc);
            lemma_natural_order_laws(kc, kb, ka);
            lemma_natural_order_laws(ka, kc, kb);
            lemma_natural_order_laws(kb, ka, kc);
        },
    }
}

proof fn lemma_rules_order_laws(a: Track, b: Track, c: Track, rules: Seq<SortRule>, i: int)
    requires
        i >= 0,
    ensures
        rules_order(a, b, rules, i) == -rules_order(b, a, rules, i),
        rules_order(a, b, rules, i) <= 0 && rules_order(b, c, rules, i) <= 0 ==> rules_order(a, c, rules, i) <= 0,
    decreases rules.len() - i,
{
    if i >= rules.len() || i >= 4 {
        lemma_text_order_antisym(a.id@, b.id@, 0);
        if text_order(a.id@, b.id@, 0) <= 0 && text_order(b.id@, c.id@, 0) <= 0 {
            lemma_text_order_trans(a.id@, b.id@, c.id@, 0);
        }
    } else {
        let (f, d) = (rules[i].field, rules[i].direction);
        lemma_field_order_laws(a, b, c, f, d);
        lemma_field_order_laws(b, c, a, f, d);
        lemma_field_order_laws(c, a, b, f, d);
        lemma_field_order_laws(a, c, b, f, d);
        lemma_rules_order_laws(a, b, c, rules, i + 1);
    }
}

/// Law: a profile of one rule orders two tracks by that rule, the track id breaking a tie; a
/// text rule compares, in natural order and in the rule's direction, the track's name, its first
/// artist, its first album artist (its first artist when that is empty), its album name, or its
/// first genre, a missing entry reading as empty text. A year rule puts a track without a year
/// last whichever the direction; a track-number rule compares disc numbers first, then track
/// numbers, a missing number reading as 0.
pub proof fn lemma_single_rule_order(a: Track, b: Track, r: SortRule)
    ensures
        ({
            let o = field_order(a, b, r.field, r.direction);
            profile_order(a, b, seq![r]) == if o != 0 { o } else { text_order(a.id@, b.id@, 0) }
        }),
        r.field is Name ==> field_order(a, b, r.field, r.direction)
            == directed(natural_order(a.name@, b.name@), r.direction),
        r.field is Album ==> field_order(a, b, r.field, r.direction)
            == directed(natural_order(a.album_name@, b.album_name@), r.direction),
        r.field is Artist ==> field_order(a, b, r.field, r.direction) == directed(
            natural_order(
                if a.artist_names.len() > 0 { a.artist_names[0]@ } else { Seq::empty() },
                if b.artist_names.len() > 0 { b.artist_names[0]@ } else { Seq::empty() },
            ),
            r.direction,
        ),
        r.field is Genre ==> field_order(a, b, r.field, r.direction) == directed(
            natural_order(
                if a.genres.len() > 0 { a.genres[0]@ } else { Seq::empty() },
                if b.genres.len() > 0 { b.genres[0]@ } else { Seq::empty() },
            ),
            r.direction,
        ),
        r.field is AlbumArtist ==> field_order(a, b, r.field, r.direction) == directed(
            natural_order(
                if a.album_artist_names.len() > 0 && a.album_artist_names[0]@.len() > 0 {
                    a.album_artist_names[0]@
                } else if a.artist_names.len() > 0 {
                    a.artist_names[0]@
                } else {
                    Seq::empty()
                },
                if b.album_artist_names.len() > 0 && b.album_artist_names[0]@.len() > 0 {
                    b.album_artist_names[0]@
                } else if b.artist_names.len() > 0 {
                    b.artist_names[0]@
                } else {
                    Seq::empty()
                },
            ),
            r.direction,
        ),
        r.field is Year ==> field_order(a, b, r.field, r.direction) == match (a.year, b.year) {
            (Some(x), Some(y)) => if x == y { 0 } else if (x < y) == (r.direction is Asc) { -1 } else { 1 },
            (Some(_), None) => -1,
            (None, Some(_)) => 1,
            (None, None) => 0,
        },
        r.field is TrackNumber ==> ({
            let ad: int = match a.disc_number { Some(n) => n as int, None => 0 };
            let bd: int = match b.disc_number { Some(n) => n as int, None => 0 };
            let at: int = match a.track_number { Some(n) => n as int, None => 0 };
            let bt: int = match b.track_number { Some(n) => n as int, None => 0 };
            field_order(a, b, r.field, r.direction) == if ad == bd && at == bt {
                0
            } else if (ad < bd || (ad == bd && at < bt)) == (r.direction is Asc) {
                -1
            } else {
                1
            }
        }),
{
    let rules = seq![r];
    assert(rules[0] == r);
    assert(rules_order(a, b, rules, 1) == text_order(a.id@, b.id@, 0));
}

/// A sort profile orders tracks consistently: swapping two tracks flips the outcome, and the
/// order chains, so any two tracks are ordered one way or the other.
pub proof fn lemma_profile_order_laws(a: Track, b: Track, c: Track, rules: Seq<SortRule>)
    ensures
        profile_order(a, b, rules) == -profile_order(b, a, rules),
        profile_order(a, b, rules) <= 0 && profile_order(b, c, rules) <= 0 ==> profile_order(a, c, rules) <= 0,
{
    lemma_rules_order_laws(a, b, c, rules, 0);
}

proof fn lemma_sorts_before_total(tracks: Seq<Track>, rules: Seq<SortRule>)
    ensures
        total_preorder(sorts_before(tracks, rules)),
{
    let le = sorts_before(tracks, rules);
    let n = tracks.len();
    assert forall|x: usize, y: usize| #[trigger] le(x, y) || le(y, x) by {
        if x < n && y < n {
            lemma_profile_order_laws(tracks[x as int], tracks[y as int], tracks[y as int], rules);
        }
    }
    assert forall|x: usize, y: usize, z: usize| #![trigger le(x, y), le(y, z)] le(x, y) && le(y, z) implies le(x, z) by {
        if x < n && y < n && z < n {
            lemma_profile_order_laws(tracks[x as int], tracks[y as int], tracks[z as int], rules);
        }
    }
}

/// Sorting by a profile only reorders the tracks, and leaves them in the profile's order.
pub proof fn lemma_sort_tracks_law(tracks: Seq<Track>, rules: Seq<SortRule>, i: int, j: int)
    requires
        tracks.len() <= usize::MAX,
    ensures
        sorted_tracks(tracks, rules).len() == tracks.len(),
        exists|p: Seq<usize>| is_permutation(p, tracks.len())
            && forall|k: int| 0 <= k < tracks.len() ==> #[trigger] sorted_tracks(tracks, rules)[k] == tracks[p[k] as int],
        0 <= i < j < tracks.len() ==> profile_order(sorted_tracks(tracks, rules)[i], sorted_tracks(tracks, rules)[j], rules) <= 0,
{
    let le = sorts_before(tracks, rules);
    let ord = msort_by(iota(tracks.len()), le);
    lemma_msort_permutation(tracks.len(), le);
    lemma_sorts_before_total(tracks, rules);
    lemma_msort_sorted(iota(tracks.len()), le);
    let out = sorted_tracks(tracks, rules);
    assert forall|k: int| 0 <= k < tracks.len() implies #[trigger] out[k] == tracks[ord[k] as int] by {}
    if 0 <= i < j < tracks.len() {
        assert(le(ord[i], ord[j]));
        assert(ord[i] < tracks.len() && ord[j] < tracks.len());
    }
}

/// The tracks in the order a stable sort by the profile leaves them.
pub open spec fn sorted_tracks(tracks: Seq<Track>, rules: Seq<SortRule>) -> Seq<Track> {
    let ord = msort_by(iota(tracks.len()), sorts_before(tracks, rules));
    Seq::new(tracks.len(), |i: int| tracks[ord[i] as int])
}

/// Stable sort of `tracks` by the profile.
pub fn sort_tracks(tracks: &mut Vec<Track>, profile: &SortProfile)
    ensures
        final(tracks)@ == sorted_tracks(old(tracks)@, profile.rules@),
{
    let ghost before = tracks@;
    let ghost rules = profile.rules@;
    let n = tracks.len();
    let mut taken: Vec<Track> = Vec::new();
    std::mem::swap(&mut taken, tracks);
    let ord;
    {
        let view = &taken;
        let le = |i: usize, j: usize| -> (r: bool)
            ensures
                r == sorts_before(view@, profile.rules@)(i, j),
        {
            if i < view.len() && j < view.len() {
                match compare(&view[i], &view[j], profile) {
                    Ordering::Greater => false,
                    _ => true,
                }
            } else {
                j >= view.len()
            }
        };
        ord = merge_sort_indices(n, &le, Ghost(sorts_before(before, rules)));
    }
    proof {
        lemma_msort_permutation(nat_of(n), sorts_before(before, rules));
    }
    let sorted = permute(taken, &ord);
    *tracks = sorted;
    assert(tracks@ =~= sorted_tracks(before, rules));
}

// ------------------------------------------------------------------ sections of a column

/// The track an item holds (arbitrary for any other row).
pub open spec fn track_at(items: Seq<MediaItem>, k: int) -> Track {
    match items[k] {
        MediaItem::Track(t) => t,
        _ => arbitrary(),
    }
}

/// The end of the run of track rows that starts at `i`.
pub open spec fn run_end(items: Seq<MediaItem>, i: int) -> int
    decreases items.len() - i,
{
    if i < 0 || i >= items.len() || !(items[i] is Track) {
        i
    } else {
        run_end(items, i + 1)
    }
}

/// Two rows compared as tracks; rows that are not both tracks tie.
pub open spec fn item_order(a: MediaItem, b: MediaItem, rules: Seq<SortRule>) -> int {
    match (a, b) {
        (MediaItem::Track(x), MediaItem::Track(y)) => profile_order(x, y, rules),
        _ => 0,
    }
}

/// "`i` sorts no later than `j`" among the run of rows starting at `s` of length `len`.
pub open spec fn run_before(items: Seq<MediaItem>, s: int, len: int, rules: Seq<SortRule>) -> spec_fn(usize, usize) -> bool {
    |i: usize, j: usize| if i < len && j < len {
        if s + i < items.len() && s + j < items.len() {
            item_order(items[s + i], items[s + j], rules) <= 0
        } else {
            true
        }
    } else {
        j >= len
    }
}

fn is_track_item(m: &MediaItem) -> (r: bool)
    ensures
        r == (*m is Track),
{
    match m {
        MediaItem::Track(_) => true,
        _ => false,
    }
}

fn item_sorts_before(a: &MediaItem, b: &MediaItem, profile: &SortProfile) -> (r: bool)
    ensures
        r == (item_order(*a, *b, profile.rules@) <= 0),
{
    match (a, b) {
        (MediaItem::Track(x), MediaItem::Track(y)) => match compare(x, y, profile) {
            Ordering::Greater => false,
            _ => true,
        },
        _ => true,
    }
}

/// Where each position from `i` on takes its item from: a row that is not a track stays put,
/// and each maximal run of tracks is stably sorted by the profile.
pub open spec fn section_order(items: Seq<MediaItem>, rules: Seq<SortRule>, i: int) -> Seq<usize>
    decreases items.len() - i,
{
    if i < 0 || i >= items.len() {
        Seq::empty()
    } else if !(items[i] is Track) {
        seq![i as usize] + section_order(items, rules, i + 1)
    } else {
        let e = run_end(items, i);
        proof {
            lemma_run_end(items, i);
        }
        let sub = msort_by(iota((e - i) as nat), run_before(items, i, e - i, rules));
        sub.map_values(|k: usize| shifted(k, i)) + section_order(items, rules, e)
    }
}

proof fn lemma_section_order_keeps_rows(items: Seq<MediaItem>, rules: Seq<SortRule>, i: int)
    requires
        0 <= i <= items.len(),
        items.len() <= usize::MAX,
    ensures
        section_order(items, rules, i).len() == items.len() - i,
        forall|k: int| i <= k < items.len() && !(items[k] is Track) ==> #[trigger] section_order(items, rules, i)[k - i] == k,
    decreases items.len() - i,
{
    if i < items.len() {
        if !(items[i] is Track) {
            lemma_section_order_keeps_rows(items, rules, i + 1);
            let rest = section_order(items, rules, i + 1);
            let all = section_order(items, rules, i);
            assert(all == seq![i as usize] + rest);
            assert forall|k: int| i <= k < items.len() && !(items[k] is Track) implies #[trigger] all[k - i] == k by {
                if k > i {
                    assert(all[k - i] == rest[k - (i + 1)]);
                }
            }
        } else {
            lemma_run_end(items, i);
            let e = run_end(items, i);
            lemma_section_order_keeps_rows(items, rules, e);
            let n = (e - i) as nat;
            let sub = msort_by(iota(n), run_before(items, i, e - i, rules));
            lemma_msort_permutation(n, run_before(items, i, e - i, rules));
            let head = sub.map_values(|k: usize| shifted(k, i));
            let rest = section_order(items, rules, e);
            let all = section_order(items, rules, i);
            assert(all == head + rest);
            assert forall|k: int| i <= k < items.len() && !(items[k] is Track) implies #[trigger] all[k - i] == k by {
                assert(k >= e);
                assert(all[k - i] == rest[k - e]);
            }
        }
    }
}

/// Sorting a list sorts each run of tracks on its own: every row that is not a track keeps its
/// place.
pub proof fn lemma_sort_items_keeps_other_rows(items: Seq<MediaItem>, rules: Seq<SortRule>, k: int)
    requires
        items.len() <= usize::MAX,
    ensures
        sorted_items(items, rules).len() == items.len(),
        0 <= k < items.len() && !(items[k] is Track) ==> sorted_items(items, rules)[k] == items[k],
{
    lemma_section_order_keeps_rows(items, rules, 0);
    if 0 <= k < items.len() && !(items[k] is Track) {
        assert(section_order(items, rules, 0)[k - 0] == k);
    }
}

/// `q + s` as an index.
pub open spec fn shifted(q: usize, s: int) -> usize {
    (q + s) as usize
}

/// `q + s` for two indices.
pub open spec fn add_usize(q: usize, s: usize) -> usize {
    (q + s) as usize
}

/// The column after sorting within sections.
pub open spec fn sorted_items(items: Seq<MediaItem>, rules: Seq<SortRule>) -> Seq<MediaItem> {
    let ord = section_order(items, rules, 0);
    Seq::new(items.len(), |k: int| items[ord[k] as int])
}

pub proof fn lemma_run_end(items: Seq<MediaItem>, i: int)
    requires
        0 <= i <= items.len(),
    ensures
        i <= run_end(items, i) <= items.len(),
        forall|k: int| i <= k < run_end(items, i) ==> items[k] is Track,
        run_end(items, i) < items.len() ==> !(items[run_end(items, i)] is Track),
        i < items.len() && items[i] is Track ==> run_end(items, i) > i,
    decreases items.len() - i,
{
    if i < items.len() && items[i] is Track {
        lemma_run_end(items, i + 1);
    }
}

proof fn lemma_section_order(items: Seq<MediaItem>, rules: Seq<SortRule>, i: int)
    requires
        0 <= i <= items.len(),
        items.len() <= usize::MAX,
    ensures
        section_order(items, rules, i).len() == items.len() - i,
        forall|k: int| 0 <= k < section_order(items, rules, i).len() ==> i <= #[trigger] section_order(items, rules, i)[k] < items.len(),
        forall|a: int, b: int| 0 <= a < b < section_order(items, rules, i).len() ==> section_order(items, rules, i)[a] != section_order(items, rules, i)[b],
    decreases items.len() - i,
{
    if i < items.len() {
        if !(items[i] is Track) {
            lemma_section_order(items, rules, i + 1);
        } else {
            lemma_run_end(items, i);
            let e = run_end(items, i);
            lemma_section_order(items, rules, e);
            let sub = msort_by(iota((e - i) as nat), run_before(items, i, e - i, rules));
            lemma_msort_permutation((e - i) as nat, run_before(items, i, e - i, rules));
            let front = sub.map_values(|k: usize| shifted(k, i));
            let rest = section_order(items, rules, e);
            let all = front + rest;
            assert forall|k: int| 0 <= k < all.len() implies i <= #[trigger] all[k] < items.len() by {
                if k < front.len() {
                    assert(front[k] == (sub[k] + i) as usize);
                } else {
                    assert(all[k] == rest[k - front.len()]);
                }
            }
            assert forall|a: int, b: int| 0 <= a < b < all.len() implies all[a] != all[b] by {
                if b < front.len() {
                    assert(sub[a] != sub[b]);
                } else if a < front.len() {
                    assert(all[b] == rest[b - front.len()]);
                    assert(all[a] < e);
                } else {
                    assert(all[a] == rest[a - front.len()]);
                    assert(all[b] == rest[b - front.len()]);
                }
            }
        }
    }
}

/// Sorts only within sections: each maximal run of track rows is sorted as a group, and every
/// other row stays exactly where it is, a boundary between runs.
pub fn sort_items(items: &mut Vec<MediaItem>, profile: &SortProfile)
    requires
        old(items)@.len() <= usize::MAX,
    ensures
        final(items)@ == sorted_items(old(items)@, profile.rules@),
{
    let ghost orig = items@;
    let ghost rules = profile.rules@;
    let n = items.len();
    let mut ord: Vec<usize> = Vec::new();
    let mut start: usize = 0;
    while start < n
        invariant
            start <= n,
            n == items@.len(),
            items@ == orig,
            rules == profile.rules@,
            ord@ + section_order(orig, rules, ix(start)) == section_order(orig, rules, 0),
        decreases n - start,
    {
        if !is_track_item(&items[start]) {
            ord.push(start);
            proof {
                assert(ord@ + section_order(orig, rules, ix(start) + 1) =~= ord@.drop_last() + section_order(orig, rules, ix(start)));
            }
            start = start + 1;
        } else {
            let mut end = start + 1;
            while end < n && is_track_item(&items[end])
                invariant
                    start < end <= n,
                    n == items@.len(),
                    items@ == orig,
                    run_end(orig, ix(start)) == run_end(orig, ix(end)),
                decreases n - end,
            {
                end = end + 1;
            }
            let len = end - start;
            let sub;
            {
                let view = &*items;
                let le = |i: usize, j: usize| -> (r: bool)
                    ensures
                        r == run_before(view@, ix(start), ix(len), profile.rules@)(i, j),
                {
                    if i < len && j < len {
                        if i < view.len() && j < view.len() && start <= view.len() - i && start <= view.len() - j
                            && start + i < view.len() && start + j < view.len() {
                            item_sorts_before(&view[start + i], &view[start + j], profile)
                        } else {
                            true
                        }
                    } else {
                        j >= len
                    }
                };
                sub = merge_sort_indices(len, &le, Ghost(run_before(orig, ix(start), ix(len), rules)));
            }
            proof {
                lemma_msort_permutation(nat_of(len), run_before(orig, ix(start), ix(len), rules));
            }
            let ghost base = ord@;
            let mut k: usize = 0;
            while k < len
                invariant
                    k <= len,
                    len == end - start,
                    end <= n,
                    is_permutation(sub@, nat_of(len)),
                    ord@ == base + sub@.take(ix(k)).map_values(|q: usize| add_usize(q, start)),
                decreases len - k,
            {
                let q = sub[k];
                ord.push(start + q);
                proof {
                    assert(sub@.take(ix(k) + 1) =~= sub@.take(ix(k)).push(q));
                    assert(ord@ =~= base + sub@.take(ix(k) + 1).map_values(|q: usize| add_usize(q, start)));
                }
                k = k + 1;
            }
            proof {
                assert(sub@.take(ix(len)) =~= sub@);
                assert(sub@.map_values(|q: usize| add_usize(q, start)) =~= sub@.map_values(|q: usize| shifted(q, ix(start))));
                assert(run_end(orig, ix(end)) == ix(end));
                assert(ord@ + section_order(orig, rules, ix(end)) =~= base + section_order(orig, rules, ix(start)));
            }
            start = end;
        }
    }
    proof {
        lemma_section_order(orig, rules, 0);
        assert(ord@ =~= section_order(orig, rules, 0));
    }
    let mut taken: Vec<MediaItem> = Vec::new();
    std::mem::swap(&mut taken, items);
    let sorted = permute(taken, &ord);
    *items = sorted;
    assert(items@ =~= sorted_items(orig, rules));
}

// ------------------------------------------------------------------ album years

/// The smallest year among the tracks of album `id` that carry one.
pub open spec fn album_min_year(tracks: Seq<Track>, id: Seq<char>) -> Option<int>
    decreases tracks.len(),
{
    if tracks.len() == 0 {
        None
    } else {
        let r = album_min_year(tracks.drop_last(), id);
        let t = tracks.last();
        if t.album_id matches Some(a) && a@ == id && t.year is Some {
            let y = t.year->0 as int;
            match r {
                None => Some(y),
                Some(m) => Some(if m < y { m } else { y }),
            }
        } else {
            r
        }
    }
}

/// The year recorded for `id` in a list of (album, year) pairs: the first pair's.
pub open spec fn year_lookup(years: Seq<(ItemId, u16)>, id: Seq<char>) -> Option<int>
    decreases years.len(),
{
    if years.len() == 0 {
        None
    } else if years[0].0@ == id {
        Some(years[0].1 as int)
    } else {
        year_lookup(years.drop_first(), id)
    }
}

/// No album twice.
pub open spec fn albums_distinct(years: Seq<(ItemId, u16)>) -> bool {
    forall|i: int, j: int| 0 <= i < j < years.len() ==> years[i].0@ != years[j].0@
}

fn find_album(years: &Vec<(ItemId, u16)>, id: &ItemId) -> (r: Option<usize>)
    ensures
        match r {
            Some(i) => i < years@.len() && years@[ix(i)].0@ == id@ && forall|j: int| 0 <= j < i ==> years@[j].0@ != id@,
            None => forall|j: int| 0 <= j < years@.len() ==> years@[j].0@ != id@,
        },
{
    let mut i: usize = 0;
    while i < years.len()
        invariant
            i <= years@.len(),
            forall|j: int| 0 <= j < i ==> years@[j].0@ != id@,
        decreases years@.len() - i,
    {
        if years[i].0.same(id) {
            return Some(i);
        }
        i = i + 1;
    }
    None
}

proof fn lemma_year_lookup(years: Seq<(ItemId, u16)>, id: Seq<char>)
    ensures
        (forall|j: int| 0 <= j < years.len() ==> years[j].0@ != id) ==> year_lookup(years, id) is None,
        forall|i: int| 0 <= i < years.len() && years[i].0@ == id && (forall|j: int| 0 <= j < i ==> years[j].0@ != id)
            ==> year_lookup(years, id) == Some(years[i].1 as int),
    decreases years.len(),
{
    if years.len() > 0 {
        lemma_year_lookup(years.drop_first(), id);
        assert forall|i: int| 0 <= i < years.len() && years[i].0@ == id && (forall|j: int| 0 <= j < i ==> years[j].0@ != id)
            implies year_lookup(years, id) == Some(years[i].1 as int) by {
            if i > 0 {
                assert(years.drop_first()[i - 1] == years[i]);
                assert forall|j: int| 0 <= j < i - 1 implies years.drop_first()[j].0@ != id by {
                    assert(years.drop_first()[j] == years[j + 1]);
                }
            }
        }
        if forall|j: int| 0 <= j < years.len() ==> years[j].0@ != id {
            assert forall|j: int| 0 <= j < years.drop_first().len() implies years.drop_first()[j].0@ != id by {
                assert(years.drop_first()[j] == years[j + 1]);
            }
        }
    }
}

/// The representative year of each album among `tracks`: the smallest year its own tracks
/// carry. Keying the year rule off this keeps an album together even when its tracks are
/// tagged inconsistently.
pub fn album_years(tracks: &Vec<Track>) -> (r: Vec<(ItemId, u16)>)
    ensures
        albums_distinct(r@),
        forall|id: Seq<char>| #[trigger] year_lookup(r@, id) == album_min_year(tracks@, id),
{
    let mut out: Vec<(ItemId, u16)> = Vec::new();
    let mut i: usize = 0;
    while i < tracks.len()
        invariant
            i <= tracks@.len(),
            albums_distinct(out@),
            forall|id: Seq<char>| #[trigger] year_lookup(out@, id) == album_min_year(tracks@.take(ix(i)), id),
        decreases tracks@.len() - i,
    {
        let t = &tracks[i];
        let ghost pre = tracks@.take(ix(i));
        let ghost cur = tracks@.take(ix(i) + 1);
        proof {
            assert(cur.drop_last() =~= pre);
            assert(cur.last() == *t);
        }
        match (&t.album_id, t.year) {
            (Some(album), Some(year)) => {
                let ghost before = out@;
                match find_album(&out, album) {
                    Some(k) => {
                        let old_year = out[k].1;
                        let y = if old_year < year { old_year } else { year };
                        let key = ItemId::from_str(out[k].0.as_str());
                        out.set(k, (key, y));
                        proof {
                            assert forall|id: Seq<char>| #[trigger] year_lookup(out@, id) == album_min_year(cur, id) by {
                                lemma_year_lookup(before, id);
                                lemma_year_lookup(out@, id);
                                if id == album@ {
                                    assert forall|j: int| 0 <= j < k implies out@[j].0@ != id by {
                                        assert(out@[j] == before[j]);
                                    }
                                    assert(before[ix(k)].0@ == id);
                                    assert(year_lookup(before, id) == Some(before[ix(k)].1 as int));
                                    assert(album_min_year(pre, id) == Some(old_year as int));
                                    assert(t.album_id == Some(*album));
                                    assert(t.year == Some(year));
                                    assert(album_min_year(cur, id) == Some(y as int));
                                    assert(out@[ix(k)].0@ == id);
                                    assert(year_lookup(out@, id) == Some(y as int));
                                } else {
                                    if exists|q: int| 0 <= q < before.len() && before[q].0@ == id {
                                        let q = choose|q: int| 0 <= q < before.len() && before[q].0@ == id && forall|j: int| 0 <= j < q ==> before[j].0@ != id;
                                        assert(out@[q] == before[q]);
                                        assert forall|j: int| 0 <= j < q implies out@[j].0@ != id by {
                                            if j != k {
                                                assert(out@[j] == before[j]);
                                            }
                                        }
                                    } else {
                                        assert forall|j: int| 0 <= j < out@.len() implies out@[j].0@ != id by {
                                            if j != k {
                                                assert(out@[j] == before[j]);
                                            }
                                        }
                                    }
                                }
                            }
                            assert forall|a: int, b: int| 0 <= a < b < out@.len() implies out@[a].0@ != out@[b].0@ by {
                                if a != k && b != k {
                                    assert(out@[a] == before[a] && out@[b] == before[b]);
                                } else if a == k {
                                    assert(out@[b] == before[b]);
                                } else {
                                    assert(out@[a] == before[a]);
                                }
                            }
                        }
                    },
                    None => {
                        let key = ItemId::from_str(album.as_str());
                        out.push((key, year));
                        proof {
                            assert forall|id: Seq<char>| #[trigger] year_lookup(out@, id) == album_min_year(cur, id) by {
                                lemma_year_lookup(before, id);
                                lemma_year_lookup(out@, id);
                                if id == album@ {
                                    assert forall|j: int| 0 <= j < before.len() implies out@[j].0@ != id by {
                                        assert(out@[j] == before[j]);
                                    }
                                    assert(out@[before.len() as int].0@ == id);
                                } else if exists|q: int| 0 <= q < before.len() && before[q].0@ == id {
                                    let q = choose|q: int| 0 <= q < before.len() && before[q].0@ == id && forall|j: int| 0 <= j < q ==> before[j].0@ != id;
                                    assert(out@[q] == before[q]);
                                    assert forall|j: int| 0 <= j < q implies out@[j].0@ != id by {
                                        assert(out@[j] == before[j]);
                                    }
                                } else {
                                    assert forall|j: int| 0 <= j < out@.len() implies out@[j].0@ != id by {
                                        if j < before.len() {
                                            assert(out@[j] == before[j]);
                                        }
                                    }
                                }
                            }
                            assert forall|a: int, b: int| 0 <= a < b < out@.len() implies out@[a].0@ != out@[b].0@ by {
                                assert(out@[a] == before[a]);
                                if b < before.len() {
                                    assert(out@[b] == before[b]);
                                }
                            }
                        }
                    },
                }
            },
            _ => {
                proof {
                    assert forall|id: Seq<char>| #[trigger] year_lookup(out@, id) == album_min_year(cur, id) by {}
                }
            },
        }
        i = i + 1;
    }
    assert(tracks@.take(ix(tracks.len())) =~= tracks@);
    out
}

/// A track's album year from `years` (the track's own year when its album has none there).
pub open spec fn album_year_of(t: Track, years: Seq<(ItemId, u16)>) -> Option<int> {
    match t.album_id {
        Some(id) => match year_lookup(years, id@) {
            Some(y) => Some(y),
            None => year_of(t),
        },
        None => year_of(t),
    }
}

/// Like `rules_order`, with every year rule reading the album year instead.
pub open spec fn rules_order_album(a: Track, b: Track, rules: Seq<SortRule>, years: Seq<(ItemId, u16)>, i: int) -> int
    decreases rules.len() - i,
{
    if i < 0 || i >= rules.len() || i >= 4 {
        text_order(a.id@, b.id@, 0)
    } else {
        let o = if rules[i].field == SortField::Year {
            option_last_order(album_year_of(a, years), album_year_of(b, years), rules[i].direction)
        } else {
            field_order(a, b, rules[i].field, rules[i].direction)
        };
        if o != 0 {
            o
        } else {
            rules_order_album(a, b, rules, years, i + 1)
        }
    }
}

fn album_year_value(t: &Track, years: &Vec<(ItemId, u16)>) -> (r: Option<i128>)
    ensures
        opt_int(r) == album_year_of(*t, years@),
{
    match &t.album_id {
        Some(id) => match find_album(years, id) {
            Some(k) => {
                proof {
                    lemma_year_lookup(years@, id@);
                }
                Some(years[k].1 as i128)
            },
            None => {
                proof {
                    lemma_year_lookup(years@, id@);
                }
                year_value(t)
            },
        },
        None => year_value(t),
    }
}

/// Like `compare`, but every year rule reads the track's album year from `years`, so an album
/// sorts as one unit even when its tracks are tagged inconsistently.
pub fn compare_with_album_year(a: &Track, b: &Track, profile: &SortProfile, years: &Vec<(ItemId, u16)>) -> (r: Ordering)
    ensures
        r == ordering_from(rules_order_album(*a, *b, profile.rules@, years@, 0)),
{
    let mut i: usize = 0;
    while i < profile.rules.len() && i < 4
        invariant
            i <= 4,
            i <= profile.rules@.len(),
            rules_order_album(*a, *b, profile.rules@, years@, 0) == rules_order_album(*a, *b, profile.rules@, years@, ix(i)),
        decreases profile.rules@.len() - i,
    {
        let rule = profile.rules[i];
        let o = if rule.field == SortField::Year {
            compare_option_last(album_year_value(a, years), album_year_value(b, years), rule.direction)
        } else {
            compare_field(a, b, rule.field, rule.direction)
        };
        match o {
            Ordering::Equal => {},
            _ => {
                return o;
            },
        }
        i = i + 1;
    }
    let ia = chars_of(a.id.as_str());
    let ib = chars_of(b.id.as_str());
    text_ordering(&ia, &ib)
}

} // verus!
