//! The offline library: artists, albums and tracks reconstructed from nothing but the
//! downloaded tracks' own sidecars. Walking the downloads directory and reading the sidecars is
//! the caller's; everything derived from the tracks is here.
use crate::discography::{classify, first_pos, ids_view, spec_classify, strs_view, Discography};
use crate::queue::natural::text_order;
use crate::text::chars_of;
use crate::model::ids::ItemId;
use crate::clock::{duration_as_nanos, duration_new, duration_nanos, duration_sum, max_duration_nanos};
use crate::model::item::{same_image, same_track, texts, Album, AlbumRelation, Artist, ImageRef, Playlist, Track};
use crate::text::{is_blank, is_blank_chars};
use nucleo_matcher::pattern::{Atom, AtomKind, CaseMatching, Normalization};
use nucleo_matcher::{Config, Matcher, Utf32Str};
use crate::msort::{iota, is_permutation, lemma_msort_permutation, msort_by, permute, skey_le, sort_indices_by_signed_keys};
use vstd::prelude::*;
use vstd::hash_map::StringHashMap;

verus! {

/// No two tracks share an id.
pub open spec fn ids_distinct(ts: Seq<Track>) -> bool {
    forall|i: int, j: int| 0 <= i < ts.len() && 0 <= j < ts.len() && i != j ==> #[trigger] ts[i].id@ != #[trigger] ts[j].id@
}

/// Where the track with id `id` sits, if there is one.
pub open spec fn track_index(ts: Seq<Track>, id: Seq<char>) -> Option<int> {
    if exists|i: int| 0 <= i < ts.len() && #[trigger] ts[i].id@ == id {
        Some(choose|i: int| 0 <= i < ts.len() && #[trigger] ts[i].id@ == id)
    } else {
        None
    }
}

/// The tracks after reading `t`: it replaces the track with its id, or joins the end.
pub open spec fn with_track(ts: Seq<Track>, t: Track) -> Seq<Track> {
    match track_index(ts, t.id@) {
        Some(i) => ts.update(i, t),
        None => ts.push(t),
    }
}

/// The tracks after reading each sidecar in turn.
pub open spec fn with_tracks(input: Seq<Track>) -> Seq<Track>
    decreases input.len(),
{
    if input.len() == 0 {
        Seq::empty()
    } else {
        with_track(with_tracks(input.drop_last()), input.last())
    }
}

/// `t` is on the album `al`.
pub open spec fn in_album(t: Track, al: Seq<char>) -> bool {
    t.album_id is Some && t.album_id->0@ == al
}

/// `a` is among `t`'s contributors.
pub open spec fn has_artist(t: Track, a: Seq<char>) -> bool {
    ids_view(t.artist_ids@).contains(a)
}

/// `id` is `t` itself, its album, or one of its contributors.
pub open spec fn names_id(t: Track, id: Seq<char>) -> bool {
    t.id@ == id || in_album(t, id) || has_artist(t, id)
}

/// `id` names something in the offline library: a track, an album, or an artist.
pub open spec fn known_id(ts: Seq<Track>, id: Seq<char>) -> bool {
    exists|i: int| 0 <= i < ts.len() && #[trigger] names_id(ts[i], id)
}

/// `2^32`.
pub open spec fn two32() -> int {
    0x1_0000_0000
}

/// The sort key of `t` among the tracks of `al`: the album's tracks first, by disc then
/// track number (an absent number counts as 0).
pub open spec fn album_track_key(t: Track, al: Seq<char>) -> i128 {
    let outside: int = if in_album(t, al) { 0 } else { two32() * two32() };
    let disc: int = match t.disc_number { Some(d) => d as int, None => 0 };
    let num: int = match t.track_number { Some(n) => n as int, None => 0 };
    (outside + disc * two32() + num) as i128
}

/// The sort keys of all the tracks for `al`.
pub open spec fn album_track_keys(ts: Seq<Track>, al: Seq<char>) -> Seq<i128> {
    Seq::new(ts.len(), |i: int| album_track_key(ts[i], al))
}

/// How many of the tracks are on `al`.
pub open spec fn album_size(ts: Seq<Track>, al: Seq<char>) -> nat
    decreases ts.len(),
{
    if ts.len() == 0 {
        0
    } else {
        album_size(ts.drop_last(), al) + if in_album(ts.last(), al) { 1nat } else { 0nat }
    }
}

/// The tracks of `al`, by disc then track number (the index order breaks ties).
pub open spec fn album_track_order(ts: Seq<Track>, al: Seq<char>) -> Seq<usize> {
    msort_by(iota(ts.len()), skey_le(album_track_keys(ts, al))).take(album_size(ts, al) as int)
}


// ------------------------------------------------------------------ artists

/// `seen` with each of `add` that is not already there appended, in order.
pub open spec fn add_new(seen: Seq<Seq<char>>, add: Seq<Seq<char>>) -> Seq<Seq<char>>
    decreases add.len(),
{
    if add.len() == 0 {
        seen
    } else {
        let s = add_new(seen, add.drop_last());
        if s.contains(add.last()) { s } else { s.push(add.last()) }
    }
}

/// Every contributor of the tracks, once each, in the order first met.
pub open spec fn seen_artists(ts: Seq<Track>) -> Seq<Seq<char>>
    decreases ts.len(),
{
    if ts.len() == 0 {
        Seq::empty()
    } else {
        add_new(seen_artists(ts.drop_last()), ids_view(ts.last().artist_ids@))
    }
}

/// The name `t` gives contributor `a`: the name beside `a`'s first place in the id list, or
/// nothing when the name list is short.
pub open spec fn name_in(t: Track, a: Seq<char>) -> Seq<char> {
    match first_pos(ids_view(t.artist_ids@), a) {
        Some(p) => if p < t.artist_names@.len() { t.artist_names@[p]@ } else { Seq::empty() },
        None => Seq::empty(),
    }
}

/// The name of contributor `a`: as the first track listing `a` gives it.
pub open spec fn artist_name(ts: Seq<Track>, a: Seq<char>) -> Seq<char>
    decreases ts.len(),
{
    if ts.len() == 0 {
        Seq::empty()
    } else if exists|i: int| 0 <= i < ts.len() - 1 && #[trigger] has_artist(ts[i], a) {
        artist_name(ts.drop_last(), a)
    } else if has_artist(ts.last(), a) {
        name_in(ts.last(), a)
    } else {
        Seq::empty()
    }
}

/// How many tracks list `a`.
pub open spec fn artist_track_count(ts: Seq<Track>, a: Seq<char>) -> nat
    decreases ts.len(),
{
    if ts.len() == 0 {
        0
    } else {
        artist_track_count(ts.drop_last(), a) + if has_artist(ts.last(), a) { 1nat } else { 0nat }
    }
}

/// `t` makes its album one of `a`'s own releases.
pub open spec fn primary_for(t: Track, a: Seq<char>) -> bool {
    t.album_id is Some && has_artist(t, a)
        && spec_classify(ids_view(t.artist_ids@), strs_view(t.artist_names@), strs_view(t.album_artist_names@), a) == Some(true)
}

/// `a`'s own albums, once each, in the order first met.
pub open spec fn primary_albums(ts: Seq<Track>, a: Seq<char>) -> Seq<Seq<char>>
    decreases ts.len(),
{
    if ts.len() == 0 {
        Seq::empty()
    } else {
        let p = primary_albums(ts.drop_last(), a);
        if primary_for(ts.last(), a) && !p.contains(ts.last().album_id->0@) {
            p.push(ts.last().album_id->0@)
        } else {
            p
        }
    }
}

/// The genres of the tracks listing `a`, once each, in the order first met.
pub open spec fn artist_genres(ts: Seq<Track>, a: Seq<char>) -> Seq<Seq<char>>
    decreases ts.len(),
{
    if ts.len() == 0 {
        Seq::empty()
    } else if has_artist(ts.last(), a) {
        add_new(artist_genres(ts.drop_last(), a), strs_view(ts.last().genres@))
    } else {
        artist_genres(ts.drop_last(), a)
    }
}

/// `r` is the offline record of contributor `a`: counts are what is downloaded; favourite,
/// image and overview are unknowable offline.
pub open spec fn is_artist_record(r: Artist, ts: Seq<Track>, a: Seq<char>) -> bool {
    &&& r.id@ == a
    &&& r.name@ == artist_name(ts, a)
    &&& r.sort_name@ == artist_name(ts, a)
    &&& r.album_count == primary_albums(ts, a).len() as u32
    &&& r.track_count == artist_track_count(ts, a) as u32
    &&& strs_view(r.genres@) == artist_genres(ts, a)
    &&& !r.is_favorite
    &&& r.image is None
    &&& r.overview is None
}

/// "`i` sorts no later than `j`" among texts.
pub open spec fn text_le(names: Seq<Seq<char>>) -> spec_fn(usize, usize) -> bool {
    |i: usize, j: usize| if i < names.len() && j < names.len() {
        text_order(names[i as int], names[j as int], 0) <= 0
    } else {
        j >= names.len()
    }
}

/// The contributors' names, in the order first met.
pub open spec fn seen_names(ts: Seq<Track>) -> Seq<Seq<char>> {
    seen_artists(ts).map_values(|a: Seq<char>| artist_name(ts, a))
}

/// The contributors by name (ties in the order first met).
pub open spec fn artist_order(ts: Seq<Track>) -> Seq<usize> {
    msort_by(iota(seen_artists(ts).len()), text_le(seen_names(ts)))
}


// ------------------------------------------------------------------ albums

/// The first track on `al`, if any.
pub open spec fn album_head(ts: Seq<Track>, al: Seq<char>) -> Option<int> {
    if exists|i: int| 0 <= i < ts.len() && #[trigger] in_album(ts[i], al) {
        Some(choose|i: int| 0 <= i < ts.len() && #[trigger] in_album(ts[i], al)
            && forall|j: int| 0 <= j < i ==> !#[trigger] in_album(ts[j], al))
    } else {
        None
    }
}

/// The playing time of the tracks on `al` together, in nanoseconds.
pub open spec fn album_nanos(ts: Seq<Track>, al: Seq<char>) -> nat
    decreases ts.len(),
{
    if ts.len() == 0 {
        0
    } else {
        album_nanos(ts.drop_last(), al) + if in_album(ts.last(), al) { duration_nanos(ts.last().duration) } else { 0nat }
    }
}

/// Every album's playing time fits in a `Duration`.
pub open spec fn durations_fit(ts: Seq<Track>) -> bool {
    forall|al: Seq<char>| #[trigger] album_nanos(ts, al) <= max_duration_nanos()
}

/// The genres of the tracks on `al`, once each, in the order first met.
pub open spec fn album_genres(ts: Seq<Track>, al: Seq<char>) -> Seq<Seq<char>>
    decreases ts.len(),
{
    if ts.len() == 0 {
        Seq::empty()
    } else if in_album(ts.last(), al) {
        add_new(album_genres(ts.drop_last(), al), strs_view(ts.last().genres@))
    } else {
        album_genres(ts.drop_last(), al)
    }
}

/// `ids` extended by the contributor ids of one track whose names are among `wanted`, each
/// once: the ids of the album artists, as far as the track's contributor lists tell them.
pub open spec fn resolve_in(ids: Seq<Seq<char>>, names: Seq<Seq<char>>, aids: Seq<Seq<char>>, wanted: Seq<Seq<char>>) -> Seq<Seq<char>>
    decreases names.len(),
{
    if names.len() == 0 {
        ids
    } else {
        let r = resolve_in(ids, names.drop_last(), aids, wanted);
        let i = names.len() - 1;
        if wanted.contains(names[i]) && i < aids.len() && !r.contains(aids[i]) {
            r.push(aids[i])
        } else {
            r
        }
    }
}

/// The album artists' ids as the tracks on `al` reveal them.
pub open spec fn album_artist_ids(ts: Seq<Track>, al: Seq<char>, wanted: Seq<Seq<char>>) -> Seq<Seq<char>>
    decreases ts.len(),
{
    if ts.len() == 0 {
        Seq::empty()
    } else {
        let r = album_artist_ids(ts.drop_last(), al, wanted);
        if in_album(ts.last(), al) {
            resolve_in(r, strs_view(ts.last().artist_names@), ids_view(ts.last().artist_ids@), wanted)
        } else {
            r
        }
    }
}

/// `r` is the offline record of album `al` (with `relation`): its name, album artists, year
/// and image from its first track; genres, track count and playing time from all of them.
pub open spec fn is_album_record(r: Album, ts: Seq<Track>, al: Seq<char>, relation: Option<Seq<char>>) -> bool {
    let h = ts[album_head(ts, al)->0];
    &&& r.id@ == al
    &&& r.name@ == h.album_name@
    &&& r.sort_name@ == h.album_name@
    &&& strs_view(r.album_artist_names@) == strs_view(h.album_artist_names@)
    &&& ids_view(r.album_artist_ids@) == album_artist_ids(ts, al, strs_view(h.album_artist_names@))
    &&& r.year == h.year
    &&& r.track_count == album_size(ts, al) as u32
    &&& duration_nanos(r.total_duration) == album_nanos(ts, al)
    &&& strs_view(r.genres@) == album_genres(ts, al)
    &&& !r.is_favorite
    &&& same_image(r.image, h.image)
    &&& relation_view(r.relation) == relation
}

/// The albums on which `a` is (`primary`) or is not (`!primary`) an album artist, once each,
/// in the order first met.
pub open spec fn related_albums(ts: Seq<Track>, a: Seq<char>, primary: bool) -> Seq<Seq<char>>
    decreases ts.len(),
{
    if ts.len() == 0 {
        Seq::empty()
    } else {
        let p = related_albums(ts.drop_last(), a, primary);
        let t = ts.last();
        if t.album_id is Some
            && spec_classify(ids_view(t.artist_ids@), strs_view(t.artist_names@), strs_view(t.album_artist_names@), a) == Some(primary)
            && !p.contains(t.album_id->0@) {
            p.push(t.album_id->0@)
        } else {
            p
        }
    }
}

/// The ids of `g` that are not among `p`, in order.
pub open spec fn ids_not_in(g: Seq<Seq<char>>, p: Seq<Seq<char>>) -> Seq<Seq<char>>
    decreases g.len(),
{
    if g.len() == 0 {
        g
    } else if p.contains(g.last()) {
        ids_not_in(g.drop_last(), p)
    } else {
        ids_not_in(g.drop_last(), p).push(g.last())
    }
}

/// The albums `a` only appears on: related as a guest, and not also their own.
pub open spec fn appears_on_albums(ts: Seq<Track>, a: Seq<char>) -> Seq<Seq<char>> {
    ids_not_in(related_albums(ts, a, false), related_albums(ts, a, true))
}

proof fn lemma_related_no_dup(ts: Seq<Track>, a: Seq<char>, primary: bool)
    ensures
        related_albums(ts, a, primary).no_duplicates(),
    decreases ts.len(),
{
    if ts.len() > 0 {
        lemma_related_no_dup(ts.drop_last(), a, primary);
        let p = related_albums(ts.drop_last(), a, primary);
        let r = related_albums(ts, a, primary);
        if r != p {
            let x = ts.last().album_id->0@;
            assert(r == p.push(x));
            assert forall|i: int, j: int| 0 <= i < r.len() && 0 <= j < r.len() && i != j implies r[i] != r[j] by {
                if i < p.len() && j < p.len() {
                    assert(r[i] == p[i] && r[j] == p[j]);
                } else if i < p.len() {
                    assert(r[i] == p[i]);
                    assert(p.contains(p[i]));
                } else {
                    assert(r[j] == p[j]);
                    assert(p.contains(p[j]));
                }
            }
        }
    }
}

proof fn lemma_ids_not_in(g: Seq<Seq<char>>, p: Seq<Seq<char>>)
    ensures
        forall|x: Seq<char>| ids_not_in(g, p).contains(x) <==> g.contains(x) && !p.contains(x),
        g.no_duplicates() ==> ids_not_in(g, p).no_duplicates(),
    decreases g.len(),
{
    if g.len() > 0 {
        let d = g.drop_last();
        lemma_ids_not_in(d, p);
        let r0 = ids_not_in(d, p);
        let r = ids_not_in(g, p);
        assert forall|x: Seq<char>| g.contains(x) <==> d.contains(x) || x == g.last() by {
            if g.contains(x) {
                let i = choose|i: int| 0 <= i < g.len() && g[i] == x;
                if i < d.len() {
                    assert(d[i] == x);
                }
            }
            if d.contains(x) {
                let i = choose|i: int| 0 <= i < d.len() && d[i] == x;
                assert(g[i] == x);
            }
            if x == g.last() {
                assert(g[g.len() - 1] == x);
            }
        }
        if !p.contains(g.last()) {
            assert(r == r0.push(g.last()));
            assert forall|x: Seq<char>| r.contains(x) <==> r0.contains(x) || x == g.last() by {
                if r.contains(x) {
                    let i = choose|i: int| 0 <= i < r.len() && r[i] == x;
                    if i < r0.len() {
                        assert(r0[i] == x);
                    }
                }
                if r0.contains(x) {
                    let i = choose|i: int| 0 <= i < r0.len() && r0[i] == x;
                    assert(r[i] == x);
                }
                if x == g.last() {
                    assert(r[r.len() - 1] == x);
                }
            }
            if g.no_duplicates() {
                assert(d.no_duplicates()) by {
                    assert forall|i: int, j: int| 0 <= i < d.len() && 0 <= j < d.len() && i != j implies d[i] != d[j] by {
                        assert(d[i] == g[i] && d[j] == g[j]);
                    }
                }
                assert(!d.contains(g.last())) by {
                    if d.contains(g.last()) {
                        let i = choose|i: int| 0 <= i < d.len() && d[i] == g.last();
                        assert(g[i] == g[g.len() - 1]);
                    }
                }
                assert forall|i: int, j: int| 0 <= i < r.len() && 0 <= j < r.len() && i != j implies r[i] != r[j] by {
                    if i < r0.len() && j < r0.len() {
                        assert(r[i] == r0[i] && r[j] == r0[j]);
                    } else if i < r0.len() {
                        assert(r[i] == r0[i]);
                        assert(r0.contains(r0[i]));
                    } else {
                        assert(r[j] == r0[j]);
                        assert(r0.contains(r0[j]));
                    }
                }
            }
        } else {
            if g.no_duplicates() {
                assert(d.no_duplicates()) by {
                    assert forall|i: int, j: int| 0 <= i < d.len() && 0 <= j < d.len() && i != j implies d[i] != d[j] by {
                        assert(d[i] == g[i] && d[j] == g[j]);
                    }
                }
            }
        }
    }
}

/// An artist's own albums and the albums they only appear on never overlap, neither list names
/// an album twice, and every album they appear on as a guest is in one of the two.
pub proof fn lemma_discography_partition(ts: Seq<Track>, a: Seq<char>, x: Seq<char>)
    ensures
        !(related_albums(ts, a, true).contains(x) && appears_on_albums(ts, a).contains(x)),
        related_albums(ts, a, false).contains(x) ==> related_albums(ts, a, true).contains(x) || appears_on_albums(ts, a).contains(x),
        related_albums(ts, a, true).no_duplicates(),
        appears_on_albums(ts, a).no_duplicates(),
{
    lemma_related_no_dup(ts, a, true);
    lemma_related_no_dup(ts, a, false);
    lemma_ids_not_in(related_albums(ts, a, false), related_albums(ts, a, true));
}

/// A relation as plain values: the context artist of an appearance, nothing for a primary
/// release.
pub open spec fn relation_view(r: AlbumRelation) -> Option<Seq<char>> {
    match r {
        AlbumRelation::Primary => None,
        AlbumRelation::AppearsOn { context_artist } => Some(context_artist@),
    }
}

/// The year and name of album `al`, as its first track gives them.
pub open spec fn album_year(ts: Seq<Track>, al: Seq<char>) -> Option<u16> {
    ts[album_head(ts, al)->0].year
}

pub open spec fn album_name_of(ts: Seq<Track>, al: Seq<char>) -> Seq<char> {
    ts[album_head(ts, al)->0].album_name@
}

/// Album `x` sorts no later than album `y`: year ascending, a missing year last, then name.
pub open spec fn album_le_at(ts: Seq<Track>, x: Seq<char>, y: Seq<char>) -> bool {
    match (album_year(ts, x), album_year(ts, y)) {
        (Some(a), Some(b)) => a < b || (a == b && text_order(album_name_of(ts, x), album_name_of(ts, y), 0) <= 0),
        (Some(_), None) => true,
        (None, Some(_)) => false,
        (None, None) => text_order(album_name_of(ts, x), album_name_of(ts, y), 0) <= 0,
    }
}

/// "Album `i` of `als` sorts no later than album `j`".
pub open spec fn album_le(ts: Seq<Track>, als: Seq<Seq<char>>) -> spec_fn(usize, usize) -> bool {
    |i: usize, j: usize| if i < als.len() && j < als.len() {
        album_le_at(ts, als[i as int], als[j as int])
    } else {
        j >= als.len()
    }
}

/// `out` holds the records of the albums `als`, sorted by year then name.
pub open spec fn sorted_album_records(out: Seq<Album>, ts: Seq<Track>, als: Seq<Seq<char>>, relation: Option<Seq<char>>) -> bool {
    let ord = msort_by(iota(als.len()), album_le(ts, als));
    &&& out.len() == als.len()
    &&& forall|k: int| 0 <= k < out.len() ==> #[trigger] is_album_record(out[k], ts, als[ord[k] as int], relation)
}


// ------------------------------------------------------------------ search

/// Whether `nucleo-matcher`'s fuzzy, case-insensitive match of the query `q` finds `hay`.
pub uninterp spec fn fuzzy_hit(q: Seq<char>, hay: Seq<char>) -> bool;

/// `nucleo_matcher::pattern::Atom::score` with a fuzzy, case-ignoring, smart-normalising atom
/// built from `q`: whether it scores `hay` at all.
#[verifier::external_body]
fn fuzzy_matches(q: &str, hay: &str) -> (r: bool)
    ensures
        r == fuzzy_hit(q@, hay@),
{
    let atom = Atom::new(q, CaseMatching::Ignore, Normalization::Smart, AtomKind::Fuzzy, false);
    let mut matcher = Matcher::new(Config::DEFAULT);
    let mut buf: Vec<char> = Vec::new();
    atom.score(Utf32Str::new(hay, &mut buf), &mut matcher).is_some()
}

/// The positions, in order, of the texts `q` finds.
pub open spec fn hits(q: Seq<char>, names: Seq<Seq<char>>) -> Seq<usize>
    decreases names.len(),
{
    if names.len() == 0 {
        Seq::empty()
    } else {
        let h = hits(q, names.drop_last());
        if fuzzy_hit(q, names.last()) { h.push((names.len() - 1) as usize) } else { h }
    }
}

/// Every album of the tracks, once each, in the order first met.
pub open spec fn seen_albums(ts: Seq<Track>) -> Seq<Seq<char>>
    decreases ts.len(),
{
    if ts.len() == 0 {
        Seq::empty()
    } else {
        let p = seen_albums(ts.drop_last());
        if ts.last().album_id is Some && !p.contains(ts.last().album_id->0@) {
            p.push(ts.last().album_id->0@)
        } else {
            p
        }
    }
}

/// The ids of the tracks.
pub open spec fn track_ids(ts: Seq<Track>) -> Seq<Seq<char>> {
    ts.map_values(|t: Track| t.id@)
}

/// The artists' names in the order `artists` lists them.
pub open spec fn ordered_artist_names(ts: Seq<Track>) -> Seq<Seq<char>> {
    Seq::new(seen_artists(ts).len(), |k: int| artist_name(ts, seen_artists(ts)[artist_order(ts)[k] as int]))
}

/// The albums by id.
pub open spec fn album_id_order(ts: Seq<Track>) -> Seq<usize> {
    msort_by(iota(seen_albums(ts).len()), text_le(seen_albums(ts)))
}

/// The album names in id order.
pub open spec fn ordered_album_names(ts: Seq<Track>) -> Seq<Seq<char>> {
    Seq::new(seen_albums(ts).len(), |k: int| album_name_of(ts, seen_albums(ts)[album_id_order(ts)[k] as int]))
}

/// The tracks by id.
pub open spec fn track_id_order(ts: Seq<Track>) -> Seq<usize> {
    msort_by(iota(ts.len()), text_le(track_ids(ts)))
}

/// The track names in id order.
pub open spec fn ordered_track_names(ts: Seq<Track>) -> Seq<Seq<char>> {
    Seq::new(ts.len(), |k: int| ts[track_id_order(ts)[k] as int].name@)
}

/// What a search of the library finds. The offline library has no playlists, and nothing in
/// it can fail, so those parts are always empty.
pub struct SearchResults {
    pub artists: Vec<Artist>,
    pub albums: Vec<Album>,
    pub tracks: Vec<Track>,
    pub artists_error: Option<String>,
    pub albums_error: Option<String>,
    pub tracks_error: Option<String>,
    pub playlists: Vec<Playlist>,
    pub playlists_error: Option<String>,
}

/// The positions of the texts `q` finds, in order.
fn hit_indices(q: &str, names: &Vec<Vec<char>>) -> (r: Vec<usize>)
    ensures
        r@ == hits(q@, names@.map_values(|n: Vec<char>| n@)),
        forall|k: int| 0 <= k < r@.len() ==> r@[k] < names@.len(),
        forall|a: int, b: int| 0 <= a < b < r@.len() ==> r@[a] < r@[b],
{
    let ghost nv = names@.map_values(|n: Vec<char>| n@);
    let mut r: Vec<usize> = Vec::new();
    let mut i: usize = 0;
    while i < names.len()
        invariant
            i <= names@.len(),
            nv == names@.map_values(|n: Vec<char>| n@),
            r@ == hits(q@, nv.take(i as int)),
            forall|k: int| 0 <= k < r@.len() ==> r@[k] < i,
            forall|a: int, b: int| 0 <= a < b < r@.len() ==> r@[a] < r@[b],
        decreases names@.len() - i,
    {
        proof {
            assert(nv.take(i as int + 1).drop_last() =~= nv.take(i as int));
            assert(nv.take(i as int + 1).last() == names@[i as int]@);
        }
        let hay = crate::text::string_from_chars(names[i].as_slice());
        if fuzzy_matches(q, hay.as_str()) {
            r.push(i);
        }
        i = i + 1;
    }
    proof { assert(nv.take(i as int) =~= nv); }
    r
}

/// The elements of `v` at the increasing positions `idx`.
fn select<T>(v: Vec<T>, idx: &Vec<usize>) -> (r: Vec<T>)
    requires
        forall|k: int| 0 <= k < idx@.len() ==> idx@[k] < v@.len(),
        forall|a: int, b: int| 0 <= a < b < idx@.len() ==> idx@[a] < idx@[b],
    ensures
        r@.len() == idx@.len(),
        forall|k: int| 0 <= k < r@.len() ==> r@[k] == v@[idx@[k] as int],
{
    let ghost orig = v@;
    let n = v.len();
    let mut v = v;
    let mut slots: Vec<Option<T>> = Vec::new();
    while v.len() > 0
        invariant
            v@.len() + slots@.len() == n,
            n == orig.len(),
            v@ == orig.take(v@.len() as int),
            forall|k: int| 0 <= k < slots@.len() ==> #[trigger] slots@[k] == Some(orig[n - 1 - k]),
        decreases v@.len(),
    {
        let x = v.pop().unwrap();
        slots.push(Some(x));
        assert(v@ =~= orig.take(v@.len() as int));
    }
    let mut r: Vec<T> = Vec::new();
    let mut k: usize = 0;
    while k < idx.len()
        invariant
            n == orig.len(),
            slots@.len() == n,
            k <= idx@.len(),
            r@.len() == k,
            forall|q: int| 0 <= q < idx@.len() ==> idx@[q] < n,
            forall|a: int, b: int| 0 <= a < b < idx@.len() ==> idx@[a] < idx@[b],
            forall|q: int| 0 <= q < k ==> r@[q] == orig[idx@[q] as int],
            forall|j: int| 0 <= j < n && (k == 0 || j > idx@[k - 1]) ==> #[trigger] slots@[n - 1 - j] == Some(orig[j]),
        decreases idx@.len() - k,
    {
        let j = idx[k];
        proof {
            if k > 0 {
                assert(idx@[k - 1] < idx@[k as int]);
            }
            assert(slots@[n - 1 - j] == Some(orig[j as int]));
        }
        let mut tmp: Option<T> = None;
        let ghost before = slots@;
        std::mem::swap(&mut slots[n - 1 - j], &mut tmp);
        match tmp {
            Some(x) => {
                r.push(x);
            },
            None => {
                assert(false);
            },
        }
        proof {
            assert forall|jj: int| 0 <= jj < n && jj > idx@[k as int] implies #[trigger] slots@[n - 1 - jj] == Some(orig[jj]) by {
                assert(slots@[n - 1 - jj] == before[n - 1 - jj]);
                if k > 0 {
                    assert(idx@[k - 1] < idx@[k as int]);
                }
            }
        }
        k = k + 1;
    }
    r
}

proof fn lemma_track_index_at(ts: Seq<Track>, i: int)
    requires
        ids_distinct(ts),
        0 <= i < ts.len(),
    ensures
        track_index(ts, ts[i].id@) == Some(i),
{
    let k = ts[i].id@;
    assert(ts[i].id@ == k);
    let j = choose|j: int| 0 <= j < ts.len() && #[trigger] ts[j].id@ == k;
    if j != i {
        assert(ts[i].id@ != ts[j].id@);
    }
}

proof fn lemma_with_track_distinct(ts: Seq<Track>, t: Track)
    requires
        ids_distinct(ts),
    ensures
        ids_distinct(with_track(ts, t)),
{
    let r = with_track(ts, t);
    match track_index(ts, t.id@) {
        Some(i) => {
            assert forall|a: int, b: int| 0 <= a < r.len() && 0 <= b < r.len() && a != b
                implies #[trigger] r[a].id@ != #[trigger] r[b].id@ by {
                if a == i {
                    assert(ts[b].id@ != ts[i].id@);
                } else if b == i {
                    assert(ts[a].id@ != ts[i].id@);
                } else {
                    assert(ts[a].id@ != ts[b].id@);
                }
            }
        },
        None => {
            assert forall|a: int, b: int| 0 <= a < r.len() && 0 <= b < r.len() && a != b
                implies #[trigger] r[a].id@ != #[trigger] r[b].id@ by {
                if a == ts.len() {
                    assert(ts[b].id@ != t.id@);
                } else if b == ts.len() {
                    assert(ts[a].id@ != t.id@);
                } else {
                    assert(ts[a].id@ != ts[b].id@);
                }
            }
        },
    }
}

/// The tracks in the offline library.
pub struct OfflineIndex {
    tracks: Vec<Track>,
}

impl View for OfflineIndex {
    type V = Seq<Track>;

    closed spec fn view(&self) -> Seq<Track> {
        self.tracks@
    }
}

/// Whether `t` is on the album `al`.
fn on_album(t: &Track, al: &ItemId) -> (r: bool)
    ensures
        r == in_album(*t, al@),
{
    match &t.album_id {
        Some(a) => a.same(al),
        None => false,
    }
}

/// Whether `a` is among `t`'s contributors.
fn lists_artist(t: &Track, a: &ItemId) -> (r: bool)
    ensures
        r == has_artist(*t, a@),
{
    let mut i: usize = 0;
    while i < t.artist_ids.len()
        invariant
            i <= t.artist_ids@.len(),
            forall|j: int| 0 <= j < i ==> ids_view(t.artist_ids@)[j] != a@,
        decreases t.artist_ids@.len() - i,
    {
        if t.artist_ids[i].same(a) {
            assert(ids_view(t.artist_ids@)[i as int] == a@);
            return true;
        }
        i = i + 1;
    }
    false
}


proof fn lemma_artist_name_absent(ts: Seq<Track>, a: Seq<char>)
    requires
        forall|j: int| 0 <= j < ts.len() ==> !#[trigger] has_artist(ts[j], a),
    ensures
        artist_name(ts, a) == Seq::<char>::empty(),
    decreases ts.len(),
{
    if ts.len() > 0 {
        assert forall|j: int| 0 <= j < ts.drop_last().len() implies !#[trigger] has_artist(ts.drop_last()[j], a) by {
            assert(ts.drop_last()[j] == ts[j]);
        }
        lemma_artist_name_absent(ts.drop_last(), a);
        assert(!has_artist(ts.last(), a));
    }
}

/// Appends each id of `add` not yet in `seen`.
fn push_new_ids(seen: &mut Vec<ItemId>, add: &Vec<ItemId>)
    ensures
        ids_view(final(seen)@) == add_new(ids_view(old(seen)@), ids_view(add@)),
{
    let ghost start = ids_view(seen@);
    let mut i: usize = 0;
    while i < add.len()
        invariant
            i <= add@.len(),
            ids_view(seen@) == add_new(start, ids_view(add@).take(i as int)),
        decreases add@.len() - i,
    {
        proof {
            assert(ids_view(add@).take(i as int + 1).drop_last() =~= ids_view(add@).take(i as int));
        }
        let mut present = false;
        let mut j: usize = 0;
        while j < seen.len() && !present
            invariant
                j <= seen@.len(),
                i < add@.len(),
                !present ==> forall|q: int| 0 <= q < j ==> ids_view(seen@)[q] != add@[i as int]@,
                present ==> ids_view(seen@).contains(add@[i as int]@),
            decreases seen@.len() - j + (if present { 0int } else { 1int }),
        {
            if seen[j].same(&add[i]) {
                assert(ids_view(seen@)[j as int] == add@[i as int]@);
                present = true;
            } else {
                j = j + 1;
            }
        }
        if !present {
            let ghost before = seen@;
            seen.push(ItemId::from_str(add[i].as_str()));
            assert(ids_view(seen@) =~= ids_view(before).push(add@[i as int]@));
        }
        i = i + 1;
    }
    proof { assert(ids_view(add@).take(i as int) =~= ids_view(add@)); }
}

/// Appends each text of `add` not yet in `seen`.
fn push_new_strs(seen: &mut Vec<String>, add: &Vec<String>)
    ensures
        strs_view(final(seen)@) == add_new(strs_view(old(seen)@), strs_view(add@)),
{
    let ghost start = strs_view(seen@);
    let mut i: usize = 0;
    while i < add.len()
        invariant
            i <= add@.len(),
            strs_view(seen@) == add_new(start, strs_view(add@).take(i as int)),
        decreases add@.len() - i,
    {
        proof {
            assert(strs_view(add@).take(i as int + 1).drop_last() =~= strs_view(add@).take(i as int));
        }
        let mut present = false;
        let mut j: usize = 0;
        while j < seen.len() && !present
            invariant
                j <= seen@.len(),
                i < add@.len(),
                !present ==> forall|q: int| 0 <= q < j ==> strs_view(seen@)[q] != add@[i as int]@,
                present ==> strs_view(seen@).contains(add@[i as int]@),
            decreases seen@.len() - j + (if present { 0int } else { 1int }),
        {
            if crate::text::str_eq(seen[j].as_str(), add[i].as_str()) {
                assert(strs_view(seen@)[j as int] == add@[i as int]@);
                present = true;
            } else {
                j = j + 1;
            }
        }
        if !present {
            let ghost before = seen@;
            seen.push(add[i].clone());
            assert(strs_view(seen@) =~= strs_view(before).push(add@[i as int]@));
        }
        i = i + 1;
    }
    proof { assert(strs_view(add@).take(i as int) =~= strs_view(add@)); }
}

/// Whether `x` is among the ids.
fn holds_id(v: &Vec<ItemId>, x: &ItemId) -> (r: bool)
    ensures
        r == ids_view(v@).contains(x@),
{
    let mut j: usize = 0;
    while j < v.len()
        invariant
            j <= v@.len(),
            forall|q: int| 0 <= q < j ==> ids_view(v@)[q] != x@,
        decreases v@.len() - j,
    {
        if v[j].same(x) {
            assert(ids_view(v@)[j as int] == x@);
            return true;
        }
        j = j + 1;
    }
    false
}

/// The name `t` gives contributor `a`.
fn name_given(t: &Track, a: &ItemId) -> (r: String)
    ensures
        r@ == name_in(*t, a@),
{
    let ghost ids = ids_view(t.artist_ids@);
    let mut i: usize = 0;
    while i < t.artist_ids.len()
        invariant
            i <= t.artist_ids@.len(),
            ids == ids_view(t.artist_ids@),
            forall|j: int| 0 <= j < i ==> ids[j] != a@,
        decreases t.artist_ids@.len() - i,
    {
        if t.artist_ids[i].same(a) {
            proof {
                let p = choose|k: int| 0 <= k < ids.len() && ids[k] == a@ && forall|j: int| 0 <= j < k ==> ids[j] != a@;
                assert(ids[i as int] == a@);
                if p < i {
                    assert(ids[p] != a@);
                }
                if p > i {
                    assert(ids[i as int] != a@);
                }
            }
            if i < t.artist_names.len() {
                return t.artist_names[i].clone();
            }
            return String::new();
        }
        i = i + 1;
    }
    String::new()
}

/// The offline record of contributor `a` among `ts`.
fn artist_record(ts: &Vec<Track>, a: &ItemId) -> (r: Artist)
    ensures
        is_artist_record(r, ts@, a@),
{
    let mut found = false;
    let mut name = String::new();
    let mut count: usize = 0;
    let mut albums: Vec<ItemId> = Vec::new();
    let mut genres: Vec<String> = Vec::new();
    let mut i: usize = 0;
    while i < ts.len()
        invariant
            i <= ts@.len(),
            found == exists|j: int| 0 <= j < i && #[trigger] has_artist(ts@[j], a@),
            name@ == artist_name(ts@.take(i as int), a@),
            count == artist_track_count(ts@.take(i as int), a@),
            count <= i,
            ids_view(albums@) == primary_albums(ts@.take(i as int), a@),
            strs_view(genres@) == artist_genres(ts@.take(i as int), a@),
        decreases ts@.len() - i,
    {
        let t = &ts[i];
        let ghost pre = ts@.take(i as int);
        let ghost cur = ts@.take(i as int + 1);
        proof {
            assert(cur.drop_last() =~= pre);
            assert(cur.last() == ts@[i as int]);
            assert forall|j: int| 0 <= j < cur.len() - 1 implies (#[trigger] has_artist(cur[j], a@)) == has_artist(ts@[j], a@) by {
                assert(cur[j] == ts@[j]);
            }
        }
        let listed = lists_artist(t, a);
        if listed {
            if !found {
                name = name_given(t, a);
            }
            count = count + 1;
            push_new_strs(&mut genres, &t.genres);
            match &t.album_id {
                Some(al) => {
                    let rel = classify(t, a);
                    let primary = match rel {
                        Some(AlbumRelation::Primary) => true,
                        _ => false,
                    };
                    if primary && !holds_id(&albums, al) {
                        let ghost before = albums@;
                        albums.push(ItemId::from_str(al.as_str()));
                        assert(ids_view(albums@) =~= ids_view(before).push(al@));
                    }
                },
                None => {},
            }
            found = true;
        }
        proof {
            if listed {
                assert(has_artist(ts@[i as int], a@));
            }
            if exists|j: int| 0 <= j < i && #[trigger] has_artist(ts@[j], a@) {
                let j = choose|j: int| 0 <= j < i && #[trigger] has_artist(ts@[j], a@);
                assert(has_artist(cur[j], a@));
            } else {
                lemma_artist_name_absent(pre, a@);
            }
        }
        i = i + 1;
    }
    proof { assert(ts@.take(i as int) =~= ts@); }
    let name2 = name.clone();
    Artist {
        id: ItemId::from_str(a.as_str()),
        name,
        sort_name: name2,
        album_count: albums.len() as u32,
        track_count: count as u32,
        genres,
        is_favorite: false,
        image: None,
        overview: None,
    }
}

/// `at` maps each track's id to its position.
pub open spec fn indexes(at: Map<Seq<char>, usize>, ts: Seq<Track>) -> bool {
    &&& forall|k: Seq<char>| at.contains_key(k) <==> exists|i: int| 0 <= i < ts.len() && #[trigger] ts[i].id@ == k
    &&& forall|k: Seq<char>| #[trigger] at.contains_key(k) ==> at[k] < ts.len() && ts[at[k] as int].id@ == k
}

fn put_track_indexed(ts: &mut Vec<Track>, at: &mut StringHashMap<usize>, t: Track)
    requires
        ids_distinct(old(ts)@),
        indexes(old(at)@, old(ts)@),
    ensures
        final(ts)@ == with_track(old(ts)@, t),
        ids_distinct(final(ts)@),
        indexes(final(at)@, final(ts)@),
{
    let ghost before = ts@;
    proof { lemma_with_track_distinct(before, t); }
    let key = t.id.to_string();
    match at.get(key.as_str()) {
        Some(i) => {
            let i = *i;
            proof { lemma_track_index_at(before, i as int); }
            ts.set(i, t);
            assert(ts@ =~= before.update(i as int, t));
            assert forall|k: Seq<char>| at@.contains_key(k) <==> exists|j: int| 0 <= j < ts@.len() && #[trigger] ts@[j].id@ == k by {
                if at@.contains_key(k) {
                    let j = at@[k] as int;
                    assert(ts@[j].id@ == k);
                }
                if exists|j: int| 0 <= j < ts@.len() && #[trigger] ts@[j].id@ == k {
                    let j = choose|j: int| 0 <= j < ts@.len() && #[trigger] ts@[j].id@ == k;
                    if j != i as int {
                        assert(before[j].id@ == k);
                    }
                }
            }
        },
        None => {
            proof {
                assert forall|j: int| 0 <= j < before.len() implies #[trigger] before[j].id@ != t.id@ by {
                    if before[j].id@ == t.id@ {
                        assert(at@.contains_key(t.id@));
                    }
                }
                assert(track_index(before, t.id@) is None);
            }
            let pos = ts.len();
            ts.push(t);
            at.insert(key, pos);
            assert forall|k: Seq<char>| at@.contains_key(k) <==> exists|j: int| 0 <= j < ts@.len() && #[trigger] ts@[j].id@ == k by {
                if k != t.id@ && at@.contains_key(k) {
                    let j = at@[k] as int;
                    assert(ts@[j].id@ == k);
                }
                if k == t.id@ {
                    assert(ts@[pos as int].id@ == k);
                }
                if exists|j: int| 0 <= j < ts@.len() && #[trigger] ts@[j].id@ == k {
                    let j = choose|j: int| 0 <= j < ts@.len() && #[trigger] ts@[j].id@ == k;
                    if j < pos {
                        assert(before[j].id@ == k);
                    }
                }
            }
        },
    }
}


proof fn lemma_album_size_absent(ts: Seq<Track>, al: Seq<char>)
    requires
        forall|j: int| 0 <= j < ts.len() ==> !#[trigger] in_album(ts[j], al),
    ensures
        album_size(ts, al) == 0,
    decreases ts.len(),
{
    if ts.len() > 0 {
        assert forall|j: int| 0 <= j < ts.drop_last().len() implies !#[trigger] in_album(ts.drop_last()[j], al) by {
            assert(ts.drop_last()[j] == ts[j]);
        }
        lemma_album_size_absent(ts.drop_last(), al);
        assert(!in_album(ts.last(), al));
    }
}

/// A track with an album makes that album non-empty.
proof fn lemma_album_size_has(ts: Seq<Track>, i: int)
    requires
        0 <= i < ts.len(),
        ts[i].album_id is Some,
    ensures
        album_size(ts, ts[i].album_id->0@) > 0,
    decreases ts.len(),
{
    if i < ts.len() - 1 {
        lemma_album_size_has(ts.drop_last(), i);
    }
}

proof fn lemma_album_nanos_prefix(ts: Seq<Track>, al: Seq<char>, i: int)
    requires
        0 <= i <= ts.len(),
    ensures
        album_nanos(ts.take(i), al) <= album_nanos(ts, al),
    decreases ts.len(),
{
    if i < ts.len() {
        assert(ts.drop_last().take(i) =~= ts.take(i));
        lemma_album_nanos_prefix(ts.drop_last(), al, i);
    } else {
        assert(ts.take(i) =~= ts);
    }
}

/// Adds the ids of `t`'s contributors whose names are among `wanted`, each once.
fn resolve_into(ids: &mut Vec<ItemId>, t: &Track, wanted: &Vec<String>)
    ensures
        ids_view(final(ids)@) == resolve_in(ids_view(old(ids)@), strs_view(t.artist_names@), ids_view(t.artist_ids@), strs_view(wanted@)),
{
    let ghost start = ids_view(ids@);
    let ghost names = strs_view(t.artist_names@);
    let mut i: usize = 0;
    while i < t.artist_names.len()
        invariant
            i <= t.artist_names@.len(),
            names == strs_view(t.artist_names@),
            ids_view(ids@) == resolve_in(start, names.take(i as int), ids_view(t.artist_ids@), strs_view(wanted@)),
        decreases t.artist_names@.len() - i,
    {
        proof {
            assert(names.take(i as int + 1).drop_last() =~= names.take(i as int));
            assert(names.take(i as int + 1)[i as int] == t.artist_names@[i as int]@);
        }
        let mut wanted_name = false;
        let mut j: usize = 0;
        while j < wanted.len() && !wanted_name
            invariant
                j <= wanted@.len(),
                i < t.artist_names@.len(),
                !wanted_name ==> forall|q: int| 0 <= q < j ==> strs_view(wanted@)[q] != t.artist_names@[i as int]@,
                wanted_name ==> strs_view(wanted@).contains(t.artist_names@[i as int]@),
            decreases wanted@.len() - j + (if wanted_name { 0int } else { 1int }),
        {
            if crate::text::str_eq(wanted[j].as_str(), t.artist_names[i].as_str()) {
                assert(strs_view(wanted@)[j as int] == t.artist_names@[i as int]@);
                wanted_name = true;
            } else {
                j = j + 1;
            }
        }
        if wanted_name && i < t.artist_ids.len() {
            if !holds_id(ids, &t.artist_ids[i]) {
                let ghost before = ids@;
                ids.push(ItemId::from_str(t.artist_ids[i].as_str()));
                assert(ids_view(ids@) =~= ids_view(before).push(ids_view(t.artist_ids@)[i as int]));
            }
        }
        i = i + 1;
    }
    proof { assert(names.take(i as int) =~= names); }
}

/// Whether two albums are in sort order: year ascending, a missing year last, then name.
fn album_in_order(ya: Option<u16>, na: &[char], yb: Option<u16>, nb: &[char]) -> (r: bool)
    ensures
        r == match (ya, yb) {
            (Some(a), Some(b)) => a < b || (a == b && text_order(na@, nb@, 0) <= 0),
            (Some(_), None) => true,
            (None, Some(_)) => false,
            (None, None) => text_order(na@, nb@, 0) <= 0,
        },
{
    match (ya, yb) {
        (Some(a), Some(b)) => a < b || (a == b && crate::queue::natural::text_order_le(na, nb)),
        (Some(_), None) => true,
        (None, Some(_)) => false,
        (None, None) => crate::queue::natural::text_order_le(na, nb),
    }
}

impl OfflineIndex {
    #[verifier::type_invariant]
    spec fn wf(self) -> bool {
        ids_distinct(self.tracks@) && durations_fit(self.tracks@)
    }

    /// The library of the tracks read from the sidecars (a later sidecar for the same track
    /// replaces an earlier one). Every album's playing time must fit in a `Duration`: adding
    /// them up would overflow otherwise.
    pub fn build(sidecars: Vec<Track>) -> (ix: OfflineIndex)
        requires
            durations_fit(with_tracks(sidecars@)),
        ensures
            ix@ == with_tracks(sidecars@),
    {
        let ts = latest_by_id(sidecars);
        OfflineIndex { tracks: ts }
    }

    /// `build` when every album's playing time fits in a `Duration`; nothing otherwise.
    pub fn try_build(sidecars: Vec<Track>) -> (r: Option<OfflineIndex>)
        ensures
            durations_fit(with_tracks(sidecars@)) ==> (r matches Some(ix) && ix@ == with_tracks(sidecars@)),
            !durations_fit(with_tracks(sidecars@)) ==> r is None,
    {
        let ts = latest_by_id(sidecars);
        if album_times_fit(&ts) {
            Some(OfflineIndex { tracks: ts })
        } else {
            None
        }
    }
}

/// The tracks of the sidecars, one per id, a later sidecar replacing an earlier one.
fn latest_by_id(sidecars: Vec<Track>) -> (ts: Vec<Track>)
    ensures
        ts@ == with_tracks(sidecars@),
        ids_distinct(ts@),
{
    let mut ts: Vec<Track> = Vec::new();
    let mut rest = sidecars;
    let ghost input = rest@;
    let n = rest.len();
    let mut reversed: Vec<Track> = Vec::new();
    while rest.len() > 0
        invariant
            reversed@.len() + rest@.len() == input.len(),
            rest@ == input.take(rest@.len() as int),
            forall|k: int| 0 <= k < reversed@.len() ==> #[trigger] reversed@[k] == input[input.len() - 1 - k],
        decreases rest.len(),
    {
        let t = rest.pop().unwrap();
        reversed.push(t);
        assert(rest@ =~= input.take(rest@.len() as int));
    }
    let mut at: StringHashMap<usize> = StringHashMap::new();
    let mut i: usize = 0;
    while i < n
        invariant
            n == input.len(),
            i <= n,
            reversed@.len() + i == n,
            forall|k: int| 0 <= k < reversed@.len() ==> #[trigger] reversed@[k] == input[input.len() - 1 - k],
            ts@ == with_tracks(input.take(i as int)),
            ids_distinct(ts@),
            indexes(at@, ts@),
        decreases n - i,
    {
        let t = reversed.pop().unwrap();
        assert(t == input[i as int]);
        put_track_indexed(&mut ts, &mut at, t);
        proof {
            assert(input.take(i as int + 1).drop_last() =~= input.take(i as int));
        }
        i = i + 1;
    }
    proof { assert(input.take(n as int) =~= input); }
    ts
}

/// Whether the playing time of album `al` among `ts` fits in a `Duration`.
fn album_time_fits(ts: &Vec<Track>, al: &ItemId) -> (r: bool)
    ensures
        r == (album_nanos(ts@, al@) <= max_duration_nanos()),
{
    let mut sum: u128 = 0;
    let mut i: usize = 0;
    while i < ts.len()
        invariant
            i <= ts@.len(),
            sum as nat == album_nanos(ts@.take(i as int), al@),
            sum <= max_duration_nanos(),
        decreases ts@.len() - i,
    {
        proof {
            assert(ts@.take(i + 1).drop_last() =~= ts@.take(i as int));
        }
        let inside = match &ts[i].album_id {
            Some(a) => a.same(al),
            None => false,
        };
        if inside {
            let d = duration_as_nanos(&ts[i].duration);
            let next: u128 = sum + d;
            if next > 0xffff_ffff_ffff_ffff * 1_000_000_000 + 999_999_999 {
                proof {
                    lemma_album_nanos_prefix(ts@, al@, i + 1);
                }
                return false;
            }
            sum = next;
        }
        i = i + 1;
    }
    proof {
        assert(ts@.take(ts@.len() as int) =~= ts@);
    }
    true
}

proof fn lemma_album_nanos_absent(ts: Seq<Track>, al: Seq<char>)
    requires
        forall|k: int| 0 <= k < ts.len() ==> !in_album(#[trigger] ts[k], al),
    ensures
        album_nanos(ts, al) == 0,
    decreases ts.len(),
{
    if ts.len() > 0 {
        assert(!in_album(ts[ts.len() - 1], al));
        lemma_album_nanos_absent(ts.drop_last(), al);
    }
}

/// Whether every album's playing time among `ts` fits in a `Duration`.
fn album_times_fit(ts: &Vec<Track>) -> (r: bool)
    ensures
        r == durations_fit(ts@),
{
    let mut i: usize = 0;
    while i < ts.len()
        invariant
            i <= ts@.len(),
            forall|k: int| 0 <= k < i && (#[trigger] ts@[k]).album_id is Some
                ==> album_nanos(ts@, ts@[k].album_id->0@) <= max_duration_nanos(),
        decreases ts@.len() - i,
    {
        match &ts[i].album_id {
            Some(a) => {
                if !album_time_fits(ts, a) {
                    assert(!(album_nanos(ts@, a@) <= max_duration_nanos()));
                    return false;
                }
            },
            None => {},
        }
        i = i + 1;
    }
    proof {
        assert forall|al: Seq<char>| #[trigger] album_nanos(ts@, al) <= max_duration_nanos() by {
            if exists|k: int| 0 <= k < ts@.len() && in_album(#[trigger] ts@[k], al) {
                let k = choose|k: int| 0 <= k < ts@.len() && in_album(#[trigger] ts@[k], al);
                assert(ts@[k].album_id->0@ == al);
            } else {
                lemma_album_nanos_absent(ts@, al);
            }
        }
    }
    true
}

impl OfflineIndex {

    /// The tracks, one per id.
    pub fn tracks(&self) -> (r: &Vec<Track>)
        ensures
            r@ == self@,
            ids_distinct(self@),
            durations_fit(self@),
    {
        proof { use_type_invariant(self); }
        &self.tracks
    }

    /// Whether `id` is a track, an album or an artist of the offline library.
    pub fn contains(&self, id: &ItemId) -> (r: bool)
        ensures
            r == known_id(self@, id@),
    {
        let mut i: usize = 0;
        while i < self.tracks.len()
            invariant
                i <= self.tracks@.len(),
                forall|j: int| 0 <= j < i ==> !#[trigger] names_id(self.tracks@[j], id@),
            decreases self.tracks@.len() - i,
        {
            let t = &self.tracks[i];
            if t.id.same(id) || on_album(t, id) || lists_artist(t, id) {
                assert(names_id(self.tracks@[i as int], id@));
                return true;
            }
            i = i + 1;
        }
        false
    }

    /// Every contributor of the downloaded tracks, by name, each with what is downloaded of
    /// them.
    pub fn artists(&self) -> (r: Vec<Artist>)
        ensures
            r@.len() == seen_artists(self@).len(),
            forall|k: int| 0 <= k < r@.len() ==>
                #[trigger] is_artist_record(r@[k], self@, seen_artists(self@)[artist_order(self@)[k] as int]),
    {
        let ts = &self.tracks;
        let mut seen: Vec<ItemId> = Vec::new();
        let mut i: usize = 0;
        while i < ts.len()
            invariant
                i <= ts@.len(),
                ts@ == self@,
                ids_view(seen@) == seen_artists(ts@.take(i as int)),
            decreases ts@.len() - i,
        {
            proof { assert(ts@.take(i as int + 1).drop_last() =~= ts@.take(i as int)); }
            push_new_ids(&mut seen, &ts[i].artist_ids);
            i = i + 1;
        }
        proof { assert(ts@.take(i as int) =~= ts@); }
        let ghost sv = seen_artists(self@);
        let m = seen.len();
        let mut records: Vec<Artist> = Vec::new();
        let mut names: Vec<Vec<char>> = Vec::new();
        let mut k: usize = 0;
        while k < m
            invariant
                m == seen@.len(),
                ts@ == self@,
                ids_view(seen@) == sv,
                sv == seen_artists(self@),
                k <= m,
                records@.len() == k,
                names@.len() == k,
                forall|q: int| 0 <= q < k ==> #[trigger] is_artist_record(records@[q], self@, sv[q]),
                forall|q: int| 0 <= q < k ==> (#[trigger] names@[q])@ == seen_names(self@)[q],
            decreases m - k,
        {
            let rec = artist_record(ts, &seen[k]);
            assert(sv[k as int] == seen@[k as int]@);
            names.push(chars_of(rec.name.as_str()));
            records.push(rec);
            k = k + 1;
        }
        let ghost le = text_le(seen_names(self@));
        let view = &names;
        let before_sort = |x: usize, y: usize| -> (b: bool)
            ensures
                b == text_le(seen_names(self@))(x, y),
        {
            if x < view.len() && y < view.len() {
                crate::queue::natural::text_order_le(view[x].as_slice(), view[y].as_slice())
            } else {
                y >= view.len()
            }
        };
        let ord = crate::msort::merge_sort_indices(m, &before_sort, Ghost(le));
        proof {
            lemma_msort_permutation(m as nat, le);
            assert(seen_names(self@).len() == m);
        }
        let sorted = permute(records, &ord);
        sorted
    }

    /// The offline record of album `al`, which must have a downloaded track.
    fn build_album(&self, al: &ItemId, relation: AlbumRelation) -> (r: Album)
        requires
            album_size(self@, al@) > 0,
        ensures
            is_album_record(r, self@, al@, relation_view(relation)),
    {
        proof { use_type_invariant(self); }
        let ts = &self.tracks;
        let n = ts.len();
        let mut h: usize = 0;
        while h < n && !on_album(&ts[h], al)
            invariant
                h <= n,
                n == ts@.len(),
                forall|j: int| 0 <= j < h ==> !#[trigger] in_album(ts@[j], al@),
            decreases n - h,
        {
            h = h + 1;
        }
        proof {
            if h == n {
                lemma_album_size_absent(ts@, al@);
            }
            let k = choose|k: int| 0 <= k < ts@.len() && #[trigger] in_album(ts@[k], al@)
                && forall|j: int| 0 <= j < k ==> !#[trigger] in_album(ts@[j], al@);
            assert(in_album(ts@[h as int], al@));
            if k < h { assert(!in_album(ts@[k], al@)); }
            if k > h { assert(!in_album(ts@[h as int], al@)); }
            assert(album_head(ts@, al@) == Some(h as int));
        }
        let head = &ts[h];
        let mut count: usize = 0;
        let mut total = duration_new(0, 0);
        let mut genres: Vec<String> = Vec::new();
        let mut ids: Vec<ItemId> = Vec::new();
        let mut i: usize = 0;
        while i < n
            invariant
                n == ts@.len(),
                i <= n,
                *head == ts@[h as int],
                durations_fit(ts@),
                count == album_size(ts@.take(i as int), al@),
                count <= i,
                duration_nanos(total) == album_nanos(ts@.take(i as int), al@),
                strs_view(genres@) == album_genres(ts@.take(i as int), al@),
                ids_view(ids@) == album_artist_ids(ts@.take(i as int), al@, strs_view(head.album_artist_names@)),
            decreases n - i,
        {
            let t = &ts[i];
            proof {
                assert(ts@.take(i as int + 1).drop_last() =~= ts@.take(i as int));
                lemma_album_nanos_prefix(ts@, al@, i as int + 1);
                assert(album_nanos(ts@, al@) <= max_duration_nanos());
            }
            if on_album(t, al) {
                count = count + 1;
                total = duration_sum(total, t.duration);
                push_new_strs(&mut genres, &t.genres);
                resolve_into(&mut ids, t, &head.album_artist_names);
            }
            i = i + 1;
        }
        proof { assert(ts@.take(n as int) =~= ts@); }
        let image = match &head.image {
            Some(im) => Some(ImageRef { item: ItemId::from_str(im.item.as_str()), tag: im.tag.clone() }),
            None => None,
        };
        let names = crate::model::item::copy_texts(&head.album_artist_names);
        proof {
            assert(texts(names@) =~= strs_view(names@));
            assert(texts(head.album_artist_names@) =~= strs_view(head.album_artist_names@));
        }
        Album {
            id: ItemId::from_str(al.as_str()),
            name: head.album_name.clone(),
            sort_name: head.album_name.clone(),
            album_artist_names: names,
            album_artist_ids: ids,
            year: head.year,
            track_count: count as u32,
            total_duration: total,
            genres,
            is_favorite: false,
            image,
            relation,
        }
    }

    /// The records of the albums `als` (each with a downloaded track), sorted by year then
    /// name.
    fn sorted_albums(&self, als: &Vec<ItemId>, context: Option<&ItemId>) -> (r: Vec<Album>)
        requires
            forall|k: int| 0 <= k < als@.len() ==> album_size(self@, #[trigger] als@[k]@) > 0,
        ensures
            sorted_album_records(r@, self@, ids_view(als@), match context { Some(c) => Some(c@), None => None }),
    {
        let ghost ctx: Option<Seq<char>> = match context { Some(c) => Some(c@), None => None };
        let ghost av = ids_view(als@);
        let m = als.len();
        let mut records: Vec<Album> = Vec::new();
        let mut names: Vec<Vec<char>> = Vec::new();
        let mut years: Vec<Option<u16>> = Vec::new();
        let mut k: usize = 0;
        while k < m
            invariant
                m == als@.len(),
                av == ids_view(als@),
                k <= m,
                records@.len() == k,
                names@.len() == k,
                years@.len() == k,
                forall|q: int| 0 <= q < als@.len() ==> album_size(self@, #[trigger] als@[q]@) > 0,
                ctx == match context { Some(c) => Some(c@), None => None::<Seq<char>> },
                forall|q: int| 0 <= q < k ==> #[trigger] is_album_record(records@[q], self@, av[q], ctx),
                forall|q: int| 0 <= q < k ==> (#[trigger] names@[q])@ == album_name_of(self@, av[q]),
                forall|q: int| 0 <= q < k ==> #[trigger] years@[q] == album_year(self@, av[q]),
            decreases m - k,
        {
            let relation = match context {
                Some(c) => AlbumRelation::AppearsOn { context_artist: ItemId::from_str(c.as_str()) },
                None => AlbumRelation::Primary,
            };
            assert(av[k as int] == als@[k as int]@);
            let rec = self.build_album(&als[k], relation);
            names.push(chars_of(rec.name.as_str()));
            years.push(rec.year);
            records.push(rec);
            k = k + 1;
        }
        let ghost le = album_le(self@, av);
        let nv = &names;
        let yv = &years;
        let in_order = |x: usize, y: usize| -> (b: bool)
            ensures
                b == album_le(self@, ids_view(als@))(x, y),
        {
            if x < nv.len() && y < nv.len() {
                album_in_order(yv[x], nv[x].as_slice(), yv[y], nv[y].as_slice())
            } else {
                y >= nv.len()
            }
        };
        let ord = crate::msort::merge_sort_indices(m, &in_order, Ghost(le));
        proof { lemma_msort_permutation(m as nat, le); }
        permute(records, &ord)
    }

    /// `artist`'s albums among the downloads: their own releases and those they only appear
    /// on (an album that is both counts as their own), each sorted by year then name.
    pub fn discography(&self, artist: &ItemId) -> (d: Discography)
        ensures
            sorted_album_records(d.primary@, self@, related_albums(self@, artist@, true), None),
            sorted_album_records(d.appears_on@, self@, appears_on_albums(self@, artist@), Some(artist@)),
    {
        let ts = &self.tracks;
        let mut primary: Vec<ItemId> = Vec::new();
        let mut guest: Vec<ItemId> = Vec::new();
        let mut i: usize = 0;
        while i < ts.len()
            invariant
                i <= ts@.len(),
                ts@ == self@,
                ids_view(primary@) == related_albums(ts@.take(i as int), artist@, true),
                ids_view(guest@) == related_albums(ts@.take(i as int), artist@, false),
                forall|k: int| 0 <= k < primary@.len() ==> album_size(self@, #[trigger] primary@[k]@) > 0,
                forall|k: int| 0 <= k < guest@.len() ==> album_size(self@, #[trigger] guest@[k]@) > 0,
            decreases ts@.len() - i,
        {
            let t = &ts[i];
            proof { assert(ts@.take(i as int + 1).drop_last() =~= ts@.take(i as int)); }
            match &t.album_id {
                Some(al) => {
                    proof { lemma_album_size_has(self@, i as int); }
                    match classify(t, artist) {
                        Some(AlbumRelation::Primary) => {
                            if !holds_id(&primary, al) {
                                let ghost before = primary@;
                                primary.push(ItemId::from_str(al.as_str()));
                                assert(ids_view(primary@) =~= ids_view(before).push(al@));
                            }
                        },
                        Some(AlbumRelation::AppearsOn { .. }) => {
                            if !holds_id(&guest, al) {
                                let ghost before = guest@;
                                guest.push(ItemId::from_str(al.as_str()));
                                assert(ids_view(guest@) =~= ids_view(before).push(al@));
                            }
                        },
                        None => {},
                    }
                },
                None => {},
            }
            i = i + 1;
        }
        proof { assert(ts@.take(i as int) =~= ts@); }
        let mut only_guest: Vec<ItemId> = Vec::new();
        let mut k: usize = 0;
        while k < guest.len()
            invariant
                k <= guest@.len(),
                ids_view(only_guest@) == ids_not_in(ids_view(guest@).take(k as int), ids_view(primary@)),
                forall|q: int| 0 <= q < guest@.len() ==> album_size(self@, #[trigger] guest@[q]@) > 0,
                forall|q: int| 0 <= q < only_guest@.len() ==> album_size(self@, #[trigger] only_guest@[q]@) > 0,
            decreases guest@.len() - k,
        {
            proof {
                assert(ids_view(guest@).take(k as int + 1).drop_last() =~= ids_view(guest@).take(k as int));
            }
            if !holds_id(&primary, &guest[k]) {
                let ghost before = only_guest@;
                only_guest.push(ItemId::from_str(guest[k].as_str()));
                assert(ids_view(only_guest@) =~= ids_view(before).push(guest@[k as int]@));
            }
            k = k + 1;
        }
        proof { assert(ids_view(guest@).take(k as int) =~= ids_view(guest@)); }
        let primary_albums = self.sorted_albums(&primary, None);
        let appears_on = self.sorted_albums(&only_guest, Some(artist));
        Discography { primary: primary_albums, appears_on }
    }

    /// Fuzzy, case-insensitive search of the library's artist, album and track names: the
    /// artists by name, the albums and the tracks by id, each narrowed to what `q` finds.
    /// A blank query finds nothing.
    #[verifier::spinoff_prover]
    #[verifier::rlimit(80)]
    pub fn search(&self, q: &str) -> (r: SearchResults)
        ensures
            r.playlists@.len() == 0,
            r.artists_error is None && r.albums_error is None && r.tracks_error is None && r.playlists_error is None,
            is_blank(q@) ==> r.artists@.len() == 0 && r.albums@.len() == 0 && r.tracks@.len() == 0,
            !is_blank(q@) ==> {
                let ha = hits(q@, ordered_artist_names(self@));
                let hb = hits(q@, ordered_album_names(self@));
                let ht = hits(q@, ordered_track_names(self@));
                &&& r.artists@.len() == ha.len()
                &&& forall|k: int| 0 <= k < ha.len() ==> #[trigger] is_artist_record(r.artists@[k], self@,
                    seen_artists(self@)[artist_order(self@)[ha[k] as int] as int])
                &&& r.albums@.len() == hb.len()
                &&& forall|k: int| 0 <= k < hb.len() ==> #[trigger] is_album_record(r.albums@[k], self@,
                    seen_albums(self@)[album_id_order(self@)[hb[k] as int] as int], None)
                &&& r.tracks@.len() == ht.len()
                &&& forall|k: int| 0 <= k < ht.len() ==> #[trigger] same_track(r.tracks@[k],
                    self@[track_id_order(self@)[ht[k] as int] as int])
            },
    {
        let qc = chars_of(q);
        if is_blank_chars(qc.as_slice()) {
            return SearchResults {
                artists: Vec::new(),
                albums: Vec::new(),
                tracks: Vec::new(),
                artists_error: None,
                albums_error: None,
                tracks_error: None,
                playlists: Vec::new(),
                playlists_error: None,
            };
        }
        // Artists, by name.
        let arts = self.artists();
        let mut names_a: Vec<Vec<char>> = Vec::new();
        let mut k: usize = 0;
        while k < arts.len()
            invariant
                k <= arts@.len(),
                arts@.len() == seen_artists(self@).len(),
                forall|x: int| 0 <= x < arts@.len() ==>
                    #[trigger] is_artist_record(arts@[x], self@, seen_artists(self@)[artist_order(self@)[x] as int]),
                names_a@.len() == k,
                forall|x: int| 0 <= x < k ==> (#[trigger] names_a@[x])@ == ordered_artist_names(self@)[x],
            decreases arts@.len() - k,
        {
            assert(is_artist_record(arts@[k as int], self@, seen_artists(self@)[artist_order(self@)[k as int] as int]));
            names_a.push(chars_of(arts[k].name.as_str()));
            k = k + 1;
        }
        proof { assert(names_a@.map_values(|n: Vec<char>| n@) =~= ordered_artist_names(self@)); }
        let ha = hit_indices(q, &names_a);
        let artists = select(arts, &ha);
        // Albums, by id.
        let ts = &self.tracks;
        let mut albums_seen: Vec<ItemId> = Vec::new();
        let mut i: usize = 0;
        while i < ts.len()
            invariant
                i <= ts@.len(),
                ts@ == self@,
                ids_view(albums_seen@) == seen_albums(ts@.take(i as int)),
                forall|x: int| 0 <= x < albums_seen@.len() ==> album_size(self@, #[trigger] albums_seen@[x]@) > 0,
            decreases ts@.len() - i,
        {
            proof { assert(ts@.take(i as int + 1).drop_last() =~= ts@.take(i as int)); }
            match &ts[i].album_id {
                Some(al) => {
                    proof { lemma_album_size_has(self@, i as int); }
                    if !holds_id(&albums_seen, al) {
                        let ghost before = albums_seen@;
                        albums_seen.push(ItemId::from_str(al.as_str()));
                        assert(ids_view(albums_seen@) =~= ids_view(before).push(al@));
                    }
                },
                None => {},
            }
            i = i + 1;
        }
        proof { assert(ts@.take(i as int) =~= ts@); }
        let ghost sa = seen_albums(self@);
        let m = albums_seen.len();
        let mut id_chars: Vec<Vec<char>> = Vec::new();
        let mut x: usize = 0;
        while x < m
            invariant
                m == albums_seen@.len(),
                x <= m,
                id_chars@.len() == x,
                forall|y: int| 0 <= y < x ==> (#[trigger] id_chars@[y])@ == albums_seen@[y]@,
            decreases m - x,
        {
            id_chars.push(chars_of(albums_seen[x].as_str()));
            x = x + 1;
        }
        let ghost le_a = text_le(seen_albums(self@));
        let ic = &id_chars;
        let by_id = |a: usize, b: usize| -> (res: bool)
            ensures
                res == text_le(seen_albums(self@))(a, b),
        {
            if a < ic.len() && b < ic.len() {
                crate::queue::natural::text_order_le(ic[a].as_slice(), ic[b].as_slice())
            } else {
                b >= ic.len()
            }
        };
        proof {
            assert forall|y: int| 0 <= y < m implies (#[trigger] id_chars@[y])@ == seen_albums(self@)[y] by {
                assert(ids_view(albums_seen@)[y] == albums_seen@[y]@);
            }
        }
        let so = crate::msort::merge_sort_indices(m, &by_id, Ghost(le_a));
        proof { lemma_msort_permutation(m as nat, le_a); }
        let mut records: Vec<Album> = Vec::new();
        let mut names_b: Vec<Vec<char>> = Vec::new();
        let mut y: usize = 0;
        while y < m
            invariant
                m == albums_seen@.len(),
                ids_view(albums_seen@) == seen_albums(self@),
                so@ == album_id_order(self@),
                crate::msort::is_permutation(so@, m as nat),
                forall|z: int| 0 <= z < albums_seen@.len() ==> album_size(self@, #[trigger] albums_seen@[z]@) > 0,
                y <= m,
                records@.len() == y,
                names_b@.len() == y,
                forall|z: int| 0 <= z < y ==> #[trigger] is_album_record(records@[z], self@, seen_albums(self@)[so@[z] as int], None),
                forall|z: int| 0 <= z < y ==> (#[trigger] names_b@[z])@ == ordered_album_names(self@)[z],
            decreases m - y,
        {
            let at = so[y];
            assert(seen_albums(self@)[at as int] == albums_seen@[at as int]@);
            let rec = self.build_album(&albums_seen[at], AlbumRelation::Primary);
            names_b.push(chars_of(rec.name.as_str()));
            records.push(rec);
            y = y + 1;
        }
        proof { assert(names_b@.map_values(|n: Vec<char>| n@) =~= ordered_album_names(self@)); }
        let hb = hit_indices(q, &names_b);
        let albums = select(records, &hb);
        // Tracks, by id.
        let n = ts.len();
        let mut tid: Vec<Vec<char>> = Vec::new();
        let mut z: usize = 0;
        while z < n
            invariant
                n == ts@.len(),
                ts@ == self@,
                z <= n,
                tid@.len() == z,
                forall|w: int| 0 <= w < z ==> (#[trigger] tid@[w])@ == track_ids(self@)[w],
            decreases n - z,
        {
            tid.push(chars_of(ts[z].id.as_str()));
            z = z + 1;
        }
        let ghost le_t = text_le(track_ids(self@));
        let tv = &tid;
        let by_track_id = |a: usize, b: usize| -> (res: bool)
            ensures
                res == text_le(track_ids(self@))(a, b),
        {
            if a < tv.len() && b < tv.len() {
                crate::queue::natural::text_order_le(tv[a].as_slice(), tv[b].as_slice())
            } else {
                b >= tv.len()
            }
        };
        let to = crate::msort::merge_sort_indices(n, &by_track_id, Ghost(le_t));
        proof { lemma_msort_permutation(n as nat, le_t); }
        let mut names_t: Vec<Vec<char>> = Vec::new();
        let mut w: usize = 0;
        while w < n
            invariant
                n == ts@.len(),
                ts@ == self@,
                to@ == track_id_order(self@),
                crate::msort::is_permutation(to@, n as nat),
                w <= n,
                names_t@.len() == w,
                forall|v: int| 0 <= v < w ==> (#[trigger] names_t@[v])@ == ordered_track_names(self@)[v],
            decreases n - w,
        {
            names_t.push(chars_of(ts[to[w]].name.as_str()));
            w = w + 1;
        }
        proof { assert(names_t@.map_values(|n: Vec<char>| n@) =~= ordered_track_names(self@)); }
        let ht = hit_indices(q, &names_t);
        let mut tracks: Vec<Track> = Vec::new();
        let mut v: usize = 0;
        while v < ht.len()
            invariant
                n == ts@.len(),
                ts@ == self@,
                to@ == track_id_order(self@),
                crate::msort::is_permutation(to@, n as nat),
                forall|u: int| 0 <= u < ht@.len() ==> ht@[u] < n,
                v <= ht@.len(),
                tracks@.len() == v,
                forall|u: int| 0 <= u < v ==> #[trigger] same_track(tracks@[u], self@[track_id_order(self@)[ht@[u] as int] as int]),
            decreases ht@.len() - v,
        {
            tracks.push(ts[to[ht[v]]].duplicate());
            v = v + 1;
        }
        SearchResults {
            artists,
            albums,
            tracks,
            artists_error: None,
            albums_error: None,
            tracks_error: None,
            playlists: Vec::new(),
            playlists_error: None,
        }
    }

    /// The downloaded tracks of `album`, by disc then track number.
    pub fn album_tracks(&self, album: &ItemId) -> (r: Vec<Track>)
        ensures
            r@.len() == album_size(self@, album@),
            forall|k: int| 0 <= k < r@.len() ==> #[trigger] same_track(r@[k], self@[album_track_order(self@, album@)[k] as int]),
    {
        let n = self.tracks.len();
        let mut keys: Vec<i128> = Vec::new();
        let mut count: usize = 0;
        let mut i: usize = 0;
        while i < n
            invariant
                n == self@.len(),
                i <= n,
                keys@ =~= album_track_keys(self@, album@).take(i as int),
                count == album_size(self@.take(i as int), album@),
                count <= i,
            decreases n - i,
        {
            let t = &self.tracks[i];
            let inside = on_album(t, album);
            let disc: i128 = match t.disc_number { Some(d) => d as i128, None => 0 };
            let num: i128 = match t.track_number { Some(x) => x as i128, None => 0 };
            let outside: i128 = if inside { 0 } else { 0x1_0000_0000_0000_0000 };
            keys.push(outside + disc * 0x1_0000_0000 + num);
            proof {
                assert(self@.take(i as int + 1).drop_last() =~= self@.take(i as int));
            }
            if inside {
                count = count + 1;
            }
            i = i + 1;
        }
        proof { assert(self@.take(n as int) =~= self@); }
        let order = sort_indices_by_signed_keys(&keys);
        proof {
            lemma_msort_permutation(n as nat, skey_le(album_track_keys(self@, album@)));
            assert(keys@ =~= album_track_keys(self@, album@));
        }
        let mut out: Vec<Track> = Vec::new();
        let mut k: usize = 0;
        while k < count
            invariant
                count == album_size(self@, album@),
                count <= n,
                n == self@.len(),
                is_permutation(order@, n as nat),
                order@ == msort_by(iota(n as nat), skey_le(album_track_keys(self@, album@))),
                k <= count,
                out@.len() == k,
                forall|q: int| 0 <= q < k ==> #[trigger] same_track(out@[q], self@[album_track_order(self@, album@)[q] as int]),
            decreases count - k,
        {
            let t = self.tracks[order[k]].duplicate();
            out.push(t);
            k = k + 1;
        }
        out
    }
}

} // verus!
