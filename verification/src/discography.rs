//! An artist's discography split into their own releases and those they appear on.
use crate::model::ids::ItemId;
use crate::model::item::{Album, AlbumRelation, Track};
use crate::text::str_eq;
use vstd::prelude::*;

verus! {

/// An artist's discography: their own primary releases, and everything they merely appear on.
#[derive(Debug, Clone)]
pub struct Discography {
    pub primary: Vec<Album>,
    pub appears_on: Vec<Album>,
}

/// The first position of `x` in `s`, if any.
pub open spec fn first_pos<T>(s: Seq<T>, x: T) -> Option<int> {
    if exists|i: int| 0 <= i < s.len() && s[i] == x {
        Some(choose|i: int| 0 <= i < s.len() && s[i] == x && forall|j: int| 0 <= j < i ==> s[j] != x)
    } else {
        None
    }
}

/// How `artist` relates to `track`'s album, from the track's own fields: find the artist among
/// the track's contributors by id, read that contributor's name from the parallel name list, and
/// call the album primary when that name is one of the album artists. `None` when the artist is
/// not a contributor (or has no name in the list).
pub open spec fn spec_classify(ids: Seq<Seq<char>>, names: Seq<Seq<char>>, album_artists: Seq<Seq<char>>, artist: Seq<char>) -> Option<bool> {
    match first_pos(ids, artist) {
        None => None,
        Some(i) => if i < names.len() {
            Some(album_artists.contains(names[i]))
        } else {
            None
        },
    }
}

/// The ids of a list as plain text values.
pub open spec fn ids_view(v: Seq<ItemId>) -> Seq<Seq<char>> {
    v.map_values(|x: ItemId| x@)
}

/// The strings of a list as plain text values.
pub open spec fn strs_view(v: Seq<String>) -> Seq<Seq<char>> {
    v.map_values(|x: String| x@)
}

proof fn lemma_first_pos<T>(s: Seq<T>, x: T, i: int)
    requires
        0 <= i < s.len(),
        s[i] == x,
        forall|j: int| 0 <= j < i ==> s[j] != x,
    ensures
        first_pos(s, x) == Some(i),
{
    let k = choose|k: int| 0 <= k < s.len() && s[k] == x && forall|j: int| 0 <= j < k ==> s[j] != x;
    assert(k == i);
}

/// Whether `track` is `artist`'s own release or one they appear on; `None` if `artist` is not
/// a contributor to `track` at all.
pub fn classify(track: &Track, artist: &ItemId) -> (r: Option<AlbumRelation>)
    ensures
        match spec_classify(ids_view(track.artist_ids@), strs_view(track.artist_names@), strs_view(track.album_artist_names@), artist@) {
            None => r is None,
            Some(true) => r == Some(AlbumRelation::Primary),
            Some(false) => r matches Some(AlbumRelation::AppearsOn { context_artist }) && context_artist@ == artist@,
        },
{
    let ghost ids = ids_view(track.artist_ids@);
    let mut i: usize = 0;
    let mut found = false;
    while i < track.artist_ids.len() && !found
        invariant
            i <= track.artist_ids@.len(),
            ids == ids_view(track.artist_ids@),
            forall|j: int| 0 <= j < i ==> ids[j] != artist@,
            found ==> i < ids.len() && ids[i as int] == artist@,
        decreases track.artist_ids@.len() - i + (if found { 0int } else { 1 }),
    {
        if track.artist_ids[i].same(artist) {
            found = true;
        } else {
            i = i + 1;
        }
    }
    if !found {
        return None;
    }
    proof {
        lemma_first_pos(ids, artist@, i as int);
    }
    if i >= track.artist_names.len() {
        return None;
    }
    let name = &track.artist_names[i];
    let ghost aa = strs_view(track.album_artist_names@);
    let mut k: usize = 0;
    while k < track.album_artist_names.len()
        invariant
            k <= track.album_artist_names@.len(),
            aa == strs_view(track.album_artist_names@),
            forall|j: int| 0 <= j < k ==> aa[j] != name@,
            i < track.artist_names@.len(),
            *name == track.artist_names@[i as int],
            first_pos(ids, artist@) == Some(i as int),
            ids == ids_view(track.artist_ids@),
        decreases track.album_artist_names@.len() - k,
    {
        if str_eq(track.album_artist_names[k].as_str(), name.as_str()) {
            assert(aa[k as int] == name@);
            assert(strs_view(track.artist_names@)[i as int] == name@);
            assert(aa.contains(name@));
            return Some(AlbumRelation::Primary);
        }
        k = k + 1;
    }
    assert(strs_view(track.artist_names@)[i as int] == name@);
    Some(AlbumRelation::AppearsOn { context_artist: ItemId::from_str(artist.as_str()) })
}

} // verus!
