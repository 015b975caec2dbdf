//! Appears-on filtering for the "queue this artist" rules: by artist id, never by name.
use crate::discography::ids_view;
use crate::model::ids::ItemId;
use crate::model::item::{same_track, Track};
use vstd::prelude::*;

verus! {

/// Which tracks to queue: all of them, or only those the artist contributes to (by id: name
/// matching breaks on "The Beatles" versus "Beatles, The", and on substrings).
#[derive(Debug, Clone)]
pub enum TrackFilter {
    All,
    ArtistOnly(ItemId),
}

/// Whether `t` is kept by `filter`.
pub open spec fn keeps(filter: TrackFilter, t: Track) -> bool {
    match filter {
        TrackFilter::All => true,
        TrackFilter::ArtistOnly(id) => ids_view(t.artist_ids@).contains(id@),
    }
}

/// The ids of the tracks of `ts` that `filter` keeps, in order.
pub open spec fn kept_ids(ts: Seq<Track>, filter: TrackFilter) -> Seq<Seq<char>>
    decreases ts.len(),
{
    if ts.len() == 0 {
        Seq::empty()
    } else {
        let r = kept_ids(ts.drop_last(), filter);
        if keeps(filter, ts.last()) {
            r.push(ts.last().id@)
        } else {
            r
        }
    }
}

fn contributes(t: &Track, id: &ItemId) -> (r: bool)
    ensures
        r == ids_view(t.artist_ids@).contains(id@),
{
    let mut i: usize = 0;
    while i < t.artist_ids.len()
        invariant
            i <= t.artist_ids@.len(),
            forall|j: int| 0 <= j < i ==> t.artist_ids@[j]@ != id@,
        decreases t.artist_ids@.len() - i,
    {
        if t.artist_ids[i].same(id) {
            assert(ids_view(t.artist_ids@)[i as int] == id@);
            return true;
        }
        i = i + 1;
    }
    proof {
        if ids_view(t.artist_ids@).contains(id@) {
            let j = choose|j: int| 0 <= j < ids_view(t.artist_ids@).len() && ids_view(t.artist_ids@)[j] == id@;
            assert(t.artist_ids@[j]@ == id@);
        }
    }
    false
}

/// The tracks `filter` keeps, in their original order.
pub fn filter_tracks(tracks: &[Track], filter: &TrackFilter) -> (r: Vec<Track>)
    ensures
        r@.map_values(|t: Track| t.id@) == kept_ids(tracks@, *filter),
        forall|i: int| 0 <= i < r@.len() ==> keeps(*filter, #[trigger] r@[i]),
        forall|i: int| 0 <= i < r@.len() ==> exists|j: int| 0 <= j < tracks@.len() && same_track(#[trigger] r@[i], tracks@[j]),
{
    let mut out: Vec<Track> = Vec::new();
    let mut i: usize = 0;
    while i < tracks.len()
        invariant
            i <= tracks@.len(),
            out@.map_values(|t: Track| t.id@) == kept_ids(tracks@.take(i as int), *filter),
            forall|k: int| 0 <= k < out@.len() ==> keeps(*filter, #[trigger] out@[k]),
            forall|k: int| 0 <= k < out@.len() ==> exists|j: int| 0 <= j < i && same_track(#[trigger] out@[k], tracks@[j]),
        decreases tracks@.len() - i,
    {
        let ghost t = tracks@.take(i + 1);
        assert(t.drop_last() =~= tracks@.take(i as int));
        assert(t.last() == tracks@[i as int]);
        let keep = match filter {
            TrackFilter::All => true,
            TrackFilter::ArtistOnly(id) => contributes(&tracks[i], id),
        };
        if keep {
            let ghost before = out@;
            out.push(tracks[i].duplicate());
            assert(out@.map_values(|t: Track| t.id@) =~= before.map_values(|t: Track| t.id@).push(tracks@[i as int].id@));
        }
        i = i + 1;
    }
    assert(tracks@.take(tracks@.len() as int) =~= tracks@);
    out
}

} // verus!
