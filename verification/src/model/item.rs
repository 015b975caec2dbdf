//! Artists, albums, tracks, genres, folders, playlists, and the rows a navigation column holds.
use crate::model::audio_meta::{AudioFormat, Codec};
use crate::model::ids::{ItemId, MediaSourceId, PlaylistEntryId};
use crate::text::{append_chars, chars_of, decimal_string, string_from_chars, u64_to_chars};
use std::time::Duration;
use vstd::prelude::*;

verus! {

/// Where an item's primary artwork lives: the item holding the image, and the tag that versions
/// it (often a child of the item shown, not the item itself).
#[derive(Debug, Clone, PartialEq, Eq)]
pub struct ImageRef {
    pub item: ItemId,
    pub tag: String,
}

#[derive(Debug, Clone, PartialEq)]
pub struct Artist {
    pub id: ItemId,
    pub name: String,
    pub sort_name: String,
    /// Zero means unknown, not "no albums": the server reports no album count on an artist.
    pub album_count: u32,
    /// Zero means unknown here too.
    pub track_count: u32,
    pub genres: Vec<String>,
    pub is_favorite: bool,
    pub image: Option<ImageRef>,
    pub overview: Option<String>,
}

/// The counts line of an artist: each count only once it is known (non-zero).
pub open spec fn spec_counts_summary(albums: nat, tracks: nat) -> Option<Seq<char>> {
    if albums == 0 && tracks == 0 {
        None
    } else if albums == 0 {
        Some(decimal_string(tracks) + " tracks"@)
    } else if tracks == 0 {
        Some(decimal_string(albums) + " albums"@)
    } else {
        Some(decimal_string(albums) + " albums"@ + ", "@ + decimal_string(tracks) + " tracks"@)
    }
}

fn push_str(out: &mut Vec<char>, s: &str)
    ensures
        final(out)@ == old(out)@ + s@,
{
    let c = chars_of(s);
    append_chars(out, &c);
}

impl Artist {
    /// `"12 albums, 143 tracks"`, or just `"143 tracks"` when only the track count is known, or
    /// nothing when neither is.
    pub fn counts_summary(&self) -> (r: Option<String>)
        ensures
            r matches Some(s) ==> spec_counts_summary(self.album_count as nat, self.track_count as nat) == Some(s@),
            r is None <==> spec_counts_summary(self.album_count as nat, self.track_count as nat) is None,
    {
        let albums = self.album_count;
        let tracks = self.track_count;
        if albums == 0 && tracks == 0 {
            return None;
        }
        let mut out: Vec<char> = Vec::new();
        if albums != 0 {
            let a = u64_to_chars(albums as u64);
            append_chars(&mut out, &a);
            push_str(&mut out, " albums");
            if tracks != 0 {
                push_str(&mut out, ", ");
            }
        }
        if tracks != 0 {
            let t = u64_to_chars(tracks as u64);
            append_chars(&mut out, &t);
            push_str(&mut out, " tracks");
        }
        proof {
            let da = decimal_string(albums as nat);
            let dt = decimal_string(tracks as nat);
            if albums != 0 && tracks != 0 {
                assert(out@ =~= da + " albums"@ + ", "@ + dt + " tracks"@);
            } else if albums != 0 {
                assert(out@ =~= da + " albums"@);
            } else {
                assert(out@ =~= dt + " tracks"@);
            }
        }
        Some(string_from_chars(&out))
    }
}

/// Whether an album is the artist's own release or one they merely appear on.
#[derive(Debug, Clone, PartialEq, Eq)]
pub enum AlbumRelation {
    Primary,
    AppearsOn { context_artist: ItemId },
}

#[derive(Debug, Clone, PartialEq)]
pub struct Album {
    pub id: ItemId,
    pub name: String,
    pub sort_name: String,
    pub album_artist_names: Vec<String>,
    pub album_artist_ids: Vec<ItemId>,
    pub year: Option<u16>,
    pub track_count: u32,
    pub total_duration: Duration,
    pub genres: Vec<String>,
    pub is_favorite: bool,
    pub image: Option<ImageRef>,
    pub relation: AlbumRelation,
}

/// The lyric format of a track's subtitle-type media stream.
#[derive(Debug, Clone, Copy, PartialEq, Eq, Structural)]
pub enum LyricFormat {
    Lrc,
    Srt,
    Txt,
}

/// A reference to a track's lyric stream (the discovery result, not the lyrics).
#[derive(Debug, Clone, PartialEq)]
pub struct LyricStreamRef {
    pub media_source_id: MediaSourceId,
    pub stream_index: u32,
    pub format: LyricFormat,
}

/// A track. The ReplayGain tags (floating point) travel beside it, outside this library.
#[derive(Debug, Clone, PartialEq)]
pub struct Track {
    pub id: ItemId,
    pub name: String,
    pub album_id: Option<ItemId>,
    pub album_name: String,
    pub album_artist_names: Vec<String>,
    /// What the appears-on filter tests against; never parsed out of a display string.
    pub artist_ids: Vec<ItemId>,
    pub artist_names: Vec<String>,
    pub track_number: Option<u32>,
    pub disc_number: Option<u32>,
    pub year: Option<u16>,
    pub duration: Duration,
    pub genres: Vec<String>,
    pub is_favorite: bool,
    pub play_count: u32,
    pub format: AudioFormat,
    pub image: Option<ImageRef>,
    pub media_source_id: Option<MediaSourceId>,
    pub lyric_stream: Option<LyricStreamRef>,
    pub date_created: Option<jiff::Timestamp>,
    /// Set only on a row of a playlist's track column: the per-row id removal and moves need.
    pub playlist_entry_id: Option<PlaylistEntryId>,
}

#[derive(Debug, Clone, PartialEq)]
pub struct Genre {
    pub id: ItemId,
    pub name: String,
}

#[derive(Debug, Clone, PartialEq)]
pub struct Folder {
    pub id: ItemId,
    pub name: String,
}

#[derive(Debug, Clone, PartialEq)]
pub struct Playlist {
    pub id: ItemId,
    pub name: String,
    pub overview: Option<String>,
    pub track_count: u32,
    pub total_duration: Duration,
    pub can_edit: bool,
    pub is_favorite: bool,
}

/// A non-selectable divider row, e.g. `ALBUMS (2)`.
#[derive(Debug, Clone, PartialEq)]
pub struct SectionHeader {
    pub label: String,
    pub count: usize,
    pub kind: SectionKind,
}

#[derive(Debug, Clone, Copy, PartialEq, Eq, Structural)]
pub enum SectionKind {
    Albums,
    AppearsOn,
    Custom,
}

/// The unit a navigation column holds.
#[derive(Debug, Clone, PartialEq)]
pub enum MediaItem {
    Artist(Artist),
    Album(Album),
    Track(Track),
    Genre(Genre),
    Folder(Folder),
    Playlist(Playlist),
    SectionHeader(SectionHeader),
}

impl MediaItem {
    /// The item's id; `None` for a section header, which is not an addressable item.
    pub fn id(&self) -> (r: Option<&ItemId>)
        ensures
            r == (match self {
                MediaItem::Artist(a) => Some(&a.id),
                MediaItem::Album(a) => Some(&a.id),
                MediaItem::Track(t) => Some(&t.id),
                MediaItem::Genre(g) => Some(&g.id),
                MediaItem::Folder(f) => Some(&f.id),
                MediaItem::Playlist(p) => Some(&p.id),
                MediaItem::SectionHeader(_) => None,
            }),
    {
        match self {
            MediaItem::Artist(a) => Some(&a.id),
            MediaItem::Album(a) => Some(&a.id),
            MediaItem::Track(t) => Some(&t.id),
            MediaItem::Genre(g) => Some(&g.id),
            MediaItem::Folder(f) => Some(&f.id),
            MediaItem::Playlist(p) => Some(&p.id),
            MediaItem::SectionHeader(_) => None,
        }
    }

    /// Everything but a section header can be selected.
    pub fn is_selectable(&self) -> (r: bool)
        ensures
            r == !(self is SectionHeader),
    {
        match self {
            MediaItem::SectionHeader(_) => false,
            _ => true,
        }
    }

    /// The row's name, or a header's label.
    pub fn display_name(&self) -> (r: &str)
        ensures
            r@ == (match self {
                MediaItem::Artist(a) => a.name@,
                MediaItem::Album(a) => a.name@,
                MediaItem::Track(t) => t.name@,
                MediaItem::Genre(g) => g.name@,
                MediaItem::Folder(f) => f.name@,
                MediaItem::Playlist(p) => p.name@,
                MediaItem::SectionHeader(s) => s.label@,
            }),
    {
        match self {
            MediaItem::Artist(a) => a.name.as_str(),
            MediaItem::Album(a) => a.name.as_str(),
            MediaItem::Track(t) => t.name.as_str(),
            MediaItem::Genre(g) => g.name.as_str(),
            MediaItem::Folder(f) => f.name.as_str(),
            MediaItem::Playlist(p) => p.name.as_str(),
            MediaItem::SectionHeader(s) => s.label.as_str(),
        }
    }
}

// ------------------------------------------------------------------ copies

/// A list of strings as text values.
pub open spec fn texts(v: Seq<String>) -> Seq<Seq<char>> {
    v.map_values(|x: String| x@)
}

/// A list of ids as text values.
pub open spec fn id_texts(v: Seq<ItemId>) -> Seq<Seq<char>> {
    v.map_values(|x: ItemId| x@)
}

/// Two optional ids with the same text (or both absent).
pub open spec fn same_opt_id(a: Option<ItemId>, b: Option<ItemId>) -> bool {
    match (a, b) {
        (Some(x), Some(y)) => x@ == y@,
        (None, None) => true,
        _ => false,
    }
}

/// Two optional image references with the same item and tag (or both absent).
pub open spec fn same_image(a: Option<ImageRef>, b: Option<ImageRef>) -> bool {
    match (a, b) {
        (Some(x), Some(y)) => x.item@ == y.item@ && x.tag@ == y.tag@,
        (None, None) => true,
        _ => false,
    }
}

/// Two decoded formats with the same values.
pub open spec fn same_format(a: AudioFormat, b: AudioFormat) -> bool {
    a.codec@ == b.codec@ && a.sample_rate_hz == b.sample_rate_hz && a.bit_depth == b.bit_depth
        && a.channels == b.channels && a.bitrate_bps == b.bitrate_bps
}

/// Two tracks holding the same values in every field.
pub open spec fn same_track(a: Track, b: Track) -> bool {
    &&& a.id@ == b.id@ && a.name@ == b.name@ && same_opt_id(a.album_id, b.album_id)
    &&& a.album_name@ == b.album_name@ && texts(a.album_artist_names@) == texts(b.album_artist_names@)
    &&& id_texts(a.artist_ids@) == id_texts(b.artist_ids@) && texts(a.artist_names@) == texts(b.artist_names@)
    &&& a.track_number == b.track_number && a.disc_number == b.disc_number && a.year == b.year
    &&& a.duration == b.duration && texts(a.genres@) == texts(b.genres@)
    &&& a.is_favorite == b.is_favorite && a.play_count == b.play_count && same_format(a.format, b.format)
    &&& same_image(a.image, b.image)
    &&& (a.media_source_id is Some <==> b.media_source_id is Some)
    &&& (a.media_source_id is Some ==> a.media_source_id->0@ == b.media_source_id->0@)
    &&& (a.lyric_stream is Some <==> b.lyric_stream is Some)
    &&& (a.lyric_stream is Some ==> a.lyric_stream->0.media_source_id@ == b.lyric_stream->0.media_source_id@
        && a.lyric_stream->0.stream_index == b.lyric_stream->0.stream_index && a.lyric_stream->0.format == b.lyric_stream->0.format)
    &&& a.date_created == b.date_created
    &&& (a.playlist_entry_id is Some <==> b.playlist_entry_id is Some)
    &&& (a.playlist_entry_id is Some ==> a.playlist_entry_id->0@ == b.playlist_entry_id->0@)
}

pub fn copy_texts(v: &Vec<String>) -> (r: Vec<String>)
    ensures
        texts(r@) == texts(v@),
{
    let mut r: Vec<String> = Vec::new();
    let mut i: usize = 0;
    while i < v.len()
        invariant
            i <= v@.len(),
            texts(r@) == texts(v@.take(i as int)),
        decreases v@.len() - i,
    {
        let ghost before = r@;
        r.push(v[i].clone());
        assert(texts(r@) =~= texts(before).push(v@[i as int]@));
        assert(texts(v@.take(i + 1)) =~= texts(v@.take(i as int)).push(v@[i as int]@));
        i = i + 1;
    }
    assert(v@.take(v@.len() as int) =~= v@);
    r
}

pub fn copy_ids(v: &Vec<ItemId>) -> (r: Vec<ItemId>)
    ensures
        id_texts(r@) == id_texts(v@),
{
    let mut r: Vec<ItemId> = Vec::new();
    let mut i: usize = 0;
    while i < v.len()
        invariant
            i <= v@.len(),
            id_texts(r@) == id_texts(v@.take(i as int)),
        decreases v@.len() - i,
    {
        let ghost before = r@;
        r.push(ItemId::from_str(v[i].as_str()));
        assert(id_texts(r@) =~= id_texts(before).push(v@[i as int]@));
        assert(id_texts(v@.take(i + 1)) =~= id_texts(v@.take(i as int)).push(v@[i as int]@));
        i = i + 1;
    }
    assert(v@.take(v@.len() as int) =~= v@);
    r
}

fn copy_codec(c: &Codec) -> (r: Codec)
    ensures
        r@ == c@,
{
    match c {
        Codec::Flac => Codec::Flac,
        Codec::Alac => Codec::Alac,
        Codec::Mp3 => Codec::Mp3,
        Codec::Aac => Codec::Aac,
        Codec::Opus => Codec::Opus,
        Codec::Vorbis => Codec::Vorbis,
        Codec::Wav => Codec::Wav,
        Codec::Other(s) => Codec::Other(s.clone()),
    }
}

impl Track {
    /// A copy of this track, field by field.
    pub fn duplicate(&self) -> (r: Track)
        ensures
            same_track(r, *self),
    {
        let album_id = match &self.album_id {
            Some(a) => Some(ItemId::from_str(a.as_str())),
            None => None,
        };
        let image = match &self.image {
            Some(i) => Some(ImageRef { item: ItemId::from_str(i.item.as_str()), tag: i.tag.clone() }),
            None => None,
        };
        let media_source_id = match &self.media_source_id {
            Some(m) => Some(MediaSourceId::from_str(m.as_str())),
            None => None,
        };
        let lyric_stream = match &self.lyric_stream {
            Some(l) => Some(LyricStreamRef {
                media_source_id: MediaSourceId::from_str(l.media_source_id.as_str()),
                stream_index: l.stream_index,
                format: l.format,
            }),
            None => None,
        };
        let playlist_entry_id = match &self.playlist_entry_id {
            Some(p) => Some(PlaylistEntryId::from_str(p.as_str())),
            None => None,
        };
        Track {
            id: ItemId::from_str(self.id.as_str()),
            name: self.name.clone(),
            album_id,
            album_name: self.album_name.clone(),
            album_artist_names: copy_texts(&self.album_artist_names),
            artist_ids: copy_ids(&self.artist_ids),
            artist_names: copy_texts(&self.artist_names),
            track_number: self.track_number,
            disc_number: self.disc_number,
            year: self.year,
            duration: self.duration,
            genres: copy_texts(&self.genres),
            is_favorite: self.is_favorite,
            play_count: self.play_count,
            format: AudioFormat {
                codec: copy_codec(&self.format.codec),
                sample_rate_hz: self.format.sample_rate_hz,
                bit_depth: self.format.bit_depth,
                channels: self.format.channels,
                bitrate_bps: self.format.bitrate_bps,
            },
            image,
            media_source_id,
            lyric_stream,
            date_created: self.date_created,
            playlist_entry_id,
        }
    }
}

} // verus!
