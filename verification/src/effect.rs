//! Values that carry secrets, with the redaction used wherever they are shown, and the plain
//! records some effects carry.
use crate::model::ids::{ItemId, PlaylistId};
use crate::model::item::Track;
use crate::text::{append_chars, chars_of, find_char, find_chars, first_index_of, first_occurrence, occurs_at, slice_vec, string_from_chars};
use std::time::Duration;
use vstd::prelude::*;

verus! {

/// `url` with the value of its first `api_key=` parameter (up to the next `&`, or the end)
/// replaced by `REDACTED`; unchanged if it has no such parameter.
pub open spec fn spec_redact_api_key(url: Seq<char>) -> Seq<char> {
    match first_occurrence(url, "api_key="@) {
        None => url,
        Some(pos) => {
            let vs = pos + "api_key="@.len();
            let rest = url.subrange(vs, url.len() as int);
            let ve = match first_index_of(rest, '&') {
                Some(i) => vs + i,
                None => url.len() as int,
            };
            url.subrange(0, vs) + "REDACTED"@ + url.subrange(ve, url.len() as int)
        },
    }
}

/// Hides the `api_key` value of a stream URL, so the key never reaches a log or the screen.
#[verifier::rlimit(30)]
pub fn redact_api_key(url: &str) -> (r: String)
    ensures
        r@ == spec_redact_api_key(url@),
{
    let v = chars_of(url);
    let key = chars_of("api_key=");
    proof {
        reveal_strlit("api_key=");
    }
    match find_chars(&v, &key) {
        None => url.to_string(),
        Some(pos) => {
            assert(key@.len() == 8);
            assert(occurs_at(v@, key@, pos as int));
            assert(pos + key@.len() <= v@.len());
            let vl = v.len();
            let kl = key.len();
            assert(pos + kl <= vl);
            let vs = pos + key.len();
            let rest = slice_vec(&v, vs, v.len());
            let ve = match find_char(&rest, '&') {
                Some(i) => {
                    proof {
                        crate::text::lemma_first_index_of(rest@, '&');
                    }
                    vs + i
                },
                None => v.len(),
            };
            let ghost expect_end: int = match first_index_of(rest@, '&') {
                Some(i) => vs + i,
                None => v@.len() as int,
            };
            assert(ve as int == expect_end);
            let mut out = slice_vec(&v, 0, vs);
            let red = chars_of("REDACTED");
            append_chars(&mut out, &red);
            let tail = slice_vec(&v, ve, v.len());
            append_chars(&mut out, &tail);
            assert(out@ == v@.subrange(0, vs as int) + "REDACTED"@ + v@.subrange(ve as int, v@.len() as int));
            string_from_chars(&out)
        },
    }
}

/// A URL that may carry an `api_key` query parameter; what it shows is redacted.
#[derive(Clone, PartialEq, Eq)]
pub struct RedactedUrl(String);

impl View for RedactedUrl {
    type V = Seq<char>;

    closed spec fn view(&self) -> Seq<char> {
        self.0@
    }
}

impl RedactedUrl {
    pub fn new(url: String) -> (r: RedactedUrl)
        ensures
            r@ == url@,
    {
        RedactedUrl(url)
    }

    /// The full URL, key included, for the one place that must use it.
    pub fn as_str(&self) -> (r: &str)
        ensures
            r@ == self@,
    {
        self.0.as_str()
    }

    /// What displaying the URL shows: the URL with its key redacted.
    pub fn to_string(&self) -> (r: String)
        ensures
            r@ == spec_redact_api_key(self@),
    {
        redact_api_key(self.0.as_str())
    }
}

/// A secret (a password) that is never shown.
#[derive(Clone, PartialEq, Eq)]
pub struct RedactedSecret(String);

impl View for RedactedSecret {
    type V = Seq<char>;

    closed spec fn view(&self) -> Seq<char> {
        self.0@
    }
}

impl RedactedSecret {
    pub fn new(secret: String) -> (r: RedactedSecret)
        ensures
            r@ == secret@,
    {
        RedactedSecret(secret)
    }

    /// The secret itself, for the one place that must send it.
    pub fn expose(&self) -> (r: &str)
        ensures
            r@ == self@,
    {
        self.0.as_str()
    }
}

/// What a download covers.
#[derive(Debug, Clone)]
pub enum DownloadScope {
    Track(Box<Track>),
    Album(ItemId),
    Artist(ItemId),
    Playlist(PlaylistId),
}

impl DownloadScope {
    /// The id of the item the download covers.
    pub fn id(&self) -> (r: ItemId)
        ensures
            r@ == (match self {
                DownloadScope::Track(t) => t.id@,
                DownloadScope::Album(id) => id@,
                DownloadScope::Artist(id) => id@,
                DownloadScope::Playlist(id) => id@,
            }),
    {
        match self {
            DownloadScope::Track(t) => ItemId::from_str(t.id.as_str()),
            DownloadScope::Album(id) => ItemId::from_str(id.as_str()),
            DownloadScope::Artist(id) => ItemId::from_str(id.as_str()),
            DownloadScope::Playlist(id) => ItemId::from_str(id.as_str()),
        }
    }
}

/// A desktop notification for a new track.
#[derive(Debug, Clone)]
pub struct TrackChange {
    pub title: String,
    pub artist: String,
    pub album: String,
    pub art_path: Option<String>,
}

/// What the media-player integration is told.
#[derive(Debug, Clone)]
pub struct MprisMeta {
    pub title: String,
    pub artist: String,
    pub album: String,
    pub art_url: Option<String>,
    pub position: Duration,
    pub duration: Duration,
    pub playing: bool,
}

} // verus!
