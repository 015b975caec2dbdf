//! Newtype identifiers: an `ItemId` cannot be passed where a `PlaylistId` is expected, though
//! both wrap a `String`.
use crate::text::u64_to_chars;
use crate::text::string_from_chars;
use vstd::prelude::*;

verus! {

/// An Emby item GUID. Used for artists, albums, tracks, genres, and folders alike.
#[derive(Debug, Clone, PartialEq, Eq, Hash, PartialOrd, Ord)]
pub struct ItemId(String);

impl View for ItemId {
    type V = Seq<char>;

    closed spec fn view(&self) -> Seq<char> {
        self.0@
    }
}

impl ItemId {
    /// The id's text.
    pub fn as_str(&self) -> (r: &str)
        ensures
            r@ == self@,
    {
        self.0.as_str()
    }

    /// The id's text, owned; what displaying the id shows.
    pub fn to_string(&self) -> (r: String)
        ensures
            r@ == self@,
    {
        self.0.clone()
    }

    /// The id with text `s`.
    pub fn from_str(s: &str) -> (r: ItemId)
        ensures
            r@ == s@,
    {
        ItemId(s.to_string())
    }

    /// Same text, same id.
    pub fn same(&self, other: &ItemId) -> (r: bool)
        ensures
            r == (self@ == other@),
    {
        self.0 == other.0
    }
}

impl From<String> for ItemId {
    fn from(s: String) -> (r: ItemId) {
        ItemId(s)
    }
}

impl<'a> From<&'a str> for ItemId {
    /// The id with text `s`; `from_str` states it.
    fn from(s: &'a str) -> (r: ItemId) {
        ItemId::from_str(s)
    }
}

impl<'a> vstd::std_specs::convert::FromSpecImpl<&'a str> for ItemId {
    open spec fn obeys_from_spec() -> bool {
        false
    }

    open spec fn from_spec(v: &'a str) -> ItemId {
        arbitrary()
    }
}

impl vstd::std_specs::convert::FromSpecImpl<String> for ItemId {
    open spec fn obeys_from_spec() -> bool {
        true
    }

    closed spec fn from_spec(v: String) -> ItemId {
        ItemId(v)
    }
}

/// A config-assigned local server id, e.g. `"remote_proxy"`.
#[derive(Debug, Clone, PartialEq, Eq, Hash, PartialOrd, Ord)]
pub struct ServerId(String);

impl View for ServerId {
    type V = Seq<char>;

    closed spec fn view(&self) -> Seq<char> {
        self.0@
    }
}

impl ServerId {
    /// The id's text.
    pub fn as_str(&self) -> (r: &str)
        ensures
            r@ == self@,
    {
        self.0.as_str()
    }

    /// The id's text, owned; what displaying the id shows.
    pub fn to_string(&self) -> (r: String)
        ensures
            r@ == self@,
    {
        self.0.clone()
    }

    /// The id with text `s`.
    pub fn from_str(s: &str) -> (r: ServerId)
        ensures
            r@ == s@,
    {
        ServerId(s.to_string())
    }

    /// Same text, same id.
    pub fn same(&self, other: &ServerId) -> (r: bool)
        ensures
            r == (self@ == other@),
    {
        self.0 == other.0
    }
}

impl From<String> for ServerId {
    fn from(s: String) -> (r: ServerId) {
        ServerId(s)
    }
}

impl<'a> From<&'a str> for ServerId {
    /// The id with text `s`; `from_str` states it.
    fn from(s: &'a str) -> (r: ServerId) {
        ServerId::from_str(s)
    }
}

impl<'a> vstd::std_specs::convert::FromSpecImpl<&'a str> for ServerId {
    open spec fn obeys_from_spec() -> bool {
        false
    }

    open spec fn from_spec(v: &'a str) -> ServerId {
        arbitrary()
    }
}

impl vstd::std_specs::convert::FromSpecImpl<String> for ServerId {
    open spec fn obeys_from_spec() -> bool {
        true
    }

    closed spec fn from_spec(v: String) -> ServerId {
        ServerId(v)
    }
}

/// An Emby user GUID.
#[derive(Debug, Clone, PartialEq, Eq, Hash, PartialOrd, Ord)]
pub struct UserId(String);

impl View for UserId {
    type V = Seq<char>;

    closed spec fn view(&self) -> Seq<char> {
        self.0@
    }
}

impl UserId {
    /// The id's text.
    pub fn as_str(&self) -> (r: &str)
        ensures
            r@ == self@,
    {
        self.0.as_str()
    }

    /// The id's text, owned; what displaying the id shows.
    pub fn to_string(&self) -> (r: String)
        ensures
            r@ == self@,
    {
        self.0.clone()
    }

    /// The id with text `s`.
    pub fn from_str(s: &str) -> (r: UserId)
        ensures
            r@ == s@,
    {
        UserId(s.to_string())
    }

    /// Same text, same id.
    pub fn same(&self, other: &UserId) -> (r: bool)
        ensures
            r == (self@ == other@),
    {
        self.0 == other.0
    }
}

impl From<String> for UserId {
    fn from(s: String) -> (r: UserId) {
        UserId(s)
    }
}

impl<'a> From<&'a str> for UserId {
    /// The id with text `s`; `from_str` states it.
    fn from(s: &'a str) -> (r: UserId) {
        UserId::from_str(s)
    }
}

impl<'a> vstd::std_specs::convert::FromSpecImpl<&'a str> for UserId {
    open spec fn obeys_from_spec() -> bool {
        false
    }

    open spec fn from_spec(v: &'a str) -> UserId {
        arbitrary()
    }
}

impl vstd::std_specs::convert::FromSpecImpl<String> for UserId {
    open spec fn obeys_from_spec() -> bool {
        true
    }

    closed spec fn from_spec(v: String) -> UserId {
        UserId(v)
    }
}

/// Semantically an `ItemId`; a distinct type for safety.
#[derive(Debug, Clone, PartialEq, Eq, Hash, PartialOrd, Ord)]
pub struct PlaylistId(String);

impl View for PlaylistId {
    type V = Seq<char>;

    closed spec fn view(&self) -> Seq<char> {
        self.0@
    }
}

impl PlaylistId {
    /// The id's text.
    pub fn as_str(&self) -> (r: &str)
        ensures
            r@ == self@,
    {
        self.0.as_str()
    }

    /// The id's text, owned; what displaying the id shows.
    pub fn to_string(&self) -> (r: String)
        ensures
            r@ == self@,
    {
        self.0.clone()
    }

    /// The id with text `s`.
    pub fn from_str(s: &str) -> (r: PlaylistId)
        ensures
            r@ == s@,
    {
        PlaylistId(s.to_string())
    }

    /// Same text, same id.
    pub fn same(&self, other: &PlaylistId) -> (r: bool)
        ensures
            r == (self@ == other@),
    {
        self.0 == other.0
    }
}

impl From<String> for PlaylistId {
    fn from(s: String) -> (r: PlaylistId) {
        PlaylistId(s)
    }
}

impl<'a> From<&'a str> for PlaylistId {
    /// The id with text `s`; `from_str` states it.
    fn from(s: &'a str) -> (r: PlaylistId) {
        PlaylistId::from_str(s)
    }
}

impl<'a> vstd::std_specs::convert::FromSpecImpl<&'a str> for PlaylistId {
    open spec fn obeys_from_spec() -> bool {
        false
    }

    open spec fn from_spec(v: &'a str) -> PlaylistId {
        arbitrary()
    }
}

impl vstd::std_specs::convert::FromSpecImpl<String> for PlaylistId {
    open spec fn obeys_from_spec() -> bool {
        true
    }

    closed spec fn from_spec(v: String) -> PlaylistId {
        PlaylistId(v)
    }
}

/// Emby's per-playlist-row id. Required for removal: an `ItemId` alone is not enough, since the
/// same track can appear in a playlist more than once.
#[derive(Debug, Clone, PartialEq, Eq, Hash, PartialOrd, Ord)]
pub struct PlaylistEntryId(String);

impl View for PlaylistEntryId {
    type V = Seq<char>;

    closed spec fn view(&self) -> Seq<char> {
        self.0@
    }
}

impl PlaylistEntryId {
    /// The id's text.
    pub fn as_str(&self) -> (r: &str)
        ensures
            r@ == self@,
    {
        self.0.as_str()
    }

    /// The id's text, owned; what displaying the id shows.
    pub fn to_string(&self) -> (r: String)
        ensures
            r@ == self@,
    {
        self.0.clone()
    }

    /// The id with text `s`.
    pub fn from_str(s: &str) -> (r: PlaylistEntryId)
        ensures
            r@ == s@,
    {
        PlaylistEntryId(s.to_string())
    }

    /// Same text, same id.
    pub fn same(&self, other: &PlaylistEntryId) -> (r: bool)
        ensures
            r == (self@ == other@),
    {
        self.0 == other.0
    }
}

impl From<String> for PlaylistEntryId {
    fn from(s: String) -> (r: PlaylistEntryId) {
        PlaylistEntryId(s)
    }
}

impl<'a> From<&'a str> for PlaylistEntryId {
    /// The id with text `s`; `from_str` states it.
    fn from(s: &'a str) -> (r: PlaylistEntryId) {
        PlaylistEntryId::from_str(s)
    }
}

impl<'a> vstd::std_specs::convert::FromSpecImpl<&'a str> for PlaylistEntryId {
    open spec fn obeys_from_spec() -> bool {
        false
    }

    open spec fn from_spec(v: &'a str) -> PlaylistEntryId {
        arbitrary()
    }
}

impl vstd::std_specs::convert::FromSpecImpl<String> for PlaylistEntryId {
    open spec fn obeys_from_spec() -> bool {
        true
    }

    closed spec fn from_spec(v: String) -> PlaylistEntryId {
        PlaylistEntryId(v)
    }
}

/// Identifies a media source within an item; needed for lyric-stream fetching.
#[derive(Debug, Clone, PartialEq, Eq, Hash, PartialOrd, Ord)]
pub struct MediaSourceId(String);

impl View for MediaSourceId {
    type V = Seq<char>;

    closed spec fn view(&self) -> Seq<char> {
        self.0@
    }
}

impl MediaSourceId {
    /// The id's text.
    pub fn as_str(&self) -> (r: &str)
        ensures
            r@ == self@,
    {
        self.0.as_str()
    }

    /// The id's text, owned; what displaying the id shows.
    pub fn to_string(&self) -> (r: String)
        ensures
            r@ == self@,
    {
        self.0.clone()
    }

    /// The id with text `s`.
    pub fn from_str(s: &str) -> (r: MediaSourceId)
        ensures
            r@ == s@,
    {
        MediaSourceId(s.to_string())
    }

    /// Same text, same id.
    pub fn same(&self, other: &MediaSourceId) -> (r: bool)
        ensures
            r == (self@ == other@),
    {
        self.0 == other.0
    }
}

impl From<String> for MediaSourceId {
    fn from(s: String) -> (r: MediaSourceId) {
        MediaSourceId(s)
    }
}

impl<'a> From<&'a str> for MediaSourceId {
    /// The id with text `s`; `from_str` states it.
    fn from(s: &'a str) -> (r: MediaSourceId) {
        MediaSourceId::from_str(s)
    }
}

impl<'a> vstd::std_specs::convert::FromSpecImpl<&'a str> for MediaSourceId {
    open spec fn obeys_from_spec() -> bool {
        false
    }

    open spec fn from_spec(v: &'a str) -> MediaSourceId {
        arbitrary()
    }
}

impl vstd::std_specs::convert::FromSpecImpl<String> for MediaSourceId {
    open spec fn obeys_from_spec() -> bool {
        true
    }

    closed spec fn from_spec(v: String) -> MediaSourceId {
        MediaSourceId(v)
    }
}

/// A UUID v4 generated once per track load and reused for that track's whole lifetime; a fresh
/// id per report would make the server treat each update as a new session.
#[derive(Debug, Clone, PartialEq, Eq, Hash, PartialOrd, Ord)]
pub struct PlaySessionId(String);

impl View for PlaySessionId {
    type V = Seq<char>;

    closed spec fn view(&self) -> Seq<char> {
        self.0@
    }
}

impl PlaySessionId {
    /// The id's text.
    pub fn as_str(&self) -> (r: &str)
        ensures
            r@ == self@,
    {
        self.0.as_str()
    }

    /// The id's text, owned; what displaying the id shows.
    pub fn to_string(&self) -> (r: String)
        ensures
            r@ == self@,
    {
        self.0.clone()
    }

    /// The id with text `s`.
    pub fn from_str(s: &str) -> (r: PlaySessionId)
        ensures
            r@ == s@,
    {
        PlaySessionId(s.to_string())
    }

    /// Same text, same id.
    pub fn same(&self, other: &PlaySessionId) -> (r: bool)
        ensures
            r == (self@ == other@),
    {
        self.0 == other.0
    }
}

impl From<String> for PlaySessionId {
    fn from(s: String) -> (r: PlaySessionId) {
        PlaySessionId(s)
    }
}

impl<'a> From<&'a str> for PlaySessionId {
    /// The id with text `s`; `from_str` states it.
    fn from(s: &'a str) -> (r: PlaySessionId) {
        PlaySessionId::from_str(s)
    }
}

impl<'a> vstd::std_specs::convert::FromSpecImpl<&'a str> for PlaySessionId {
    open spec fn obeys_from_spec() -> bool {
        false
    }

    open spec fn from_spec(v: &'a str) -> PlaySessionId {
        arbitrary()
    }
}

impl vstd::std_specs::convert::FromSpecImpl<String> for PlaySessionId {
    open spec fn obeys_from_spec() -> bool {
        true
    }

    closed spec fn from_spec(v: String) -> PlaySessionId {
        PlaySessionId(v)
    }
}

/// Monotonic, session-local queue entry identifier. The same track can appear twice in a queue,
/// so index-based identity is not enough.
#[derive(Debug, Clone, Copy, PartialEq, Eq, Hash, PartialOrd, Ord, Structural)]
pub struct QueueEntryId(pub u64);

impl QueueEntryId {
    /// The number in decimal; what displaying the id shows.
    pub fn to_string(&self) -> (r: String)
        ensures
            r@ == crate::text::decimal_string(self.0 as nat),
    {
        let v = u64_to_chars(self.0);
        string_from_chars(&v)
    }
}

} // verus!
