//! The configuration's own types, with their defaults.
use crate::text::str_eq;
use vstd::prelude::*;

verus! {

/// Which ReplayGain tag scales playback, if any.
#[derive(Debug, Clone, Copy, PartialEq, Eq, Structural)]
pub enum ReplayGainMode {
    Album,
    Track,
    Off,
}

impl Default for ReplayGainMode {
    fn default() -> (r: ReplayGainMode)
        ensures
            r == ReplayGainMode::Album,
    {
        ReplayGainMode::Album
    }
}

/// Direct play, or one of three transcoding bitrates.
#[derive(Debug, Clone, Copy, PartialEq, Eq, Hash, Structural)]
pub enum QualityProfile {
    Direct,
    TranscodeHigh,
    TranscodeMed,
    TranscodeLow,
}

impl Default for QualityProfile {
    fn default() -> (r: QualityProfile)
        ensures
            r == QualityProfile::Direct,
    {
        QualityProfile::Direct
    }
}

/// The codec a transcode asks the server for.
#[derive(Debug, Clone, Copy, PartialEq, Eq, Structural)]
pub enum TargetCodec {
    Mp3,
    Aac,
    Opus,
}

impl Default for TargetCodec {
    fn default() -> (r: TargetCodec)
        ensures
            r == TargetCodec::Mp3,
    {
        TargetCodec::Mp3
    }
}

#[derive(Debug, Clone, Copy, PartialEq, Eq, Structural)]
pub struct TranscodeConfig {
    pub mode: QualityProfile,
    pub target_codec: TargetCodec,
    pub download_uncompressed: bool,
}

impl Default for TranscodeConfig {
    fn default() -> (r: TranscodeConfig)
        ensures
            r == (TranscodeConfig { mode: QualityProfile::Direct, target_codec: TargetCodec::Mp3, download_uncompressed: true }),
    {
        TranscodeConfig { mode: QualityProfile::Direct, target_codec: TargetCodec::Mp3, download_uncompressed: true }
    }
}

/// How album art is drawn in the terminal.
#[derive(Debug, Clone, Copy, PartialEq, Eq, Structural)]
pub enum ArtProtocol {
    Auto,
    Kitty,
    Sixel,
    Halfblocks,
    Off,
}

impl Default for ArtProtocol {
    fn default() -> (r: ArtProtocol)
        ensures
            r == ArtProtocol::Auto,
    {
        ArtProtocol::Auto
    }
}

#[derive(Debug, Clone)]
pub struct UiConfig {
    pub theme: String,
    pub album_art_protocol: ArtProtocol,
    pub desktop_notifications: bool,
    pub enable_mouse: bool,
    pub enable_websocket: bool,
    pub restore_session: bool,
    pub restore_autoplay: bool,
    pub ascii_only: bool,
    pub show_lyrics: bool,
    pub show_inspector_art: bool,
    pub now_playing_format: String,
}

impl Default for UiConfig {
    fn default() -> (r: UiConfig)
        ensures
            r.theme@ == "default_terminal"@,
            r.album_art_protocol == ArtProtocol::Auto,
            r.desktop_notifications && r.enable_mouse && r.enable_websocket && r.restore_session,
            !r.restore_autoplay && !r.ascii_only,
            r.show_lyrics && r.show_inspector_art,
            r.now_playing_format@ == "{title} \u{2014} {artist} ({album})"@,
    {
        UiConfig {
            theme: "default_terminal".to_string(),
            album_art_protocol: ArtProtocol::Auto,
            desktop_notifications: true,
            enable_mouse: true,
            enable_websocket: true,
            restore_session: true,
            restore_autoplay: false,
            ascii_only: false,
            show_lyrics: true,
            show_inspector_art: true,
            now_playing_format: "{title} \u{2014} {artist} ({album})".to_string(),
        }
    }
}

#[derive(Debug, Clone)]
pub struct LoggingConfig {
    pub level: String,
    pub max_files: u8,
}

impl Default for LoggingConfig {
    fn default() -> (r: LoggingConfig)
        ensures
            r.level@ == "info"@,
            r.max_files == 5,
    {
        LoggingConfig { level: "info".to_string(), max_files: 5 }
    }
}

/// What a sort rule compares tracks by.
#[derive(Debug, Clone, Copy, PartialEq, Eq, Structural)]
pub enum SortField {
    Name,
    Artist,
    AlbumArtist,
    Album,
    Year,
    TrackNumber,
    Genre,
    DateAdded,
}

#[derive(Debug, Clone, Copy, PartialEq, Eq, Structural)]
pub enum Direction {
    Asc,
    Desc,
}

#[derive(Debug, Clone, Copy, PartialEq, Eq, Structural)]
pub struct SortRule {
    pub field: SortField,
    pub direction: Direction,
}

/// A named stack of rules, each breaking the previous one's ties.
#[derive(Debug, Clone)]
pub struct SortProfile {
    pub name: String,
    pub rules: Vec<SortRule>,
}

#[derive(Debug, Clone)]
pub struct SortingConfig {
    pub default_queue_profile: String,
    pub profiles: Vec<SortProfile>,
}

/// Album artist, year, album, track number, all ascending: an artist's discography in order.
pub open spec fn chronological_discog_rules() -> Seq<SortRule> {
    seq![
        SortRule { field: SortField::AlbumArtist, direction: Direction::Asc },
        SortRule { field: SortField::Year, direction: Direction::Asc },
        SortRule { field: SortField::Album, direction: Direction::Asc },
        SortRule { field: SortField::TrackNumber, direction: Direction::Asc },
    ]
}

/// Newest year first, then album and track number ascending.
pub open spec fn release_chronology_rules() -> Seq<SortRule> {
    seq![
        SortRule { field: SortField::Year, direction: Direction::Desc },
        SortRule { field: SortField::Album, direction: Direction::Asc },
        SortRule { field: SortField::TrackNumber, direction: Direction::Asc },
    ]
}

impl Default for SortingConfig {
    /// Two built-in profiles, `chronological_discog` (the default for the queue) and
    /// `release_chronology`.
    fn default() -> (r: SortingConfig)
        ensures
            r.default_queue_profile@ == "chronological_discog"@,
            r.profiles@.len() == 2,
            r.profiles@[0].name@ == "chronological_discog"@,
            r.profiles@[0].rules@ == chronological_discog_rules(),
            r.profiles@[1].name@ == "release_chronology"@,
            r.profiles@[1].rules@ == release_chronology_rules(),
    {
        let mut first: Vec<SortRule> = Vec::new();
        first.push(SortRule { field: SortField::AlbumArtist, direction: Direction::Asc });
        first.push(SortRule { field: SortField::Year, direction: Direction::Asc });
        first.push(SortRule { field: SortField::Album, direction: Direction::Asc });
        first.push(SortRule { field: SortField::TrackNumber, direction: Direction::Asc });
        let mut second: Vec<SortRule> = Vec::new();
        second.push(SortRule { field: SortField::Year, direction: Direction::Desc });
        second.push(SortRule { field: SortField::Album, direction: Direction::Asc });
        second.push(SortRule { field: SortField::TrackNumber, direction: Direction::Asc });
        assert(first@ =~= chronological_discog_rules());
        assert(second@ =~= release_chronology_rules());
        let mut profiles: Vec<SortProfile> = Vec::new();
        profiles.push(SortProfile { name: "chronological_discog".to_string(), rules: first });
        profiles.push(SortProfile { name: "release_chronology".to_string(), rules: second });
        SortingConfig { default_queue_profile: "chronological_discog".to_string(), profiles }
    }
}

/// Extra HTTP headers, as (name, value) pairs in ascending name order, no name twice.
pub open spec fn headers_view(h: Seq<(String, String)>) -> Seq<(Seq<char>, Seq<char>)> {
    h.map_values(|p: (String, String)| (p.0@, p.1@))
}

/// A copy of a header list.
pub fn clone_headers(h: &Vec<(String, String)>) -> (r: Vec<(String, String)>)
    ensures
        headers_view(r@) == headers_view(h@),
{
    let mut r: Vec<(String, String)> = Vec::new();
    let mut i: usize = 0;
    while i < h.len()
        invariant
            i <= h@.len(),
            headers_view(r@) == headers_view(h@.take(i as int)),
        decreases h@.len() - i,
    {
        let k = h[i].0.clone();
        let v = h[i].1.clone();
        let ghost before = r@;
        r.push((k, v));
        assert(headers_view(r@) =~= headers_view(before).push((h@[i as int].0@, h@[i as int].1@)));
        assert(headers_view(h@.take(i + 1)) =~= headers_view(h@.take(i as int)).push((h@[i as int].0@, h@[i as int].1@)));
        i = i + 1;
    }
    assert(h@.take(h@.len() as int) =~= h@);
    r
}

/// One address of a server, with the headers that address needs.
#[derive(Debug, Clone)]
pub struct ServerEndpoint {
    pub url: String,
    pub custom_headers: Vec<(String, String)>,
}

/// An endpoint as plain values.
pub struct ServerEndpointView {
    pub url: Seq<char>,
    pub custom_headers: Seq<(Seq<char>, Seq<char>)>,
}

impl View for ServerEndpoint {
    type V = ServerEndpointView;

    open spec fn view(&self) -> ServerEndpointView {
        ServerEndpointView { url: self.url@, custom_headers: headers_view(self.custom_headers@) }
    }
}

impl ServerEndpoint {
    /// A copy of this endpoint.
    pub fn duplicate(&self) -> (r: ServerEndpoint)
        ensures
            r@ == self@,
    {
        ServerEndpoint { url: self.url.clone(), custom_headers: clone_headers(&self.custom_headers) }
    }
}

/// One configured server: its primary address and headers, and fallback addresses tried in
/// order when the primary is unreachable.
#[derive(Debug, Clone)]
pub struct ServerConfig {
    pub id: String,
    pub name: String,
    pub url: String,
    pub user_id: String,
    pub access_token: String,
    pub device_id: String,
    pub custom_headers: Vec<(String, String)>,
    pub server_id: String,
    pub fallbacks: Vec<ServerEndpoint>,
}

/// A server as plain values.
pub struct ServerConfigView {
    pub id: Seq<char>,
    pub name: Seq<char>,
    pub url: Seq<char>,
    pub user_id: Seq<char>,
    pub access_token: Seq<char>,
    pub device_id: Seq<char>,
    pub custom_headers: Seq<(Seq<char>, Seq<char>)>,
    pub server_id: Seq<char>,
    pub fallbacks: Seq<ServerEndpointView>,
}

impl View for ServerConfig {
    type V = ServerConfigView;

    open spec fn view(&self) -> ServerConfigView {
        ServerConfigView {
            id: self.id@,
            name: self.name@,
            url: self.url@,
            user_id: self.user_id@,
            access_token: self.access_token@,
            device_id: self.device_id@,
            custom_headers: headers_view(self.custom_headers@),
            server_id: self.server_id@,
            fallbacks: self.fallbacks@.map_values(|e: ServerEndpoint| e@),
        }
    }
}

fn clone_endpoints(v: &Vec<ServerEndpoint>) -> (r: Vec<ServerEndpoint>)
    ensures
        r@.map_values(|e: ServerEndpoint| e@) == v@.map_values(|e: ServerEndpoint| e@),
{
    let mut r: Vec<ServerEndpoint> = Vec::new();
    let mut i: usize = 0;
    while i < v.len()
        invariant
            i <= v@.len(),
            r@.map_values(|e: ServerEndpoint| e@) == v@.take(i as int).map_values(|e: ServerEndpoint| e@),
        decreases v@.len() - i,
    {
        let e = v[i].duplicate();
        let ghost before = r@;
        r.push(e);
        assert(r@.map_values(|e: ServerEndpoint| e@) =~= before.map_values(|e: ServerEndpoint| e@).push(v@[i as int]@));
        assert(v@.take(i + 1).map_values(|e: ServerEndpoint| e@) =~= v@.take(i as int).map_values(|e: ServerEndpoint| e@).push(v@[i as int]@));
        i = i + 1;
    }
    assert(v@.take(v@.len() as int) =~= v@);
    r
}

impl ServerConfig {
    /// The primary address first, then every fallback in order.
    pub fn endpoints(&self) -> (r: Vec<ServerEndpoint>)
        ensures
            r@.map_values(|e: ServerEndpoint| e@) == seq![ServerEndpointView { url: self.url@, custom_headers: headers_view(self.custom_headers@) }]
                + self.fallbacks@.map_values(|e: ServerEndpoint| e@),
    {
        let mut all: Vec<ServerEndpoint> = Vec::new();
        all.push(ServerEndpoint { url: self.url.clone(), custom_headers: clone_headers(&self.custom_headers) });
        let mut rest = clone_endpoints(&self.fallbacks);
        let ghost a = all@;
        let ghost b = rest@;
        all.append(&mut rest);
        assert(all@ =~= a + b);
        assert(all@.map_values(|e: ServerEndpoint| e@) =~= a.map_values(|e: ServerEndpoint| e@) + b.map_values(|e: ServerEndpoint| e@));
        all
    }

    /// This server as reached through `endpoint`: that address and its headers, everything else
    /// unchanged.
    pub fn at(&self, endpoint: &ServerEndpoint) -> (r: ServerConfig)
        ensures
            r@ == (ServerConfigView { url: endpoint.url@, custom_headers: headers_view(endpoint.custom_headers@), ..self@ }),
    {
        ServerConfig {
            id: self.id.clone(),
            name: self.name.clone(),
            url: endpoint.url.clone(),
            user_id: self.user_id.clone(),
            access_token: self.access_token.clone(),
            device_id: self.device_id.clone(),
            custom_headers: clone_headers(&endpoint.custom_headers),
            server_id: self.server_id.clone(),
            fallbacks: clone_endpoints(&self.fallbacks),
        }
    }
}

/// The centre frequencies of the ten equalizer bands, in hertz: the ISO octave bands.
pub const EQ_BANDS_HZ: [u32; 10] = [31, 63, 125, 250, 500, 1000, 2000, 4000, 8000, 16000];

} // verus!
