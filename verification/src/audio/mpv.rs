//! The player's property names, the pure pieces of talking to it, and the translation of its
//! property changes into engine events.
use crate::audio::backend::{AudioEvent, PlayStatus};
use crate::audio::error::AudioError;
use crate::effect::{redact_api_key, spec_redact_api_key};
use crate::model::audio_meta::{codec_of, AudioDevice, AudioDeviceView, AudioFormat, Codec, CodecView};
use crate::text::{
    append_chars, chars_of, decimal_string, eq_str, first_index_of, find_char, has_char, contains_char,
    slice_vec, str_eq, string_from_chars, u64_to_chars,
};
use vstd::prelude::*;

verus! {

pub const PROP_PAUSE: &'static str = "pause";
pub const PROP_VOLUME: &'static str = "volume";
pub const PROP_MUTE: &'static str = "mute";
pub const PROP_AUDIO_DEVICE: &'static str = "audio-device";
pub const PROP_AF: &'static str = "af";
pub const PROP_TIME_POS: &'static str = "time-pos";
pub const PROP_DURATION: &'static str = "duration";
pub const PROP_CORE_IDLE: &'static str = "core-idle";
pub const PROP_EOF_REACHED: &'static str = "eof-reached";
pub const PROP_AUDIO_PARAMS_FORMAT: &'static str = "audio-params/format";
pub const PROP_AUDIO_PARAMS_SAMPLERATE: &'static str = "audio-params/samplerate";
pub const PROP_AUDIO_PARAMS_CHANNELS: &'static str = "audio-params/channel-count";
pub const PROP_AUDIO_BITRATE: &'static str = "audio-bitrate";
pub const PROP_AUDIO_CODEC_NAME: &'static str = "audio-codec-name";
pub const PROP_AUDIO_DEVICE_LIST: &'static str = "audio-device-list";
pub const PROP_CACHE_BUFFERING_STATE: &'static str = "cache-buffering-state";
pub const PROP_PATH: &'static str = "path";
pub const PROP_PLAYLIST_POS: &'static str = "playlist-pos";
pub const OPT_HTTP_HEADER_FIELDS: &'static str = "http-header-fields";

/// The properties the engine observes.
pub open spec fn spec_observed_properties() -> Seq<Seq<char>> {
    seq![
        "time-pos"@, "duration"@, "pause"@, "core-idle"@, "eof-reached"@, "audio-params/format"@,
        "audio-params/samplerate"@, "audio-params/channel-count"@, "audio-bitrate"@, "audio-codec-name"@,
        "cache-buffering-state"@, "volume"@, "mute"@, "path"@, "playlist-pos"@,
    ]
}

/// Every property the engine observes, each named once.
pub fn observed_properties() -> (r: Vec<&'static str>)
    ensures
        r@.map_values(|s: &'static str| s@) == spec_observed_properties(),
        forall|i: int, j: int| 0 <= i < j < r@.len() ==> r@[i]@ != r@[j]@,
{
    let v: Vec<&'static str> = vec![
        "time-pos", "duration", "pause", "core-idle", "eof-reached", "audio-params/format",
        "audio-params/samplerate", "audio-params/channel-count", "audio-bitrate", "audio-codec-name",
        "cache-buffering-state", "volume", "mute", "path", "playlist-pos",
    ];
    proof {
        reveal_strlit("time-pos");
        reveal_strlit("duration");
        reveal_strlit("pause");
        reveal_strlit("core-idle");
        reveal_strlit("eof-reached");
        reveal_strlit("audio-params/format");
        reveal_strlit("audio-params/samplerate");
        reveal_strlit("audio-params/channel-count");
        reveal_strlit("audio-bitrate");
        reveal_strlit("audio-codec-name");
        reveal_strlit("cache-buffering-state");
        reveal_strlit("volume");
        reveal_strlit("mute");
        reveal_strlit("path");
        reveal_strlit("playlist-pos");
    }
    assert(v@.map_values(|s: &'static str| s@) =~= spec_observed_properties());
    assert forall|i: int, j: int| 0 <= i < j < v@.len() implies v@[i]@ != v@[j]@ by {
        let a = v@[i]@;
        let b = v@[j]@;
        if a == b {
            assert(a.len() == b.len());
            assert(a[0] == b[0]);
            assert(a[a.len() - 1] == b[b.len() - 1]);
        }
    }
    v
}

/// The integer bit depth of the player's sample format, where it has one worth showing.
pub open spec fn spec_parse_bit_depth(f: Seq<char>) -> Option<u8> {
    if f == "u8"@ {
        Some(8)
    } else if f == "s16"@ || f == "s16p"@ {
        Some(16)
    } else if f == "s32"@ || f == "s32p"@ {
        Some(32)
    } else {
        None
    }
}

pub fn parse_bit_depth(mpv_sample_format: &str) -> (r: Option<u8>)
    ensures
        r == spec_parse_bit_depth(mpv_sample_format@),
{
    if str_eq(mpv_sample_format, "u8") {
        Some(8)
    } else if str_eq(mpv_sample_format, "s16") || str_eq(mpv_sample_format, "s16p") {
        Some(16)
    } else if str_eq(mpv_sample_format, "s32") || str_eq(mpv_sample_format, "s32p") {
        Some(32)
    } else {
        None
    }
}

/// The driver of a raw device id: what comes before its first `/`, or `auto` if it has none.
pub open spec fn spec_device_driver(raw: Seq<char>) -> Seq<char> {
    match first_index_of(raw, '/') {
        Some(i) => raw.take(i),
        None => "auto"@,
    }
}

/// Splits a raw device id like `alsa/hw:0,0` into (driver, id); the id is the raw string.
pub fn parse_device_id(raw: &str) -> (r: (String, String))
    ensures
        r.0@ == spec_device_driver(raw@),
        r.1@ == raw@,
{
    let v = chars_of(raw);
    match find_char(&v, '/') {
        Some(i) => {
            proof {
                crate::text::lemma_first_index_of(v@, '/');
            }
            let d = slice_vec(&v, 0, i);
            assert(d@ =~= v@.take(i as int));
            (string_from_chars(&d), raw.to_string())
        },
        None => ("auto".to_string(), raw.to_string()),
    }
}

/// A header carrying a line break, in its name or its value.
pub open spec fn has_newline(s: Seq<char>) -> bool {
    has_char(s, '\n') || has_char(s, '\r')
}

/// `Name: Value` of each header without a line break, comma-joined.
pub open spec fn header_body(h: Seq<(Seq<char>, Seq<char>)>) -> Seq<char>
    decreases h.len(),
{
    if h.len() == 0 {
        Seq::empty()
    } else {
        let r = header_body(h.drop_last());
        let (n, v) = h.last();
        if has_newline(n) || has_newline(v) {
            r
        } else if r.len() == 0 && !has_any_entry(h.drop_last()) {
            n + ": "@ + v
        } else {
            r + ","@ + n + ": "@ + v
        }
    }
}

/// Whether some header has no line break.
pub open spec fn has_any_entry(h: Seq<(Seq<char>, Seq<char>)>) -> bool {
    exists|i: int| 0 <= i < h.len() && !has_newline(#[trigger] h[i].0) && !has_newline(h[i].1)
}

/// The headers as the player's length-prefixed literal `%n%<body>`, `n` the body's length in
/// bytes; nothing when no header is usable (the option must then be left out).
pub open spec fn spec_encode_headers(h: Seq<(Seq<char>, Seq<char>)>, body_bytes: nat) -> Option<Seq<char>> {
    if !has_any_entry(h) {
        None
    } else {
        Some("%"@ + decimal_string(body_bytes) + "%"@ + header_body(h))
    }
}

/// The UTF-8 length of a string, in bytes.
pub open spec fn utf8_len(s: Seq<char>) -> nat
    decreases s.len(),
{
    if s.len() == 0 {
        0
    } else {
        let c = s.last() as u32;
        utf8_len(s.drop_last()) + if c < 0x80 { 1nat } else if c < 0x800 { 2nat } else if c < 0x10000 { 3nat } else { 4nat }
    }
}

fn utf8_len_chars(v: &Vec<char>) -> (r: usize)
    requires
        v@.len() <= usize::MAX / 4,
    ensures
        r == utf8_len(v@),
{
    let mut n: usize = 0;
    let mut i: usize = 0;
    while i < v.len()
        invariant
            i <= v@.len(),
            v@.len() <= usize::MAX / 4,
            n == utf8_len(v@.take(i as int)),
            n <= 4 * i,
        decreases v@.len() - i,
    {
        let ghost t = v@.take(i + 1);
        assert(t.drop_last() =~= v@.take(i as int));
        assert(t.last() == v@[i as int]);
        let c = v[i] as u32;
        let w: usize = if c < 0x80 { 1 } else if c < 0x800 { 2 } else if c < 0x10000 { 3 } else { 4 };
        n = n + w;
        i = i + 1;
    }
    assert(v@.take(v@.len() as int) =~= v@);
    n
}

/// The pairs of a header list as plain text values.
pub open spec fn pairs_text(h: Seq<(String, String)>) -> Seq<(Seq<char>, Seq<char>)> {
    h.map_values(|p: (String, String)| (p.0@, p.1@))
}

/// `Name: Value` per header, comma-joined, wrapped in the player's `%n%` length-prefixed
/// literal, so that commas, quotes and spaces in a value need no escaping. A header whose name
/// or value holds a line break is dropped. `None` for an empty result.
pub fn encode_headers(headers: &[(String, String)]) -> (r: Option<String>)
    requires
        header_body(pairs_text(headers@)).len() <= usize::MAX / 4,
    ensures
        r matches Some(s) ==> spec_encode_headers(pairs_text(headers@), utf8_len(header_body(pairs_text(headers@)))) == Some(s@),
        r is None <==> !has_any_entry(pairs_text(headers@)),
{
    let ghost h = pairs_text(headers@);
    let mut body: Vec<char> = Vec::new();
    let mut any = false;
    let mut i: usize = 0;
    while i < headers.len()
        invariant
            i <= headers@.len(),
            h == pairs_text(headers@),
            header_body(h).len() <= usize::MAX / 4,
            body@ == header_body(h.take(i as int)),
            any == has_any_entry(h.take(i as int)),
        decreases headers@.len() - i,
    {
        let ghost t = h.take(i + 1);
        assert(t.drop_last() =~= h.take(i as int));
        assert(t.last() == h[i as int]);
        proof {
            lemma_body_len_mono(h, i + 1);
        }
        let name = chars_of(headers[i].0.as_str());
        let value = chars_of(headers[i].1.as_str());
        let bad = contains_char(&name, '\n') || contains_char(&name, '\r') || contains_char(&value, '\n') || contains_char(&value, '\r');
        if !bad {
            if any {
                body.push(',');
            }
            append_chars(&mut body, &name);
            body.push(':');
            body.push(' ');
            append_chars(&mut body, &value);
            proof {
                reveal_strlit(": ");
                reveal_strlit(",");
                let prev = header_body(h.take(i as int));
                if any {
                    assert(body@ =~= prev + ","@ + name@ + ": "@ + value@);
                } else {
                    assert(prev.len() == 0 || has_any_entry(h.take(i as int))) by {
                        lemma_body_empty_without_entry(h.take(i as int));
                    }
                    assert(body@ =~= name@ + ": "@ + value@);
                }
                assert(has_any_entry(t)) by {
                    assert(!has_newline(t[i as int].0) && !has_newline(t[i as int].1));
                }
            }
            any = true;
        } else {
            proof {
                assert forall|k: int| 0 <= k < t.len() && !has_newline(#[trigger] t[k].0) && !has_newline(t[k].1) implies k < i by {}
                if has_any_entry(t) {
                    let k = choose|k: int| 0 <= k < t.len() && !has_newline(#[trigger] t[k].0) && !has_newline(t[k].1);
                    assert(h.take(i as int)[k] == t[k]);
                }
                if has_any_entry(h.take(i as int)) {
                    let k = choose|k: int| 0 <= k < i && !has_newline(#[trigger] h.take(i as int)[k].0) && !has_newline(h.take(i as int)[k].1);
                    assert(t[k] == h.take(i as int)[k]);
                }
            }
        }
        i = i + 1;
    }
    assert(h.take(headers@.len() as int) =~= h);
    if !any {
        return None;
    }
    let n = utf8_len_chars(&body);
    let mut out: Vec<char> = Vec::new();
    out.push('%');
    let d = u64_to_chars(n as u64);
    append_chars(&mut out, &d);
    out.push('%');
    append_chars(&mut out, &body);
    proof {
        reveal_strlit("%");
        assert(out@ =~= "%"@ + decimal_string(n as nat) + "%"@ + body@);
    }
    Some(string_from_chars(&out))
}

proof fn lemma_body_len_mono(h: Seq<(Seq<char>, Seq<char>)>, i: int)
    requires
        0 <= i <= h.len(),
    ensures
        header_body(h.take(i)).len() <= header_body(h).len(),
    decreases h.len() - i,
{
    if i < h.len() {
        lemma_body_len_mono(h, i + 1);
        let t = h.take(i + 1);
        assert(t.drop_last() =~= h.take(i));
    } else {
        assert(h.take(i) =~= h);
    }
}

proof fn lemma_body_empty_without_entry(h: Seq<(Seq<char>, Seq<char>)>)
    ensures
        !has_any_entry(h) ==> header_body(h).len() == 0,
    decreases h.len(),
{
    if h.len() > 0 {
        let p = h.drop_last();
        if !has_any_entry(h) {
            assert forall|k: int| 0 <= k < p.len() && !has_newline(#[trigger] p[k].0) implies has_newline(p[k].1) by {
                assert(h[k] == p[k]);
            }
            lemma_body_empty_without_entry(p);
            assert(h[h.len() - 1] == h.last());
        }
    }
}

// ------------------------------------------------------------------ property translation

/// A property's new value, for the properties whose values are text, integers or flags.
#[derive(Debug, Clone)]
pub enum PropertyValue {
    Str(String),
    Int(i64),
    Flag(bool),
}

/// Why the player finished a file.
#[derive(Debug, Clone, Copy, PartialEq, Eq, Structural)]
pub enum EndFileReason {
    Eof,
    Stop,
    Quit,
    Error,
    Other,
}

/// A decoded format as plain values: codec, sample rate, bit depth, channels, bitrate.
pub open spec fn format_view(f: AudioFormat) -> (CodecView, u32, Option<u8>, u8, Option<u32>) {
    (f.codec@, f.sample_rate_hz, f.bit_depth, f.channels, f.bitrate_bps)
}

fn same_codec(a: &Codec, b: &Codec) -> (r: bool)
    ensures
        r == (a@ == b@),
{
    match (a, b) {
        (Codec::Flac, Codec::Flac) => true,
        (Codec::Alac, Codec::Alac) => true,
        (Codec::Mp3, Codec::Mp3) => true,
        (Codec::Aac, Codec::Aac) => true,
        (Codec::Opus, Codec::Opus) => true,
        (Codec::Vorbis, Codec::Vorbis) => true,
        (Codec::Wav, Codec::Wav) => true,
        (Codec::Other(x), Codec::Other(y)) => str_eq(x.as_str(), y.as_str()),
        _ => false,
    }
}

fn same_format(a: &AudioFormat, b: &AudioFormat) -> (r: bool)
    ensures
        r == (format_view(*a) == format_view(*b)),
{
    same_codec(&a.codec, &b.codec) && a.sample_rate_hz == b.sample_rate_hz && a.bit_depth == b.bit_depth
        && a.channels == b.channels && a.bitrate_bps == b.bitrate_bps
}

fn copy_format(f: &AudioFormat) -> (r: AudioFormat)
    ensures
        format_view(r) == format_view(*f),
{
    let codec = match &f.codec {
        Codec::Flac => Codec::Flac,
        Codec::Alac => Codec::Alac,
        Codec::Mp3 => Codec::Mp3,
        Codec::Aac => Codec::Aac,
        Codec::Opus => Codec::Opus,
        Codec::Vorbis => Codec::Vorbis,
        Codec::Wav => Codec::Wav,
        Codec::Other(s) => Codec::Other(s.clone()),
    };
    AudioFormat { codec, sample_rate_hz: f.sample_rate_hz, bit_depth: f.bit_depth, channels: f.channels, bitrate_bps: f.bitrate_bps }
}

/// The "compare against the last emitted value" state the player's property stream needs, and
/// what a format is assembled from. The position and duration (floating-point seconds) and the
/// volume and bitrate conversions are handled where the player's values arrive; here they come
/// in as integers.
#[derive(Debug)]
pub struct PropertyTranslator {
    pub paused: bool,
    pub core_idle: bool,
    pub last_status: Option<PlayStatus>,
    pub codec_name: String,
    pub sample_format: String,
    pub sample_rate_hz: u32,
    pub channels: u8,
    pub bitrate_bps: Option<u32>,
    pub last_format: Option<AudioFormat>,
    pub last_buffering: Option<u8>,
    pub volume: u8,
    pub muted: bool,
    pub last_volume_muted: Option<(u8, bool)>,
    /// The most recent `path`: the URL a load failure names, redacted.
    pub current_path: String,
    /// Only a change from a known playlist position counts; the first report is a baseline.
    pub last_playlist_pos: Option<i64>,
}

/// Paused wins, then an idle core means buffering, else playing.
pub open spec fn spec_derive_status(paused: bool, core_idle: bool) -> PlayStatus {
    if paused {
        PlayStatus::Paused
    } else if core_idle {
        PlayStatus::Buffering
    } else {
        PlayStatus::Playing
    }
}

/// The format the translator's fields describe.
pub open spec fn current_format(t: PropertyTranslator) -> (CodecView, u32, Option<u8>, u8, Option<u32>) {
    (codec_of(t.codec_name@), t.sample_rate_hz, spec_parse_bit_depth(t.sample_format@), t.channels, t.bitrate_bps)
}

/// Everything but the status bookkeeping is unchanged.
pub open spec fn same_but_status(a: PropertyTranslator, b: PropertyTranslator) -> bool {
    &&& a.codec_name@ == b.codec_name@ && a.sample_format@ == b.sample_format@
    &&& a.sample_rate_hz == b.sample_rate_hz && a.channels == b.channels && a.bitrate_bps == b.bitrate_bps
    &&& a.last_buffering == b.last_buffering && a.volume == b.volume && a.muted == b.muted
    &&& a.last_volume_muted == b.last_volume_muted && a.current_path@ == b.current_path@
    &&& a.last_playlist_pos == b.last_playlist_pos
    &&& (a.last_format is Some <==> b.last_format is Some)
    &&& (a.last_format is Some ==> format_view(a.last_format->0) == format_view(b.last_format->0))
}

/// What announcing status `st` gives after `last` was announced: nothing when it is the same.
pub open spec fn status_event(last: Option<PlayStatus>, st: PlayStatus) -> Option<AudioEvent> {
    if last == Some(st) { None } else { Some(AudioEvent::StatusChanged(st)) }
}

/// `r` is what announcing the format of `t` gives: nothing before a sample rate is known or when
/// it equals the last format announced, else that format.
pub open spec fn format_event_ok(t: PropertyTranslator, r: Option<AudioEvent>) -> bool {
    let f = current_format(t);
    if t.sample_rate_hz == 0 || (t.last_format matches Some(l) && format_view(l) == f) {
        r is None
    } else {
        r matches Some(AudioEvent::Format(g)) && format_view(g) == f
    }
}

/// A buffering percentage as the player reports it, clamped to 0..=100.
pub open spec fn clamp_percent(percent: i64) -> u8 {
    if percent < 0 { 0u8 } else if percent > 100 { 100u8 } else { percent as u8 }
}

/// What announcing the volume pair `cur` gives after `last`: nothing when it is the same.
pub open spec fn volume_event(last: Option<(u8, bool)>, cur: (u8, bool)) -> Option<AudioEvent> {
    if last == Some(cur) { None } else { Some(AudioEvent::VolumeChanged { volume: cur.0, muted: cur.1 }) }
}

/// What a move to playlist entry `pos` gives after `last`: a natural end only on a forward move
/// from a real entry.
pub open spec fn playlist_event(last: Option<i64>, pos: i64) -> Option<AudioEvent> {
    match last {
        Some(l) => if l >= 0 && pos > l { Some(AudioEvent::TrackEnded { natural: true }) } else { None },
        None => None,
    }
}

/// The property names the translator reads.
pub open spec fn known_property(name: Seq<char>) -> bool {
    name == "pause"@ || name == "core-idle"@ || name == "audio-params/format"@ || name == "audio-params/samplerate"@
        || name == "audio-params/channel-count"@ || name == "audio-codec-name"@ || name == "cache-buffering-state"@
        || name == "mute"@ || name == "path"@ || name == "playlist-pos"@
}

/// A flag property's value; anything else reads as false.
pub open spec fn flag_of(v: PropertyValue) -> bool {
    v matches PropertyValue::Flag(b) && b
}

/// An integer property's value; anything else reads as zero.
pub open spec fn int_of(v: PropertyValue) -> i64 {
    match v { PropertyValue::Int(n) => n, _ => 0i64 }
}

impl PropertyTranslator {
    /// Nothing known yet.
    pub fn new() -> (r: PropertyTranslator)
        ensures
            !r.paused && !r.core_idle && r.last_status is None && r.codec_name@.len() == 0
                && r.sample_format@.len() == 0 && r.sample_rate_hz == 0 && r.channels == 0 && r.bitrate_bps is None
                && r.last_format is None && r.last_buffering is None && r.volume == 0 && !r.muted
                && r.last_volume_muted is None && r.current_path@.len() == 0 && r.last_playlist_pos is None,
    {
        PropertyTranslator {
            paused: false,
            core_idle: false,
            last_status: None,
            codec_name: String::new(),
            sample_format: String::new(),
            sample_rate_hz: 0,
            channels: 0,
            bitrate_bps: None,
            last_format: None,
            last_buffering: None,
            volume: 0,
            muted: false,
            last_volume_muted: None,
            current_path: String::new(),
            last_playlist_pos: None,
        }
    }

    /// The status the flags give, announced only when it differs from the last one announced.
    fn maybe_emit_status(&mut self) -> (r: Option<AudioEvent>)
        ensures
            final(self).paused == old(self).paused && final(self).core_idle == old(self).core_idle,
            same_but_status(*old(self), *final(self)),
            ({
                let st = spec_derive_status(old(self).paused, old(self).core_idle);
                if old(self).last_status == Some(st) {
                    r is None && final(self).last_status == old(self).last_status
                } else {
                    r matches Some(AudioEvent::StatusChanged(s)) && s == st && final(self).last_status == Some(st)
                }
            }),
    {
        let status = if self.paused {
            PlayStatus::Paused
        } else if self.core_idle {
            PlayStatus::Buffering
        } else {
            PlayStatus::Playing
        };
        if self.last_status == Some(status) {
            return None;
        }
        self.last_status = Some(status);
        Some(AudioEvent::StatusChanged(status))
    }

    /// The format assembled so far, announced only once a sample rate is known and only when it
    /// differs from the last one announced.
    fn maybe_emit_format(&mut self) -> (r: Option<AudioEvent>)
        ensures
            *final(self) == (PropertyTranslator { last_format: final(self).last_format, ..*old(self) }),
            format_event_ok(*old(self), r),
            final(self).paused == old(self).paused && final(self).core_idle == old(self).core_idle,
            final(self).last_status == old(self).last_status,
            final(self).codec_name@ == old(self).codec_name@ && final(self).sample_format@ == old(self).sample_format@,
            final(self).sample_rate_hz == old(self).sample_rate_hz && final(self).channels == old(self).channels,
            final(self).bitrate_bps == old(self).bitrate_bps,
            final(self).last_buffering == old(self).last_buffering && final(self).volume == old(self).volume,
            final(self).muted == old(self).muted && final(self).last_volume_muted == old(self).last_volume_muted,
            final(self).current_path@ == old(self).current_path@ && final(self).last_playlist_pos == old(self).last_playlist_pos,
            ({
                let f = current_format(*old(self));
                if old(self).sample_rate_hz == 0 || (old(self).last_format matches Some(l) && format_view(l) == f) {
                    r is None && final(self).last_format == old(self).last_format
                } else {
                    &&& r matches Some(AudioEvent::Format(g)) && format_view(g) == f
                    &&& final(self).last_format matches Some(l) && format_view(l) == f
                }
            }),
    {
        if self.sample_rate_hz == 0 {
            return None;
        }
        let format = AudioFormat {
            codec: Codec::from_str_lossy(self.codec_name.as_str()),
            sample_rate_hz: self.sample_rate_hz,
            bit_depth: parse_bit_depth(self.sample_format.as_str()),
            channels: self.channels,
            bitrate_bps: self.bitrate_bps,
        };
        match &self.last_format {
            Some(l) => {
                if same_format(l, &format) {
                    return None;
                }
            },
            None => {},
        }
        self.last_format = Some(copy_format(&format));
        Some(AudioEvent::Format(format))
    }

    /// The volume and mute pair, announced only when it changed.
    fn maybe_emit_volume(&mut self) -> (r: Option<AudioEvent>)
        ensures
            *final(self) == (PropertyTranslator { last_volume_muted: final(self).last_volume_muted, ..*old(self) }),
            ({
                let cur = (old(self).volume, old(self).muted);
                if old(self).last_volume_muted == Some(cur) {
                    r is None && final(self).last_volume_muted == old(self).last_volume_muted
                } else {
                    r matches Some(AudioEvent::VolumeChanged { volume, muted }) && volume == cur.0 && muted == cur.1
                        && final(self).last_volume_muted == Some(cur)
                }
            }),
    {
        let current = (self.volume, self.muted);
        if self.last_volume_muted == Some(current) {
            return None;
        }
        self.last_volume_muted = Some(current);
        Some(AudioEvent::VolumeChanged { volume: self.volume, muted: self.muted })
    }

    /// A new pause flag; the status, if it changed.
    pub fn set_paused(&mut self, paused: bool) -> (r: Option<AudioEvent>)
        ensures
            final(self).paused == paused && final(self).core_idle == old(self).core_idle,
            same_but_status(*old(self), *final(self)),
            ({
                let st = spec_derive_status(paused, old(self).core_idle);
                if old(self).last_status == Some(st) {
                    r is None && final(self).last_status == old(self).last_status
                } else {
                    r matches Some(AudioEvent::StatusChanged(s)) && s == st && final(self).last_status == Some(st)
                }
            }),
    {
        self.paused = paused;
        self.maybe_emit_status()
    }

    /// A new core-idle flag; the status, if it changed.
    pub fn set_core_idle(&mut self, idle: bool) -> (r: Option<AudioEvent>)
        ensures
            final(self).core_idle == idle && final(self).paused == old(self).paused,
            same_but_status(*old(self), *final(self)),
            ({
                let st = spec_derive_status(old(self).paused, idle);
                if old(self).last_status == Some(st) {
                    r is None && final(self).last_status == old(self).last_status
                } else {
                    r matches Some(AudioEvent::StatusChanged(s)) && s == st && final(self).last_status == Some(st)
                }
            }),
    {
        self.core_idle = idle;
        self.maybe_emit_status()
    }

    /// A new buffering percentage, clamped to 0..=100, announced only when it changed.
    pub fn on_buffering(&mut self, percent: i64) -> (r: Option<AudioEvent>)
        ensures
            *final(self) == (PropertyTranslator { last_buffering: final(self).last_buffering, ..*old(self) }),
            ({
                let p: u8 = if percent < 0 { 0u8 } else if percent > 100 { 100u8 } else { percent as u8 };
                if old(self).last_buffering == Some(p) {
                    r is None && final(self).last_buffering == old(self).last_buffering
                } else {
                    r matches Some(AudioEvent::Buffering(q)) && q == p && final(self).last_buffering == Some(p)
                }
            }),
    {
        let p: u8 = if percent < 0 { 0 } else if percent > 100 { 100 } else { percent as u8 };
        if self.last_buffering == Some(p) {
            return None;
        }
        self.last_buffering = Some(p);
        Some(AudioEvent::Buffering(p))
    }

    /// A new volume (already rounded and clamped to 0..=100); the pair, if it changed.
    pub fn set_volume(&mut self, volume: u8) -> (r: Option<AudioEvent>)
        ensures
            final(self).volume == volume && final(self).muted == old(self).muted,
            *final(self) == (PropertyTranslator { volume, last_volume_muted: final(self).last_volume_muted, ..*old(self) }),
            ({
                let cur = (volume, old(self).muted);
                if old(self).last_volume_muted == Some(cur) {
                    r is None && final(self).last_volume_muted == old(self).last_volume_muted
                } else {
                    r matches Some(AudioEvent::VolumeChanged { volume: v, muted: m }) && v == cur.0 && m == cur.1
                        && final(self).last_volume_muted == Some(cur)
                }
            }),
    {
        self.volume = volume;
        self.maybe_emit_volume()
    }

    /// A new mute flag; the pair, if it changed.
    pub fn set_mute(&mut self, muted: bool) -> (r: Option<AudioEvent>)
        ensures
            final(self).muted == muted && final(self).volume == old(self).volume,
            *final(self) == (PropertyTranslator { muted, last_volume_muted: final(self).last_volume_muted, ..*old(self) }),
            ({
                let cur = (old(self).volume, muted);
                if old(self).last_volume_muted == Some(cur) {
                    r is None && final(self).last_volume_muted == old(self).last_volume_muted
                } else {
                    r matches Some(AudioEvent::VolumeChanged { volume: v, muted: m }) && v == cur.0 && m == cur.1
                        && final(self).last_volume_muted == Some(cur)
                }
            }),
    {
        self.muted = muted;
        self.maybe_emit_volume()
    }

    /// A new bitrate (`None` when the player reports none); the format, if it changed.
    pub fn set_bitrate(&mut self, bps: Option<u32>) -> (r: Option<AudioEvent>)
        ensures
            final(self).bitrate_bps == bps,
            *final(self) == (PropertyTranslator { bitrate_bps: bps, last_format: final(self).last_format, ..*old(self) }),
            format_event_ok(PropertyTranslator { last_format: old(self).last_format, ..*final(self) }, r),
            r is None ==> final(self).last_format == old(self).last_format,
            r is Some ==> (final(self).last_format matches Some(l) && format_view(l) == current_format(*final(self))),
    {
        self.bitrate_bps = bps;
        self.maybe_emit_format()
    }

    /// A move between playlist entries: only a forward move from a real entry (not from, or to,
    /// "nothing current") is a track finishing naturally.
    pub fn on_playlist_pos(&mut self, pos: i64) -> (r: Option<AudioEvent>)
        ensures
            final(self).last_playlist_pos == Some(pos),
            *final(self) == (PropertyTranslator { last_playlist_pos: Some(pos), ..*old(self) }),
            match old(self).last_playlist_pos {
                Some(last) if last >= 0 && pos > last => r matches Some(AudioEvent::TrackEnded { natural }) && natural,
                _ => r is None,
            },
    {
        let last = self.last_playlist_pos;
        self.last_playlist_pos = Some(pos);
        match last {
            Some(l) => if l >= 0 && pos > l {
                Some(AudioEvent::TrackEnded { natural: true })
            } else {
                None
            },
            None => None,
        }
    }

    /// How a file ended: at its end is natural; a stop or quit is not; an error is a load
    /// failure naming the (redacted) URL; anything else says nothing.
    pub fn on_end_file(&self, reason: EndFileReason) -> (r: Option<AudioEvent>)
        ensures
            match reason {
                EndFileReason::Eof => r matches Some(AudioEvent::TrackEnded { natural }) && natural,
                EndFileReason::Stop | EndFileReason::Quit => r matches Some(AudioEvent::TrackEnded { natural }) && !natural,
                EndFileReason::Error => r matches Some(AudioEvent::Error(AudioError::Load { url_redacted, reason })) && url_redacted@ == spec_redact_api_key(self.current_path@) && reason@ == "playback error"@,
                EndFileReason::Other => r is None,
            },
    {
        match reason {
            EndFileReason::Eof => Some(AudioEvent::TrackEnded { natural: true }),
            EndFileReason::Stop | EndFileReason::Quit => Some(AudioEvent::TrackEnded { natural: false }),
            EndFileReason::Error => Some(AudioEvent::Error(AudioError::Load {
                url_redacted: redact_api_key(self.current_path.as_str()),
                reason: "playback error".to_string(),
            })),
            EndFileReason::Other => None,
        }
    }

    /// A change of one of the text-, integer- or flag-valued properties: the state it updates
    /// and the event it gives, if any. A value of the wrong kind reads as empty, zero or false,
    /// and an unknown name changes nothing.
    pub fn on_property_change(&mut self, name: &str, value: PropertyValue) -> (r: Option<AudioEvent>)
        ensures
            name@ == "pause"@ ==> final(self).paused == (value matches PropertyValue::Flag(b) && b),
            name@ == "core-idle"@ ==> final(self).core_idle == (value matches PropertyValue::Flag(b) && b),
            name@ == "mute"@ ==> final(self).muted == (value matches PropertyValue::Flag(b) && b),
            name@ == "path"@ ==> final(self).current_path@ == (match value { PropertyValue::Str(s) => s@, _ => Seq::empty() }),
            name@ == "audio-codec-name"@ ==> final(self).codec_name@ == (match value { PropertyValue::Str(s) => s@, _ => Seq::empty() }),
            name@ == "audio-params/format"@ ==> final(self).sample_format@ == (match value { PropertyValue::Str(s) => s@, _ => Seq::empty() }),
            name@ == "audio-params/samplerate"@ ==> final(self).sample_rate_hz as int == (match value { PropertyValue::Int(n) => if n < 0 { 0 } else { n % 0x1_0000_0000 }, _ => 0 }),
            name@ == "audio-params/channel-count"@ ==> final(self).channels as int == (match value { PropertyValue::Int(n) => if n < 0 { 0 } else if n > 255 { 255 } else { n as int }, _ => 0 }),
            name@ == "playlist-pos"@ ==> final(self).last_playlist_pos == Some(match value { PropertyValue::Int(n) => n, _ => 0i64 }),
            name@ == "pause"@ ==> r == status_event(old(self).last_status, spec_derive_status(flag_of(value), old(self).core_idle))
                && final(self).last_status == (if r is None { old(self).last_status } else { Some(spec_derive_status(flag_of(value), old(self).core_idle)) })
                && final(self).core_idle == old(self).core_idle && same_but_status(*old(self), *final(self)),
            name@ == "core-idle"@ ==> r == status_event(old(self).last_status, spec_derive_status(old(self).paused, flag_of(value)))
                && final(self).last_status == (if r is None { old(self).last_status } else { Some(spec_derive_status(old(self).paused, flag_of(value))) })
                && final(self).paused == old(self).paused && same_but_status(*old(self), *final(self)),
            name@ == "audio-params/format"@ || name@ == "audio-params/samplerate"@ || name@ == "audio-params/channel-count"@
                || name@ == "audio-codec-name"@ ==> format_event_ok(PropertyTranslator { last_format: old(self).last_format, ..*final(self) }, r),
            name@ == "audio-params/format"@ ==> final(self).codec_name@ == old(self).codec_name@ && final(self).sample_rate_hz == old(self).sample_rate_hz
                && final(self).channels == old(self).channels && final(self).bitrate_bps == old(self).bitrate_bps,
            name@ == "audio-params/samplerate"@ ==> final(self).codec_name@ == old(self).codec_name@ && final(self).sample_format@ == old(self).sample_format@
                && final(self).channels == old(self).channels && final(self).bitrate_bps == old(self).bitrate_bps,
            name@ == "audio-params/channel-count"@ ==> final(self).codec_name@ == old(self).codec_name@ && final(self).sample_format@ == old(self).sample_format@
                && final(self).sample_rate_hz == old(self).sample_rate_hz && final(self).bitrate_bps == old(self).bitrate_bps,
            name@ == "audio-codec-name"@ ==> final(self).sample_format@ == old(self).sample_format@ && final(self).sample_rate_hz == old(self).sample_rate_hz
                && final(self).channels == old(self).channels && final(self).bitrate_bps == old(self).bitrate_bps,
            name@ == "cache-buffering-state"@ ==> (if old(self).last_buffering == Some(clamp_percent(int_of(value))) {
                    r is None && final(self).last_buffering == old(self).last_buffering
                } else {
                    r == Some(AudioEvent::Buffering(clamp_percent(int_of(value)))) && final(self).last_buffering == Some(clamp_percent(int_of(value)))
                }),
            name@ == "mute"@ ==> r == volume_event(old(self).last_volume_muted, (old(self).volume, flag_of(value)))
                && final(self).volume == old(self).volume
                && final(self).last_volume_muted == Some((old(self).volume, flag_of(value))),
            name@ == "audio-params/format"@ || name@ == "audio-params/samplerate"@ || name@ == "audio-params/channel-count"@
                || name@ == "audio-codec-name"@ ==> (if r is None {
                    final(self).last_format == old(self).last_format
                } else {
                    final(self).last_format matches Some(l) && format_view(l) == current_format(*final(self))
                }),
            name@ == "path"@ ==> r is None && *final(self) == (PropertyTranslator { current_path: final(self).current_path, ..*old(self) }),
            name@ == "mute"@ ==> *final(self) == (PropertyTranslator { muted: final(self).muted, last_volume_muted: final(self).last_volume_muted, ..*old(self) }),
            name@ == "cache-buffering-state"@ ==> *final(self) == (PropertyTranslator { last_buffering: final(self).last_buffering, ..*old(self) }),
            name@ == "playlist-pos"@ ==> *final(self) == (PropertyTranslator { last_playlist_pos: final(self).last_playlist_pos, ..*old(self) }),
            name@ == "playlist-pos"@ ==> r == playlist_event(old(self).last_playlist_pos, int_of(value)),
            !known_property(name@) ==> r is None && *final(self) == *old(self),
    {
        proof {
            reveal_strlit("pause");
            reveal_strlit("core-idle");
            reveal_strlit("audio-params/format");
            reveal_strlit("audio-params/samplerate");
            reveal_strlit("audio-params/channel-count");
            reveal_strlit("audio-codec-name");
            reveal_strlit("cache-buffering-state");
            reveal_strlit("mute");
            reveal_strlit("path");
            reveal_strlit("playlist-pos");
            assert("pause"@.len() == 5 && "pause"@[0] == 'p' && "pause"@[4] == 'e');
            assert("core-idle"@.len() == 9 && "core-idle"@[0] == 'c' && "core-idle"@[8] == 'e');
            assert("audio-params/format"@.len() == 19 && "audio-params/format"@[0] == 'a' && "audio-params/format"@[18] == 't');
            assert("audio-params/samplerate"@.len() == 23 && "audio-params/samplerate"@[0] == 'a' && "audio-params/samplerate"@[22] == 'e');
            assert("audio-params/channel-count"@.len() == 26 && "audio-params/channel-count"@[0] == 'a' && "audio-params/channel-count"@[25] == 't');
            assert("audio-codec-name"@.len() == 16 && "audio-codec-name"@[0] == 'a' && "audio-codec-name"@[15] == 'e');
            assert("cache-buffering-state"@.len() == 21 && "cache-buffering-state"@[0] == 'c' && "cache-buffering-state"@[20] == 'e');
            assert("mute"@.len() == 4 && "mute"@[0] == 'm' && "mute"@[3] == 'e');
            assert("path"@.len() == 4 && "path"@[0] == 'p' && "path"@[3] == 'h');
            assert("playlist-pos"@.len() == 12 && "playlist-pos"@[0] == 'p' && "playlist-pos"@[11] == 's');
        }
        let as_str = |v: PropertyValue| -> (s: String)
            ensures
                s@ == (match v { PropertyValue::Str(x) => x@, _ => Seq::empty() }),
        {
            match v {
                PropertyValue::Str(s) => s,
                _ => String::new(),
            }
        };
        let flag = match &value {
            PropertyValue::Flag(b) => *b,
            _ => false,
        };
        let num: i64 = match &value {
            PropertyValue::Int(n) => *n,
            _ => 0,
        };
        if str_eq(name, "pause") {
            self.set_paused(flag)
        } else if str_eq(name, "core-idle") {
            self.set_core_idle(flag)
        } else if str_eq(name, "audio-params/format") {
            self.sample_format = as_str(value);
            self.maybe_emit_format()
        } else if str_eq(name, "audio-params/samplerate") {
            let m: i64 = if num < 0 { 0 } else { num };
            self.sample_rate_hz = (m as u64 % 0x1_0000_0000) as u32;
            self.maybe_emit_format()
        } else if str_eq(name, "audio-params/channel-count") {
            self.channels = if num < 0 { 0 } else if num > 255 { 255 } else { num as u8 };
            self.maybe_emit_format()
        } else if str_eq(name, "audio-codec-name") {
            self.codec_name = as_str(value);
            self.maybe_emit_format()
        } else if str_eq(name, "cache-buffering-state") {
            self.on_buffering(num)
        } else if str_eq(name, "mute") {
            self.set_mute(flag)
        } else if str_eq(name, "path") {
            self.current_path = as_str(value);
            None
        } else if str_eq(name, "playlist-pos") {
            self.on_playlist_pos(num)
        } else {
            None
        }
    }
}

/// The last value under `key` among the pairs, if any.
pub open spec fn last_value(pairs: Seq<(Seq<char>, Seq<char>)>, key: Seq<char>) -> Option<Seq<char>>
    decreases pairs.len(),
{
    if pairs.len() == 0 {
        None
    } else if pairs.last().0 == key {
        Some(pairs.last().1)
    } else {
        last_value(pairs.drop_last(), key)
    }
}

/// The pairs as plain text values.
pub open spec fn pairs_view(pairs: Seq<(String, String)>) -> Seq<(Seq<char>, Seq<char>)> {
    pairs.map_values(|p: (String, String)| (p.0@, p.1@))
}

/// The device one entry of mpv's `audio-device-list` describes (its string-valued fields, in
/// order): none without a `name`; the description falls back to the id.
pub open spec fn spec_device_from_pairs(pairs: Seq<(Seq<char>, Seq<char>)>) -> Option<AudioDeviceView> {
    match last_value(pairs, "name"@) {
        None => None,
        Some(raw) => Some(AudioDeviceView {
            id: raw,
            description: match last_value(pairs, "description"@) { Some(d) => d, None => raw },
            driver: spec_device_driver(raw),
        }),
    }
}

/// Reads one `audio-device-list` entry: its `name` is the raw device id (split into driver
/// and id), its `description` the label.
pub fn device_from_pairs(pairs: &Vec<(String, String)>) -> (r: Option<AudioDevice>)
    ensures
        match spec_device_from_pairs(pairs_view(pairs@)) {
            None => r is None,
            Some(v) => r matches Some(d) && d@ == v,
        },
{
    let ghost pv = pairs_view(pairs@);
    let mut name: Option<String> = None;
    let mut description: Option<String> = None;
    let mut i: usize = 0;
    while i < pairs.len()
        invariant
            i <= pairs@.len(),
            pv == pairs_view(pairs@),
            match name { Some(n) => last_value(pv.take(i as int), "name"@) == Some(n@), None => last_value(pv.take(i as int), "name"@) is None },
            match description { Some(d) => last_value(pv.take(i as int), "description"@) == Some(d@), None => last_value(pv.take(i as int), "description"@) is None },
        decreases pairs@.len() - i,
    {
        proof {
            assert(pv.take(i as int + 1).drop_last() =~= pv.take(i as int));
            assert(pv.take(i as int + 1).last() == (pairs@[i as int].0@, pairs@[i as int].1@));
        }
        let key = &pairs[i].0;
        if crate::text::str_eq(key.as_str(), "name") {
            name = Some(pairs[i].1.clone());
        } else if crate::text::str_eq(key.as_str(), "description") {
            description = Some(pairs[i].1.clone());
        }
        proof {
            reveal_strlit("name");
            reveal_strlit("description");
            assert("name"@ != "description"@) by {
                assert("name"@.len() == 4);
                assert("description"@.len() == 11);
            }
        }
        i = i + 1;
    }
    proof { assert(pv.take(i as int) =~= pv); }
    match name {
        None => None,
        Some(raw) => {
            let (driver, id) = parse_device_id(raw.as_str());
            let description = match description {
                Some(d) => d,
                None => id.clone(),
            };
            Some(AudioDevice { id, description, driver })
        },
    }
}

/// The devices the entries of `audio-device-list` describe, skipping entries without a name.
pub open spec fn spec_devices_from_maps(maps: Seq<Seq<(Seq<char>, Seq<char>)>>) -> Seq<AudioDeviceView>
    decreases maps.len(),
{
    if maps.len() == 0 {
        Seq::empty()
    } else {
        let pre = spec_devices_from_maps(maps.drop_last());
        match spec_device_from_pairs(maps.last()) {
            Some(d) => pre.push(d),
            None => pre,
        }
    }
}

/// Reads every entry of `audio-device-list`.
pub fn devices_from_maps(maps: &Vec<Vec<(String, String)>>) -> (r: Vec<AudioDevice>)
    ensures
        r@.map_values(|d: AudioDevice| d@) == spec_devices_from_maps(maps@.map_values(|m: Vec<(String, String)>| pairs_view(m@))),
{
    let ghost mv = maps@.map_values(|m: Vec<(String, String)>| pairs_view(m@));
    let mut r: Vec<AudioDevice> = Vec::new();
    let mut i: usize = 0;
    while i < maps.len()
        invariant
            i <= maps@.len(),
            mv == maps@.map_values(|m: Vec<(String, String)>| pairs_view(m@)),
            r@.map_values(|d: AudioDevice| d@) == spec_devices_from_maps(mv.take(i as int)),
        decreases maps@.len() - i,
    {
        proof {
            assert(mv.take(i as int + 1).drop_last() =~= mv.take(i as int));
            assert(mv.take(i as int + 1).last() == pairs_view(maps@[i as int]@));
        }
        let ghost before = r@.map_values(|d: AudioDevice| d@);
        match device_from_pairs(&maps[i]) {
            Some(d) => {
                r.push(d);
                assert(r@.map_values(|d: AudioDevice| d@) =~= before.push(r@.last()@));
            },
            None => {},
        }
        i = i + 1;
    }
    proof { assert(mv.take(i as int) =~= mv); }
    r
}

/// The arguments of mpv's `loadfile`: an empty options string is left out (mpv rejects it),
/// and a non-empty one comes after the playlist index `0`.
pub fn loadfile_args(url: &str, flags: &str, options: &str) -> (r: Vec<String>)
    ensures
        options@.len() == 0 ==> r@.map_values(|s: String| s@) == seq![url@, flags@],
        options@.len() > 0 ==> r@.map_values(|s: String| s@) == seq![url@, flags@, "0"@, options@],
{
    let mut r: Vec<String> = Vec::new();
    r.push(url.to_string());
    r.push(flags.to_string());
    if chars_of(options).len() > 0 {
        r.push("0".to_string());
        r.push(options.to_string());
    }
    assert(r@.map_values(|s: String| s@) =~= (if options@.len() == 0 { seq![url@, flags@] } else { seq![url@, flags@, "0"@, options@] }));
    r
}


} // verus!
