//! Where cached and downloaded files go: file names, extensions, and the sanitising of path
//! components that come from server metadata.
use crate::config::schema::{QualityProfile, TargetCodec};
use crate::model::audio_meta::{Codec, CodecView};
use crate::model::ids::{ItemId, ServerId};
use crate::model::item::Track;
use crate::model::now_playing::two_digits;
use crate::fspath::{has_prefix, join_str, joined, path_from_str, path_of, path_starts_with, spec_suffixed, suffixed};
use crate::cache::error::CacheError;
use std::path::PathBuf;
use crate::text::{
    decimal_string, ascii_lower_seq, append_chars, chars_of, eq_str, is_whitespace, spec_is_whitespace, string_from_chars,
    to_ascii_lower_chars,
};
use unicode_segmentation::UnicodeSegmentation;
use vstd::prelude::*;

verus! {

/// What a cached file is the cached copy of.
#[derive(Debug, Clone)]
pub struct CacheKey {
    pub server: ServerId,
    pub item: ItemId,
    pub profile: QualityProfile,
}

/// The file-name slug of a quality profile.
pub open spec fn spec_profile_slug(p: QualityProfile) -> Seq<char> {
    match p {
        QualityProfile::Direct => "direct"@,
        QualityProfile::TranscodeHigh => "transcode_high"@,
        QualityProfile::TranscodeMed => "transcode_med"@,
        QualityProfile::TranscodeLow => "transcode_low"@,
    }
}

/// Two quality profiles never name the same cached file for one track: the file names differ
/// in their slug, so a file fetched at one profile is never served for another.
pub proof fn lemma_profiles_never_share_a_file(name: Seq<char>, p1: QualityProfile, p2: QualityProfile, ext: Seq<char>)
    requires
        p1 != p2,
    ensures
        name + "."@ + spec_profile_slug(p1) + "."@ + ext != name + "."@ + spec_profile_slug(p2) + "."@ + ext,
{
    reveal_strlit(".");
    reveal_strlit("direct");
    reveal_strlit("transcode_high");
    reveal_strlit("transcode_med");
    reveal_strlit("transcode_low");
    let (s1, s2) = (spec_profile_slug(p1), spec_profile_slug(p2));
    let x = name + "."@ + s1 + "."@ + ext;
    let y = name + "."@ + s2 + "."@ + ext;
    if s1.len() == s2.len() {
        let at: int = name.len() as int + 11;
        assert(x[at] == s1[10]);
        assert(y[at] == s2[10]);
        assert(s1[10] != s2[10]);
    } else {
        assert(x.len() != y.len());
    }
}

pub fn profile_slug(profile: QualityProfile) -> (r: &'static str)
    ensures
        r@ == spec_profile_slug(profile),
{
    match profile {
        QualityProfile::Direct => "direct",
        QualityProfile::TranscodeHigh => "transcode_high",
        QualityProfile::TranscodeMed => "transcode_med",
        QualityProfile::TranscodeLow => "transcode_low",
    }
}

fn push_str(out: &mut Vec<char>, s: &str)
    ensures
        final(out)@ == old(out)@ + s@,
{
    let c = chars_of(s);
    append_chars(out, &c);
}

/// A cache key as plain values: server, item, profile.
pub type CacheKeyView = (Seq<char>, Seq<char>, QualityProfile);

impl View for CacheKey {
    type V = CacheKeyView;

    open spec fn view(&self) -> CacheKeyView {
        (self.server@, self.item@, self.profile)
    }
}

impl CacheKey {
    /// Same server, same item, same profile.
    pub fn same(&self, other: &CacheKey) -> (r: bool)
        ensures
            r == (self@ == other@),
    {
        self.server.same(&other.server) && self.item.same(&other.item) && self.profile == other.profile
    }

    /// A copy of the key.
    pub fn duplicate(&self) -> (r: CacheKey)
        ensures
            r@ == self@,
    {
        CacheKey {
            server: ServerId::from_str(self.server.as_str()),
            item: ItemId::from_str(self.item.as_str()),
            profile: self.profile,
        }
    }

    /// `<item>.<profile slug>.<ext>`.
    pub fn filename(&self, ext: &str) -> (r: String)
        ensures
            r@ == self.item@ + "."@ + spec_profile_slug(self.profile) + "."@ + ext@,
    {
        let mut out: Vec<char> = Vec::new();
        push_str(&mut out, self.item.as_str());
        push_str(&mut out, ".");
        push_str(&mut out, profile_slug(self.profile));
        push_str(&mut out, ".");
        push_str(&mut out, ext);
        string_from_chars(&out)
    }
}

/// The extension the bytes of a transcode to `codec` carry.
pub open spec fn spec_target_codec_extension(codec: TargetCodec) -> Seq<char> {
    match codec {
        TargetCodec::Mp3 => "mp3"@,
        TargetCodec::Aac => "m4a"@,
        TargetCodec::Opus => "opus"@,
    }
}

pub fn target_codec_extension(codec: TargetCodec) -> (r: &'static str)
    ensures
        r@ == spec_target_codec_extension(codec),
{
    match codec {
        TargetCodec::Mp3 => "mp3",
        TargetCodec::Aac => "m4a",
        TargetCodec::Opus => "opus",
    }
}

/// The extension a source file in `codec` carries; an unknown codec's own name, in ASCII lower
/// case.
pub open spec fn spec_codec_extension(codec: CodecView) -> Seq<char> {
    match codec {
        CodecView::Flac => "flac"@,
        CodecView::Alac => "m4a"@,
        CodecView::Mp3 => "mp3"@,
        CodecView::Aac => "aac"@,
        CodecView::Opus => "opus"@,
        CodecView::Vorbis => "ogg"@,
        CodecView::Wav => "wav"@,
        CodecView::Other(name) => ascii_lower_seq(name),
    }
}

pub fn codec_extension(codec: &Codec) -> (r: String)
    ensures
        r@ == spec_codec_extension(codec@),
{
    match codec {
        Codec::Flac => "flac".to_string(),
        Codec::Alac => "m4a".to_string(),
        Codec::Mp3 => "mp3".to_string(),
        Codec::Aac => "aac".to_string(),
        Codec::Opus => "opus".to_string(),
        Codec::Vorbis => "ogg".to_string(),
        Codec::Wav => "wav".to_string(),
        Codec::Other(name) => {
            let c = chars_of(name.as_str());
            let l = to_ascii_lower_chars(&c);
            string_from_chars(&l)
        },
    }
}

/// The extension of a cached file: `Direct` streams the source untouched, so its own
/// extension; a transcode is whatever codec was asked for.
pub open spec fn spec_cache_extension(profile: QualityProfile, source: CodecView, target: TargetCodec) -> Seq<char> {
    match profile {
        QualityProfile::Direct => spec_codec_extension(source),
        _ => spec_target_codec_extension(target),
    }
}

pub fn cache_extension(profile: QualityProfile, source: &Codec, target: TargetCodec) -> (r: String)
    ensures
        r@ == spec_cache_extension(profile, source@, target),
{
    match profile {
        QualityProfile::Direct => codec_extension(source),
        _ => target_codec_extension(target).to_string(),
    }
}

// ------------------------------------------------------------------ sanitising

/// The characters no path component may hold on any desktop OS.
pub open spec fn is_forbidden(c: char) -> bool {
    c == '/' || c == '\\' || c == ':' || c == '*' || c == '?' || c == '"' || c == '<' || c == '>' || c == '|'
}

/// An ASCII control character.
pub open spec fn is_ascii_control(c: char) -> bool {
    (c as u32) < 0x20 || c as u32 == 0x7f
}

/// `s` without forbidden and control characters.
pub open spec fn strip_forbidden(s: Seq<char>) -> Seq<char>
    decreases s.len(),
{
    if s.len() == 0 {
        s
    } else {
        let r = strip_forbidden(s.drop_last());
        let c = s.last();
        if is_forbidden(c) || is_ascii_control(c) {
            r
        } else {
            r.push(c)
        }
    }
}

/// Whitespace or a dot: trimmed from both ends of a component.
pub open spec fn is_edge_junk(c: char) -> bool {
    spec_is_whitespace(c) || c == '.'
}

/// `s` with edge junk trimmed from both ends.
pub open spec fn trim_junk(s: Seq<char>) -> Seq<char>
    decreases s.len(),
{
    if s.len() == 0 {
        s
    } else if is_edge_junk(s[0]) {
        trim_junk(s.drop_first())
    } else if is_edge_junk(s.last()) {
        trim_junk(s.drop_last())
    } else {
        s
    }
}

/// The names Windows reserves for devices.
pub open spec fn is_reserved_name(upper: Seq<char>) -> bool {
    upper == "con"@ || upper == "prn"@ || upper == "aux"@ || upper == "nul"@ || upper == "com1"@
        || upper == "com2"@ || upper == "com3"@ || upper == "com4"@ || upper == "com5"@ || upper == "com6"@
        || upper == "com7"@ || upper == "com8"@ || upper == "com9"@ || upper == "lpt1"@ || upper == "lpt2"@
        || upper == "lpt3"@ || upper == "lpt4"@ || upper == "lpt5"@ || upper == "lpt6"@ || upper == "lpt7"@
        || upper == "lpt8"@ || upper == "lpt9"@
}

/// The part of `s` before its first dot (all of it if there is none).
pub open spec fn before_dot(s: Seq<char>) -> Seq<char>
    decreases s.len(),
{
    if s.len() == 0 {
        s
    } else if s[0] == '.' {
        Seq::empty()
    } else {
        seq![s[0]] + before_dot(s.drop_first())
    }
}

/// A component whose name before its first dot is a reserved device name, in any ASCII case,
/// gets a leading underscore.
pub open spec fn spec_reject_reserved_name(s: Seq<char>) -> Seq<char> {
    if is_reserved_name(ascii_lower_seq(before_dot(s))) {
        seq!['_'] + s
    } else {
        s
    }
}

pub fn reject_reserved_name(s: String) -> (r: String)
    ensures
        r@ == spec_reject_reserved_name(s@),
{
    let v = chars_of(s.as_str());
    let mut base: Vec<char> = Vec::new();
    let mut i: usize = 0;
    assert(v@.skip(0) =~= v@);
    assert(base@ + before_dot(v@) =~= before_dot(v@));
    while i < v.len() && v[i] != '.'
        invariant
            i <= v@.len(),
            forall|k: int| 0 <= k < i ==> v@[k] != '.',
            base@ == v@.take(i as int),
            before_dot(v@) == base@ + before_dot(v@.skip(i as int)),
        decreases v@.len() - i,
    {
        let ghost rest = v@.skip(i as int);
        assert(rest[0] == v@[i as int]);
        assert(rest.drop_first() =~= v@.skip(i + 1));
        let ghost old_base = base@;
        base.push(v[i]);
        assert(base@ =~= v@.take(i + 1));
        assert(before_dot(rest) == seq![rest[0]] + before_dot(rest.drop_first()));
        assert(old_base + (seq![rest[0]] + before_dot(rest.drop_first())) =~= base@ + before_dot(v@.skip(i + 1)));
        i = i + 1;
    }
    proof {
        let rest = v@.skip(i as int);
        if i < v@.len() {
            assert(rest[0] == '.');
        } else {
            assert(rest.len() == 0);
        }
        assert(before_dot(v@) =~= base@);
    }
    let lower = to_ascii_lower_chars(&base);
    let reserved = eq_str(&lower, "con") || eq_str(&lower, "prn") || eq_str(&lower, "aux") || eq_str(&lower, "nul")
        || eq_str(&lower, "com1") || eq_str(&lower, "com2") || eq_str(&lower, "com3") || eq_str(&lower, "com4")
        || eq_str(&lower, "com5") || eq_str(&lower, "com6") || eq_str(&lower, "com7") || eq_str(&lower, "com8")
        || eq_str(&lower, "com9") || eq_str(&lower, "lpt1") || eq_str(&lower, "lpt2") || eq_str(&lower, "lpt3")
        || eq_str(&lower, "lpt4") || eq_str(&lower, "lpt5") || eq_str(&lower, "lpt6") || eq_str(&lower, "lpt7")
        || eq_str(&lower, "lpt8") || eq_str(&lower, "lpt9");
    if reserved {
        let mut out: Vec<char> = Vec::new();
        out.push('_');
        append_chars(&mut out, &v);
        assert(out@ =~= seq!['_'] + s@);
        string_from_chars(&out)
    } else {
        s
    }
}

/// The first `n` extended grapheme clusters of `s`, as `UnicodeSegmentation::graphemes(s, true)`
/// splits it.
pub uninterp spec fn first_graphemes(s: Seq<char>, n: nat) -> Seq<char>;

/// `s.graphemes(true).take(n).collect()`: the first `n` grapheme clusters. The clusters of a
/// string are consecutive pieces of it, each at least one character long, so the result is a
/// prefix of `s`, and all of `s` when `s` has no more than `n` characters.
#[verifier::external_body]
fn take_graphemes(s: &str, n: usize) -> (r: String)
    ensures
        r@ == first_graphemes(s@, n as nat),
        r@.len() <= s@.len() && r@ == s@.take(r@.len() as int),
        s@.len() <= n ==> r@ == s@,
{
    s.graphemes(true).take(n).collect()
}

/// The longest a component may be, in grapheme clusters.
pub open spec fn max_component_len() -> nat {
    100
}

/// A path component made safe from a piece of server metadata: forbidden and control
/// characters dropped, whitespace and dots trimmed from both ends, a reserved device name
/// escaped, cut to a hundred grapheme clusters, and `_` if nothing is left.
pub open spec fn spec_sanitize_component(s: Seq<char>) -> Seq<char> {
    or_placeholder(first_graphemes(spec_clean_component(s), max_component_len()))
}

/// A component before it is cut to length: forbidden and control characters dropped,
/// whitespace and dots trimmed from both ends, a reserved device name escaped.
pub open spec fn spec_clean_component(s: Seq<char>) -> Seq<char> {
    spec_reject_reserved_name(trim_junk(strip_forbidden(s)))
}

/// `_` in place of an empty component.
pub open spec fn or_placeholder(t: Seq<char>) -> Seq<char> {
    if t.len() == 0 {
        "_"@
    } else {
        t
    }
}

/// A name that is safe as one path component: not empty, free of separators, other forbidden
/// and control characters, and not starting with a dot or whitespace (so never `.` or `..`).
pub open spec fn safe_component(c: Seq<char>) -> bool {
    &&& c.len() > 0
    &&& forall|i: int| 0 <= i < c.len() ==> !is_forbidden(#[trigger] c[i]) && !is_ascii_control(c[i])
    &&& !is_edge_junk(c[0])
}

proof fn lemma_strip_clean(s: Seq<char>)
    ensures
        forall|i: int| 0 <= i < strip_forbidden(s).len()
            ==> !is_forbidden(#[trigger] strip_forbidden(s)[i]) && !is_ascii_control(strip_forbidden(s)[i]),
    decreases s.len(),
{
    if s.len() > 0 {
        lemma_strip_clean(s.drop_last());
        let r = strip_forbidden(s.drop_last());
        let c = s.last();
        if !(is_forbidden(c) || is_ascii_control(c)) {
            assert forall|i: int| 0 <= i < r.push(c).len() implies !is_forbidden(#[trigger] r.push(c)[i]) && !is_ascii_control(r.push(c)[i]) by {
                if i < r.len() {
                    assert(r.push(c)[i] == r[i]);
                }
            }
        }
    }
}

proof fn lemma_trim_junk_within(s: Seq<char>)
    ensures
        forall|i: int| 0 <= i < trim_junk(s).len() ==> s.contains(#[trigger] trim_junk(s)[i]),
        trim_junk(s).len() > 0 ==> !is_edge_junk(trim_junk(s)[0]),
    decreases s.len(),
{
    if s.len() > 0 {
        if is_edge_junk(s[0]) {
            lemma_trim_junk_within(s.drop_first());
            let t = trim_junk(s.drop_first());
            assert forall|i: int| 0 <= i < t.len() implies s.contains(#[trigger] t[i]) by {
                let j = choose|j: int| 0 <= j < s.drop_first().len() && s.drop_first()[j] == t[i];
                assert(s[j + 1] == t[i]);
            }
        } else if is_edge_junk(s.last()) {
            lemma_trim_junk_within(s.drop_last());
            let t = trim_junk(s.drop_last());
            assert forall|i: int| 0 <= i < t.len() implies s.contains(#[trigger] t[i]) by {
                let j = choose|j: int| 0 <= j < s.drop_last().len() && s.drop_last()[j] == t[i];
                assert(s[j] == t[i]);
            }
        } else {
            assert forall|i: int| 0 <= i < s.len() implies s.contains(#[trigger] s[i]) by {}
        }
    }
}

fn trim_junk_chars(v: &Vec<char>) -> (r: Vec<char>)
    ensures
        r@ == trim_junk(v@),
{
    let mut lo: usize = 0;
    let mut hi: usize = v.len();
    assert(v@.subrange(0, v@.len() as int) =~= v@);
    while lo < hi && (is_whitespace(v[lo]) || v[lo] == '.')
        invariant
            lo <= hi <= v@.len(),
            hi == v@.len(),
            trim_junk(v@) == trim_junk(v@.subrange(lo as int, hi as int)),
        decreases hi - lo,
    {
        let ghost w = v@.subrange(lo as int, hi as int);
        assert(w[0] == v@[lo as int]);
        assert(w.drop_first() =~= v@.subrange(lo + 1, hi as int));
        lo = lo + 1;
    }
    while lo < hi && (is_whitespace(v[hi - 1]) || v[hi - 1] == '.')
        invariant
            lo <= hi <= v@.len(),
            trim_junk(v@) == trim_junk(v@.subrange(lo as int, hi as int)),
            lo < hi ==> !is_edge_junk(v@[lo as int]),
        decreases hi - lo,
    {
        let ghost w = v@.subrange(lo as int, hi as int);
        assert(w[0] == v@[lo as int]);
        assert(w.last() == v@[hi - 1]);
        assert(w.drop_last() =~= v@.subrange(lo as int, hi - 1));
        hi = hi - 1;
    }
    proof {
        let w = v@.subrange(lo as int, hi as int);
        if lo < hi {
            assert(w[0] == v@[lo as int]);
            assert(w.last() == v@[hi - 1]);
        }
    }
    crate::text::slice_vec(v, lo, hi)
}

/// The cleaned text of a component, before it is cut to length: every character of it is
/// allowed in a path component, and it does not start with a dot or whitespace.
pub fn clean_component(s: &str) -> (r: String)
    ensures
        r@ == spec_clean_component(s@),
        forall|i: int| 0 <= i < r@.len() ==> !is_forbidden(#[trigger] r@[i]) && !is_ascii_control(r@[i]),
        r@.len() > 0 ==> !is_edge_junk(r@[0]),
{
    let v = chars_of(s);
    let mut stripped: Vec<char> = Vec::new();
    let mut i: usize = 0;
    while i < v.len()
        invariant
            i <= v@.len(),
            stripped@ == strip_forbidden(v@.take(i as int)),
        decreases v@.len() - i,
    {
        let c = v[i];
        let ghost t = v@.take(i + 1);
        assert(t.drop_last() =~= v@.take(i as int));
        assert(t.last() == c);
        let forbidden = c == '/' || c == '\\' || c == ':' || c == '*' || c == '?' || c == '"' || c == '<' || c == '>' || c == '|';
        let control = (c as u32) < 0x20 || (c as u32) == 0x7f;
        if !forbidden && !control {
            stripped.push(c);
        }
        i = i + 1;
    }
    assert(v@.take(v@.len() as int) =~= v@);
    let trimmed = trim_junk_chars(&stripped);
    let handled = reject_reserved_name(string_from_chars(&trimmed));
    proof {
        lemma_strip_clean(v@);
        lemma_trim_junk_within(stripped@);
        let st = stripped@;
        let tr = trimmed@;
        let h = handled@;
        assert forall|i: int| 0 <= i < tr.len() implies !is_forbidden(#[trigger] tr[i]) && !is_ascii_control(tr[i]) by {
            let j = choose|j: int| 0 <= j < st.len() && st[j] == tr[i];
            assert(!is_forbidden(st[j]) && !is_ascii_control(st[j]));
        }
        assert forall|i: int| 0 <= i < h.len() implies !is_forbidden(#[trigger] h[i]) && !is_ascii_control(h[i]) by {
            if h != tr {
                assert(h == seq!['_'] + tr);
                if i > 0 {
                    assert(h[i] == tr[i - 1]);
                }
            }
        }
    }
    handled
}

/// A cut component, with `_` in place of an empty one.
pub fn component_or_placeholder(cut: String) -> (r: String)
    ensures
        r@ == or_placeholder(cut@),
{
    let tc = chars_of(cut.as_str());
    if tc.len() == 0 {
        "_".to_string()
    } else {
        cut
    }
}

/// A path component made safe from a piece of server metadata: cleaned, cut to a hundred
/// grapheme clusters, and `_` if nothing is left. A cleaned text of at most a hundred
/// characters comes back whole.
pub fn sanitize_component(s: &str) -> (r: String)
    ensures
        r@ == spec_sanitize_component(s@),
        spec_clean_component(s@).len() <= max_component_len() ==> r@ == or_placeholder(spec_clean_component(s@)),
        safe_component(r@),
{
    let handled = clean_component(s);
    let truncated = take_graphemes(handled.as_str(), 100);
    proof {
        let h = handled@;
        let t = truncated@;
        assert forall|i: int| 0 <= i < t.len() implies !is_forbidden(#[trigger] t[i]) && !is_ascii_control(t[i]) by {
            assert(t[i] == h[i]);
        }
        if t.len() > 0 {
            assert(t[0] == h[0]);
        }
        reveal_strlit("_");
        assert("_"@[0] == '_');
    }
    component_or_placeholder(truncated)
}

/// The folder a track is filed under for its album artist: its first album artist, unless
/// that is blank, in which case `Unknown Artist`.
pub open spec fn spec_album_artist_of(t: Track) -> Seq<char> {
    if t.album_artist_names@.len() > 0 && !crate::text::is_blank(t.album_artist_names@[0]@) {
        t.album_artist_names@[0]@
    } else {
        "Unknown Artist"@
    }
}

/// The folder a track is filed under for its album: its album name, unless blank.
pub open spec fn spec_album_of(t: Track) -> Seq<char> {
    if crate::text::is_blank(t.album_name@) { "Unknown Album"@ } else { t.album_name@ }
}

/// `<disc>-<track> - <title>`, the numbers at least two digits (disc 1 and track 0 when
/// missing).
pub open spec fn track_title(t: Track) -> Seq<char> {
    let disc: nat = match t.disc_number { Some(d) => d as nat, None => 1 };
    let num: nat = match t.track_number { Some(n) => n as nat, None => 0 };
    two_digits(disc) + "-"@ + two_digits(num) + " - "@ + t.name@
}

fn album_artist_of(t: &Track) -> (r: &str)
    ensures
        r@ == spec_album_artist_of(*t),
{
    if t.album_artist_names.len() > 0 && !crate::text::is_blank_chars(&chars_of(t.album_artist_names[0].as_str())) {
        t.album_artist_names[0].as_str()
    } else {
        "Unknown Artist"
    }
}

fn album_of(t: &Track) -> (r: &str)
    ensures
        r@ == spec_album_of(*t),
{
    if crate::text::is_blank_chars(&chars_of(t.album_name.as_str())) {
        "Unknown Album"
    } else {
        t.album_name.as_str()
    }
}

fn push_two_digits(out: &mut Vec<char>, n: u32)
    ensures
        final(out)@ == old(out)@ + two_digits(n as nat),
{
    if n < 10 {
        out.push('0');
    }
    let d = crate::text::u64_to_chars(n as u64);
    let ghost before = out@;
    append_chars(out, &d);
    proof {
        if n < 10 {
            assert(two_digits(n as nat) == seq!['0'] + decimal_string(n as nat));
        }
    }
}

fn title_of(t: &Track) -> (r: String)
    ensures
        r@ == track_title(*t),
{
    let mut out: Vec<char> = Vec::new();
    push_two_digits(&mut out, match t.disc_number { Some(d) => d, None => 1 });
    push_str(&mut out, "-");
    push_two_digits(&mut out, match t.track_number { Some(n) => n, None => 0 });
    push_str(&mut out, " - ");
    push_str(&mut out, t.name.as_str());
    string_from_chars(&out)
}

/// Where a cached track lives below the tracks root:
/// `<server>/<album artist>/<album>/<disc>-<track> - <title>.<profile>.<ext>`, each component
/// sanitised on its own.
pub open spec fn spec_cache_relative_path(server: Seq<char>, t: Track, profile: QualityProfile, ext: Seq<char>) -> PathBuf {
    joined(joined(joined(
        path_of(spec_sanitize_component(server)),
        path_of(spec_sanitize_component(spec_album_artist_of(t)))),
        path_of(spec_sanitize_component(spec_album_of(t)))),
        path_of(spec_sanitize_component(track_title(t)) + "."@ + spec_profile_slug(profile) + "."@ + ext))
}

pub fn cache_relative_path(server: &ServerId, track: &Track, profile: QualityProfile, ext: &str) -> (p: PathBuf)
    ensures
        p == spec_cache_relative_path(server@, *track, profile, ext@),
{
    let base = path_from_str(sanitize_component(server.as_str()).as_str());
    let a = join_str(&base, sanitize_component(album_artist_of(track)).as_str());
    let b = join_str(&a, sanitize_component(album_of(track)).as_str());
    let title = title_of(track);
    let mut name: Vec<char> = Vec::new();
    push_str(&mut name, sanitize_component(title.as_str()).as_str());
    push_str(&mut name, ".");
    push_str(&mut name, profile_slug(profile));
    push_str(&mut name, ".");
    push_str(&mut name, ext);
    join_str(&b, string_from_chars(&name).as_str())
}

/// Where a downloaded track lives:
/// `<root>/<server>/<album artist>/<album>/<disc>-<track> - <title>.<ext>`, the extension
/// following the track's own codec.
pub open spec fn spec_download_path(root: PathBuf, server: Seq<char>, t: Track) -> PathBuf {
    joined(joined(joined(joined(root,
        path_of(spec_sanitize_component(server))),
        path_of(spec_sanitize_component(spec_album_artist_of(t)))),
        path_of(spec_sanitize_component(spec_album_of(t)))),
        path_of(spec_sanitize_component(track_title(t)) + "."@ + spec_codec_extension(t.format.codec@)))
}

pub fn download_path(root: &PathBuf, server: &ServerId, t: &Track) -> (p: PathBuf)
    ensures
        p == spec_download_path(*root, server@, *t),
{
    let s = join_str(root, sanitize_component(server.as_str()).as_str());
    let a = join_str(&s, sanitize_component(album_artist_of(t)).as_str());
    let b = join_str(&a, sanitize_component(album_of(t)).as_str());
    let title = title_of(t);
    let ext = codec_extension(&t.format.codec);
    let mut name: Vec<char> = Vec::new();
    push_str(&mut name, sanitize_component(title.as_str()).as_str());
    push_str(&mut name, ".");
    push_str(&mut name, ext.as_str());
    join_str(&b, string_from_chars(&name).as_str())
}

/// Candidate `k` for a file at `path`: the path itself, then ` (2)` .. ` (99)`.
pub open spec fn candidate(path: PathBuf, k: int) -> PathBuf {
    if k == 0 { path } else { spec_suffixed(path, decimal_string((k + 1) as nat)) }
}

/// Settles a name clash at `path`: the first of `path`, `path (2)`, .. `path (99)` that
/// `occupied` (something is there, and it is another item's) says is free; an error naming
/// `path` when all are taken.
pub fn resolve_collision<F: Fn(&PathBuf) -> bool>(path: &PathBuf, occupied: &F) -> (r: Result<PathBuf, CacheError>)
    requires
        forall|p: &PathBuf| occupied.requires((p,)),
    ensures
        match r {
            Ok(c) => exists|k: int| 0 <= k <= 98 && c == candidate(*path, k)
                && occupied.ensures((&c,), false)
                && forall|j: int| 0 <= j < k ==> #[trigger] occupied.ensures((&candidate(*path, j),), true),
            Err(e) => (e matches CacheError::TooManyCollisions(p) && p == *path)
                && forall|j: int| 0 <= j <= 98 ==> #[trigger] occupied.ensures((&candidate(*path, j),), true),
        },
{
    if !occupied(path) {
        assert(candidate(*path, 0) == *path);
        return Ok(path.clone());
    }
    let mut n: u32 = 2;
    while n <= 99
        invariant
            2 <= n <= 100,
            forall|p: &PathBuf| occupied.requires((p,)),
            forall|j: int| 0 <= j < n - 1 ==> #[trigger] occupied.ensures((&candidate(*path, j),), true),
        decreases 100 - n,
    {
        let c = suffixed(path, n);
        assert(c == candidate(*path, n - 1));
        if !occupied(&c) {
            return Ok(c);
        }
        n = n + 1;
    }
    Err(CacheError::TooManyCollisions(path.clone()))
}


/// The safety net, on paths already made canonical: `target` must lie under `root` (a
/// whole-component prefix), or the write or removal is refused with both paths named. A server
/// whose track title climbs out of the cache with `..` is stopped here.
pub fn assert_within(root: &PathBuf, target: &PathBuf) -> (r: Result<(), CacheError>)
    ensures
        match r {
            Ok(()) => has_prefix(*target, *root),
            Err(e) => !has_prefix(*target, *root) && e == (CacheError::PathEscapesRoot { root: *root, target: *target }),
        },
{
    if path_starts_with(target, root) {
        Ok(())
    } else {
        Err(CacheError::PathEscapesRoot { root: root.clone(), target: target.clone() })
    }
}

} // verus!
