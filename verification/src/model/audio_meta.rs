//! Codecs, decoded audio formats, and output devices.
use crate::text::{ascii_lower_seq, chars_of, eq_str, str_eq, to_ascii_lower_chars};
use vstd::prelude::*;

verus! {

/// An audio codec. `Other` keeps the server's own string: a client must never refuse to
/// describe a format it does not specifically recognise.
#[derive(Debug, Clone, PartialEq, Eq)]
pub enum Codec {
    Flac,
    Alac,
    Mp3,
    Aac,
    Opus,
    Vorbis,
    Wav,
    Other(String),
}

/// A codec as a plain value.
pub enum CodecView {
    Flac,
    Alac,
    Mp3,
    Aac,
    Opus,
    Vorbis,
    Wav,
    Other(Seq<char>),
}

impl View for Codec {
    type V = CodecView;

    open spec fn view(&self) -> CodecView {
        match self {
            Codec::Flac => CodecView::Flac,
            Codec::Alac => CodecView::Alac,
            Codec::Mp3 => CodecView::Mp3,
            Codec::Aac => CodecView::Aac,
            Codec::Opus => CodecView::Opus,
            Codec::Vorbis => CodecView::Vorbis,
            Codec::Wav => CodecView::Wav,
            Codec::Other(s) => CodecView::Other(s@),
        }
    }
}

/// The codec a server's codec string names, compared without regard to ASCII case.
pub open spec fn codec_of(s: Seq<char>) -> CodecView {
    let l = ascii_lower_seq(s);
    if l == "flac"@ {
        CodecView::Flac
    } else if l == "alac"@ {
        CodecView::Alac
    } else if l == "mp3"@ {
        CodecView::Mp3
    } else if l == "aac"@ {
        CodecView::Aac
    } else if l == "opus"@ {
        CodecView::Opus
    } else if l == "vorbis"@ || l == "ogg"@ {
        CodecView::Vorbis
    } else if l == "wav"@ || l == "wave"@ || l == "pcm"@ {
        CodecView::Wav
    } else {
        CodecView::Other(s)
    }
}

/// What `str::to_uppercase` returns for `s` (full Unicode case mapping).
pub uninterp spec fn unicode_upper(s: Seq<char>) -> Seq<char>;

/// `str::to_uppercase`.
#[verifier::external_body]
fn to_uppercase(s: &str) -> (r: String)
    ensures
        r@ == unicode_upper(s@),
{
    s.to_uppercase()
}

/// The label the player bar shows for a codec, e.g. "FLAC".
pub open spec fn codec_label(c: CodecView) -> Seq<char> {
    match c {
        CodecView::Flac => "FLAC"@,
        CodecView::Alac => "ALAC"@,
        CodecView::Mp3 => "MP3"@,
        CodecView::Aac => "AAC"@,
        CodecView::Opus => "Opus"@,
        CodecView::Vorbis => "Vorbis"@,
        CodecView::Wav => "WAV"@,
        CodecView::Other(s) => unicode_upper(s),
    }
}

impl Codec {
    /// Case-insensitive; an unrecognised value becomes `Other` rather than an error.
    pub fn from_str_lossy(s: &str) -> (r: Codec)
        ensures
            r@ == codec_of(s@),
    {
        let c = chars_of(s);
        let l = to_ascii_lower_chars(&c);
        if eq_str(&l, "flac") {
            Codec::Flac
        } else if eq_str(&l, "alac") {
            Codec::Alac
        } else if eq_str(&l, "mp3") {
            Codec::Mp3
        } else if eq_str(&l, "aac") {
            Codec::Aac
        } else if eq_str(&l, "opus") {
            Codec::Opus
        } else if eq_str(&l, "vorbis") || eq_str(&l, "ogg") {
            Codec::Vorbis
        } else if eq_str(&l, "wav") || eq_str(&l, "wave") || eq_str(&l, "pcm") {
            Codec::Wav
        } else {
            Codec::Other(s.to_string())
        }
    }

    /// The upper-case label used in the player bar, e.g. "FLAC".
    pub fn label(&self) -> (r: String)
        ensures
            r@ == codec_label(self@),
    {
        match self {
            Codec::Flac => "FLAC".to_string(),
            Codec::Alac => "ALAC".to_string(),
            Codec::Mp3 => "MP3".to_string(),
            Codec::Aac => "AAC".to_string(),
            Codec::Opus => "Opus".to_string(),
            Codec::Vorbis => "Vorbis".to_string(),
            Codec::Wav => "WAV".to_string(),
            Codec::Other(s) => to_uppercase(s.as_str()),
        }
    }
}

/// The decoded audio format, as the playback engine reports it.
#[derive(Debug, Clone, PartialEq)]
pub struct AudioFormat {
    pub codec: Codec,
    pub sample_rate_hz: u32,
    pub bit_depth: Option<u8>,
    pub channels: u8,
    pub bitrate_bps: Option<u32>,
}

/// One entry of the player's audio device list.
#[derive(Debug, Clone, PartialEq)]
pub struct AudioDevice {
    pub id: String,
    pub description: String,
    pub driver: String,
}

/// A device as plain text values.
pub struct AudioDeviceView {
    pub id: Seq<char>,
    pub description: Seq<char>,
    pub driver: Seq<char>,
}

impl View for AudioDevice {
    type V = AudioDeviceView;

    open spec fn view(&self) -> AudioDeviceView {
        AudioDeviceView { id: self.id@, description: self.description@, driver: self.driver@ }
    }
}

/// Output drivers, most capable first; a driver not listed ranks after all of them.
pub open spec fn spec_driver_rank(driver: Seq<char>) -> nat {
    if driver == "alsa"@ {
        0
    } else if driver == "wasapi"@ {
        1
    } else if driver == "coreaudio"@ {
        2
    } else if driver == "pipewire"@ {
        3
    } else if driver == "pulse"@ {
        4
    } else {
        5
    }
}

pub fn driver_rank(driver: &str) -> (r: usize)
    ensures
        r == spec_driver_rank(driver@),
{
    if str_eq(driver, "alsa") {
        0
    } else if str_eq(driver, "wasapi") {
        1
    } else if str_eq(driver, "coreaudio") {
        2
    } else if str_eq(driver, "pipewire") {
        3
    } else if str_eq(driver, "pulse") {
        4
    } else {
        5
    }
}

/// The distinct drivers of `devs`, in order of first appearance.
pub open spec fn drivers_seen(devs: Seq<AudioDeviceView>) -> Seq<Seq<char>>
    decreases devs.len(),
{
    if devs.len() == 0 {
        Seq::empty()
    } else {
        let r = drivers_seen(devs.drop_last());
        if r.contains(devs.last().driver) {
            r
        } else {
            r.push(devs.last().driver)
        }
    }
}

/// The drivers of `ds` with rank `k`, in order.
pub open spec fn with_rank(ds: Seq<Seq<char>>, k: nat) -> Seq<Seq<char>>
    decreases ds.len(),
{
    if ds.len() == 0 {
        ds
    } else {
        let r = with_rank(ds.drop_last(), k);
        if spec_driver_rank(ds.last()) == k {
            r.push(ds.last())
        } else {
            r
        }
    }
}

/// `ds` stably sorted by rank: rank 0 first, then rank 1, up to the unlisted drivers, which keep
/// their relative order.
pub open spec fn ranked_upto(ds: Seq<Seq<char>>, k: nat) -> Seq<Seq<char>>
    decreases k,
{
    if k == 0 {
        Seq::empty()
    } else {
        ranked_upto(ds, (k - 1) as nat) + with_rank(ds, (k - 1) as nat)
    }
}

/// The devices of `devs` on `driver`, in order.
pub open spec fn devices_on(devs: Seq<AudioDeviceView>, driver: Seq<char>) -> Seq<AudioDeviceView>
    decreases devs.len(),
{
    if devs.len() == 0 {
        Seq::empty()
    } else {
        let r = devices_on(devs.drop_last(), driver);
        if devs.last().driver == driver {
            r.push(devs.last())
        } else {
            r
        }
    }
}

/// The groups as plain values.
pub open spec fn groups_view(g: Seq<(String, Vec<AudioDevice>)>) -> Seq<(Seq<char>, Seq<AudioDeviceView>)> {
    g.map_values(|p: (String, Vec<AudioDevice>)| (p.0@, p.1@.map_values(|d: AudioDevice| d@)))
}

/// The device list grouped by driver: the drivers by rank (a stable sort, so unlisted drivers
/// keep the order in which they first appear), each with its devices in their original order.
pub open spec fn spec_group_by_driver(devs: Seq<AudioDeviceView>) -> Seq<(Seq<char>, Seq<AudioDeviceView>)> {
    let order = ranked_upto(drivers_seen(devs), 6);
    order.map_values(|d: Seq<char>| (d, devices_on(devs, d)))
}

pub(crate) fn clone_device(d: &AudioDevice) -> (r: AudioDevice)
    ensures
        r@ == d@,
{
    AudioDevice { id: d.id.clone(), description: d.description.clone(), driver: d.driver.clone() }
}

fn contains_text(v: &Vec<String>, s: &String) -> (r: bool)
    ensures
        r == v@.map_values(|x: String| x@).contains(s@),
{
    let mut i: usize = 0;
    while i < v.len()
        invariant
            i <= v@.len(),
            forall|j: int| 0 <= j < i ==> v@[j]@ != s@,
        decreases v@.len() - i,
    {
        if str_eq(v[i].as_str(), s.as_str()) {
            assert(v@.map_values(|x: String| x@)[i as int] == s@);
            return true;
        }
        i = i + 1;
    }
    proof {
        let m = v@.map_values(|x: String| x@);
        if m.contains(s@) {
            let j = choose|j: int| 0 <= j < m.len() && m[j] == s@;
            assert(v@[j]@ == s@);
        }
    }
    false
}

/// Groups `devices` by their own `driver`, the groups ordered most capable driver first.
pub fn group_by_driver(devices: &[AudioDevice]) -> (r: Vec<(String, Vec<AudioDevice>)>)
    ensures
        groups_view(r@) == spec_group_by_driver(devices@.map_values(|d: AudioDevice| d@)),
{
    let ghost dv = devices@.map_values(|d: AudioDevice| d@);
    let mut drivers: Vec<String> = Vec::new();
    let mut i: usize = 0;
    while i < devices.len()
        invariant
            i <= devices@.len(),
            dv == devices@.map_values(|d: AudioDevice| d@),
            drivers@.map_values(|x: String| x@) == drivers_seen(dv.take(i as int)),
        decreases devices@.len() - i,
    {
        let ghost t = dv.take(i + 1);
        assert(t.drop_last() =~= dv.take(i as int));
        assert(t.last() == devices@[i as int]@);
        if !contains_text(&drivers, &devices[i].driver) {
            let ghost before = drivers@;
            drivers.push(devices[i].driver.clone());
            assert(drivers@.map_values(|x: String| x@) =~= before.map_values(|x: String| x@).push(devices@[i as int].driver@));
        }
        i = i + 1;
    }
    assert(dv.take(devices@.len() as int) =~= dv);
    let ghost seen = drivers_seen(dv);
    let mut out: Vec<(String, Vec<AudioDevice>)> = Vec::new();
    let mut k: usize = 0;
    while k < 6
        invariant
            k <= 6,
            dv == devices@.map_values(|d: AudioDevice| d@),
            drivers@.map_values(|x: String| x@) == seen,
            groups_view(out@) == ranked_upto(seen, k as nat).map_values(|d: Seq<char>| (d, devices_on(dv, d))),
        decreases 6 - k,
    {
        let mut j: usize = 0;
        let ghost base = ranked_upto(seen, k as nat);
        while j < drivers.len()
            invariant
                k < 6,
                j <= drivers@.len(),
                dv == devices@.map_values(|d: AudioDevice| d@),
                drivers@.map_values(|x: String| x@) == seen,
                base == ranked_upto(seen, k as nat),
                groups_view(out@) == (base + with_rank(seen.take(j as int), k as nat)).map_values(|d: Seq<char>| (d, devices_on(dv, d))),
            decreases drivers@.len() - j,
        {
            let ghost st = seen.take(j + 1);
            assert(st.drop_last() =~= seen.take(j as int));
            assert(st.last() == drivers@[j as int]@);
            if driver_rank(drivers[j].as_str()) == k {
                let d = &drivers[j];
                let mut group: Vec<AudioDevice> = Vec::new();
                let mut m: usize = 0;
                while m < devices.len()
                    invariant
                        m <= devices@.len(),
                        dv == devices@.map_values(|d: AudioDevice| d@),
                        group@.map_values(|x: AudioDevice| x@) == devices_on(dv.take(m as int), d@),
                    decreases devices@.len() - m,
                {
                    let ghost tm = dv.take(m + 1);
                    assert(tm.drop_last() =~= dv.take(m as int));
                    assert(tm.last() == devices@[m as int]@);
                    if str_eq(devices[m].driver.as_str(), d.as_str()) {
                        let ghost before = group@;
                        group.push(clone_device(&devices[m]));
                        assert(group@.map_values(|x: AudioDevice| x@) =~= before.map_values(|x: AudioDevice| x@).push(devices@[m as int]@));
                    }
                    m = m + 1;
                }
                assert(dv.take(devices@.len() as int) =~= dv);
                let ghost before = out@;
                let ghost prev = base + with_rank(seen.take(j as int), k as nat);
                out.push((d.clone(), group));
                assert(base + with_rank(st, k as nat) =~= prev.push(d@));
                assert(groups_view(out@) =~= groups_view(before).push((d@, devices_on(dv, d@))));
                assert(prev.push(d@).map_values(|x: Seq<char>| (x, devices_on(dv, x))) =~= prev.map_values(|x: Seq<char>| (x, devices_on(dv, x))).push((d@, devices_on(dv, d@))));
            } else {
                assert(base + with_rank(st, k as nat) =~= base + with_rank(seen.take(j as int), k as nat));
            }
            j = j + 1;
        }
        assert(seen.take(drivers@.len() as int) =~= seen);
        assert(ranked_upto(seen, (k + 1) as nat) == base + with_rank(seen, k as nat));
        k = k + 1;
    }
    out
}

/// The device picker's row text.
pub fn device_label(d: &AudioDevice) -> (r: String)
    ensures
        r@ == d.description@,
{
    d.description.clone()
}


proof fn lemma_drivers_seen(devs: Seq<AudioDeviceView>)
    ensures
        drivers_seen(devs).no_duplicates(),
        forall|x: Seq<char>| drivers_seen(devs).contains(x) <==> exists|k: int| 0 <= k < devs.len() && (#[trigger] devs[k]).driver == x,
    decreases devs.len(),
{
    if devs.len() > 0 {
        let d = devs.drop_last();
        lemma_drivers_seen(d);
        let r = drivers_seen(d);
        let last = devs.last().driver;
        assert forall|x: Seq<char>| drivers_seen(devs).contains(x) <==> exists|k: int| 0 <= k < devs.len() && (#[trigger] devs[k]).driver == x by {
            if drivers_seen(devs).contains(x) {
                if r.contains(x) {
                    let k = choose|k: int| 0 <= k < d.len() && (#[trigger] d[k]).driver == x;
                    assert(devs[k] == d[k]);
                } else {
                    assert(drivers_seen(devs) == r.push(last));
                    let m = choose|m: int| 0 <= m < r.push(last).len() && r.push(last)[m] == x;
                    if m < r.len() {
                        assert(r.contains(x));
                    }
                    assert(devs[devs.len() - 1].driver == x);
                }
            }
            if exists|k: int| 0 <= k < devs.len() && (#[trigger] devs[k]).driver == x {
                let k = choose|k: int| 0 <= k < devs.len() && (#[trigger] devs[k]).driver == x;
                if k < d.len() {
                    assert(d[k] == devs[k]);
                    assert(r.contains(x));
                    if !r.contains(last) {
                        assert(r.push(last)[r.index_of(x)] == x);
                    }
                } else {
                    if !r.contains(last) {
                        assert(r.push(last)[r.len() as int] == x);
                    }
                }
            }
        }
        if !r.contains(last) {
            let t = r.push(last);
            assert forall|i: int, j: int| 0 <= i < t.len() && 0 <= j < t.len() && i != j implies t[i] != t[j] by {
                if i < r.len() && j < r.len() {
                } else if i < r.len() {
                    assert(r.contains(t[i]));
                } else {
                    assert(r.contains(t[j]));
                }
            }
        }
    }
}

proof fn lemma_with_rank(ds: Seq<Seq<char>>, k: nat)
    requires
        ds.no_duplicates(),
    ensures
        with_rank(ds, k).no_duplicates(),
        forall|x: Seq<char>| with_rank(ds, k).contains(x) <==> ds.contains(x) && spec_driver_rank(x) == k,
        forall|i: int| 0 <= i < with_rank(ds, k).len() ==> spec_driver_rank(#[trigger] with_rank(ds, k)[i]) == k,
    decreases ds.len(),
{
    if ds.len() > 0 {
        let d = ds.drop_last();
        assert(d.no_duplicates()) by {
            assert forall|i: int, j: int| 0 <= i < d.len() && 0 <= j < d.len() && i != j implies d[i] != d[j] by {
                assert(d[i] == ds[i] && d[j] == ds[j]);
            }
        }
        lemma_with_rank(d, k);
        let r = with_rank(d, k);
        let last = ds.last();
        assert(!d.contains(last)) by {
            if d.contains(last) {
                let m = choose|m: int| 0 <= m < d.len() && d[m] == last;
                assert(ds[m] == ds[ds.len() - 1]);
            }
        }
        assert forall|x: Seq<char>| ds.contains(x) <==> d.contains(x) || x == last by {
            if ds.contains(x) {
                let m = choose|m: int| 0 <= m < ds.len() && ds[m] == x;
                if m < d.len() {
                    assert(d[m] == x);
                }
            }
            if d.contains(x) {
                let m = choose|m: int| 0 <= m < d.len() && d[m] == x;
                assert(ds[m] == x);
            }
            if x == last {
                assert(ds[ds.len() - 1] == x);
            }
        }
        if spec_driver_rank(last) == k {
            let t = r.push(last);
            assert forall|x: Seq<char>| t.contains(x) <==> r.contains(x) || x == last by {
                if t.contains(x) {
                    let m = choose|m: int| 0 <= m < t.len() && t[m] == x;
                    if m < r.len() {
                        assert(r[m] == x);
                    }
                }
                if r.contains(x) {
                    let m = choose|m: int| 0 <= m < r.len() && r[m] == x;
                    assert(t[m] == x);
                }
                if x == last {
                    assert(t[r.len() as int] == x);
                }
            }
            assert forall|i: int, j: int| 0 <= i < t.len() && 0 <= j < t.len() && i != j implies t[i] != t[j] by {
                if i < r.len() && j < r.len() {
                } else if i < r.len() {
                    assert(r.contains(t[i]));
                } else {
                    assert(r.contains(t[j]));
                }
            }
            assert forall|i: int| 0 <= i < t.len() implies spec_driver_rank(#[trigger] t[i]) == k by {
                if i < r.len() {
                    assert(t[i] == r[i]);
                }
            }
        }
    }
}

proof fn lemma_ranked_upto(ds: Seq<Seq<char>>, k: nat)
    requires
        ds.no_duplicates(),
    ensures
        ranked_upto(ds, k).no_duplicates(),
        forall|x: Seq<char>| ranked_upto(ds, k).contains(x) <==> ds.contains(x) && spec_driver_rank(x) < k,
        forall|i: int, j: int| 0 <= i < j < ranked_upto(ds, k).len()
            ==> spec_driver_rank(#[trigger] ranked_upto(ds, k)[i]) <= spec_driver_rank(#[trigger] ranked_upto(ds, k)[j]),
        forall|i: int| 0 <= i < ranked_upto(ds, k).len() ==> spec_driver_rank(#[trigger] ranked_upto(ds, k)[i]) < k,
    decreases k,
{
    if k > 0 {
        let k1 = (k - 1) as nat;
        lemma_ranked_upto(ds, k1);
        lemma_with_rank(ds, k1);
        let a = ranked_upto(ds, k1);
        let b = with_rank(ds, k1);
        let t = a + b;
        assert(ranked_upto(ds, k) == t);
        assert forall|x: Seq<char>| t.contains(x) <==> a.contains(x) || b.contains(x) by {
            if t.contains(x) {
                let m = choose|m: int| 0 <= m < t.len() && t[m] == x;
                if m < a.len() {
                    assert(a[m] == x);
                } else {
                    assert(b[m - a.len()] == x);
                }
            }
            if a.contains(x) {
                let m = choose|m: int| 0 <= m < a.len() && a[m] == x;
                assert(t[m] == x);
            }
            if b.contains(x) {
                let m = choose|m: int| 0 <= m < b.len() && b[m] == x;
                assert(t[a.len() + m] == x);
            }
        }
        assert forall|i: int| 0 <= i < t.len() implies spec_driver_rank(#[trigger] t[i]) < k by {
            if i < a.len() {
                assert(t[i] == a[i]);
            } else {
                assert(t[i] == b[i - a.len()]);
            }
        }
        assert forall|i: int, j: int| 0 <= i < j < t.len() implies spec_driver_rank(#[trigger] t[i]) <= spec_driver_rank(#[trigger] t[j]) by {
            if j < a.len() {
                assert(t[i] == a[i] && t[j] == a[j]);
            } else if i < a.len() {
                assert(t[i] == a[i] && t[j] == b[j - a.len()]);
            } else {
                assert(t[i] == b[i - a.len()] && t[j] == b[j - a.len()]);
            }
        }
        assert forall|i: int, j: int| 0 <= i < t.len() && 0 <= j < t.len() && i != j implies t[i] != t[j] by {
            if i < a.len() && j < a.len() {
                assert(t[i] == a[i] && t[j] == a[j]);
            } else if i >= a.len() && j >= a.len() {
                assert(t[i] == b[i - a.len()] && t[j] == b[j - a.len()]);
            } else if i < a.len() {
                assert(t[i] == a[i] && t[j] == b[j - a.len()]);
                assert(b.contains(t[j]));
                assert(a.contains(t[i]));
            } else {
                assert(t[j] == a[j] && t[i] == b[i - a.len()]);
                assert(b.contains(t[i]));
                assert(a.contains(t[j]));
            }
        }
    }
}

/// Law: codec names read case-insensitively as their codecs (`ogg` is Vorbis; `wave` and `pcm`
/// are WAV), and each known codec is shown under its own label.
pub proof fn lemma_codec_names(s: Seq<char>)
    ensures
        ascii_lower_seq(s) == "flac"@ ==> codec_of(s) == CodecView::Flac,
        ascii_lower_seq(s) == "alac"@ ==> codec_of(s) == CodecView::Alac,
        ascii_lower_seq(s) == "mp3"@ ==> codec_of(s) == CodecView::Mp3,
        ascii_lower_seq(s) == "aac"@ ==> codec_of(s) == CodecView::Aac,
        ascii_lower_seq(s) == "opus"@ ==> codec_of(s) == CodecView::Opus,
        ascii_lower_seq(s) == "vorbis"@ ==> codec_of(s) == CodecView::Vorbis,
        ascii_lower_seq(s) == "ogg"@ ==> codec_of(s) == CodecView::Vorbis,
        ascii_lower_seq(s) == "wav"@ ==> codec_of(s) == CodecView::Wav,
        ascii_lower_seq(s) == "wave"@ ==> codec_of(s) == CodecView::Wav,
        ascii_lower_seq(s) == "pcm"@ ==> codec_of(s) == CodecView::Wav,
        codec_label(CodecView::Flac) == "FLAC"@,
        codec_label(CodecView::Alac) == "ALAC"@,
        codec_label(CodecView::Mp3) == "MP3"@,
        codec_label(CodecView::Aac) == "AAC"@,
        codec_label(CodecView::Opus) == "Opus"@,
        codec_label(CodecView::Vorbis) == "Vorbis"@,
        codec_label(CodecView::Wav) == "WAV"@,
{
    reveal_strlit("flac");
    reveal_strlit("alac");
    reveal_strlit("mp3");
    reveal_strlit("aac");
    reveal_strlit("opus");
    reveal_strlit("vorbis");
    reveal_strlit("ogg");
    reveal_strlit("wav");
    reveal_strlit("wave");
    reveal_strlit("pcm");
    reveal_strlit("FLAC");
    reveal_strlit("ALAC");
    reveal_strlit("MP3");
    reveal_strlit("AAC");
    reveal_strlit("Opus");
    reveal_strlit("Vorbis");
    reveal_strlit("WAV");
    assert(ascii_lower_seq(s) == "flac"@ ==> codec_of(s) == CodecView::Flac) by {
        
    }
    assert(ascii_lower_seq(s) == "alac"@ ==> codec_of(s) == CodecView::Alac) by {
        assert(("alac"@)[0] != ("flac"@)[0]);
    }
    assert(ascii_lower_seq(s) == "mp3"@ ==> codec_of(s) == CodecView::Mp3) by {
        assert(("mp3"@).len() != ("flac"@).len());
        assert(("mp3"@).len() != ("alac"@).len());
    }
    assert(ascii_lower_seq(s) == "aac"@ ==> codec_of(s) == CodecView::Aac) by {
        assert(("aac"@).len() != ("flac"@).len());
        assert(("aac"@).len() != ("alac"@).len());
        assert(("aac"@)[0] != ("mp3"@)[0]);
    }
    assert(ascii_lower_seq(s) == "opus"@ ==> codec_of(s) == CodecView::Opus) by {
        assert(("opus"@)[0] != ("flac"@)[0]);
        assert(("opus"@)[0] != ("alac"@)[0]);
        assert(("opus"@).len() != ("mp3"@).len());
        assert(("opus"@).len() != ("aac"@).len());
    }
    assert(ascii_lower_seq(s) == "vorbis"@ ==> codec_of(s) == CodecView::Vorbis) by {
        assert(("vorbis"@).len() != ("flac"@).len());
        assert(("vorbis"@).len() != ("alac"@).len());
        assert(("vorbis"@).len() != ("mp3"@).len());
        assert(("vorbis"@).len() != ("aac"@).len());
        assert(("vorbis"@).len() != ("opus"@).len());
    }
    assert(ascii_lower_seq(s) == "ogg"@ ==> codec_of(s) == CodecView::Vorbis) by {
        assert(("ogg"@).len() != ("flac"@).len());
        assert(("ogg"@).len() != ("alac"@).len());
        assert(("ogg"@)[0] != ("mp3"@)[0]);
        assert(("ogg"@)[0] != ("aac"@)[0]);
        assert(("ogg"@).len() != ("opus"@).len());
        assert(("ogg"@).len() != ("vorbis"@).len());
    }
    assert(ascii_lower_seq(s) == "wav"@ ==> codec_of(s) == CodecView::Wav) by {
        assert(("wav"@).len() != ("flac"@).len());
        assert(("wav"@).len() != ("alac"@).len());
        assert(("wav"@)[0] != ("mp3"@)[0]);
        assert(("wav"@)[0] != ("aac"@)[0]);
        assert(("wav"@).len() != ("opus"@).len());
        assert(("wav"@).len() != ("vorbis"@).len());
        assert(("wav"@)[0] != ("ogg"@)[0]);
    }
    assert(ascii_lower_seq(s) == "wave"@ ==> codec_of(s) == CodecView::Wav) by {
        assert(("wave"@)[0] != ("flac"@)[0]);
        assert(("wave"@)[0] != ("alac"@)[0]);
        assert(("wave"@).len() != ("mp3"@).len());
        assert(("wave"@).len() != ("aac"@).len());
        assert(("wave"@)[0] != ("opus"@)[0]);
        assert(("wave"@).len() != ("vorbis"@).len());
        assert(("wave"@).len() != ("ogg"@).len());
        assert(("wave"@).len() != ("wav"@).len());
    }
    assert(ascii_lower_seq(s) == "pcm"@ ==> codec_of(s) == CodecView::Wav) by {
        assert(("pcm"@).len() != ("flac"@).len());
        assert(("pcm"@).len() != ("alac"@).len());
        assert(("pcm"@)[0] != ("mp3"@)[0]);
        assert(("pcm"@)[0] != ("aac"@)[0]);
        assert(("pcm"@).len() != ("opus"@).len());
        assert(("pcm"@).len() != ("vorbis"@).len());
        assert(("pcm"@)[0] != ("ogg"@)[0]);
        assert(("pcm"@)[0] != ("wav"@)[0]);
        assert(("pcm"@).len() != ("wave"@).len());
    }
}

/// Law: drivers rank ALSA first, then WASAPI, CoreAudio, PipeWire and Pulse, and every other
/// driver after all of them.
pub proof fn lemma_driver_rank_order(other: Seq<char>)
    ensures
        spec_driver_rank("alsa"@) < spec_driver_rank("wasapi"@),
        spec_driver_rank("wasapi"@) < spec_driver_rank("coreaudio"@),
        spec_driver_rank("coreaudio"@) < spec_driver_rank("pipewire"@),
        spec_driver_rank("pipewire"@) < spec_driver_rank("pulse"@),
        other != "alsa"@ && other != "wasapi"@ && other != "coreaudio"@ && other != "pipewire"@ && other != "pulse"@
            ==> spec_driver_rank("pulse"@) < spec_driver_rank(other),
{
    reveal_strlit("alsa");
    reveal_strlit("wasapi");
    reveal_strlit("coreaudio");
    reveal_strlit("pipewire");
    reveal_strlit("pulse");
    assert(spec_driver_rank("alsa"@) == 0) by {
        
    }
    assert(spec_driver_rank("wasapi"@) == 1) by {
        assert(("wasapi"@).len() != ("alsa"@).len());
    }
    assert(spec_driver_rank("coreaudio"@) == 2) by {
        assert(("coreaudio"@).len() != ("alsa"@).len());
        assert(("coreaudio"@).len() != ("wasapi"@).len());
    }
    assert(spec_driver_rank("pipewire"@) == 3) by {
        assert(("pipewire"@).len() != ("alsa"@).len());
        assert(("pipewire"@).len() != ("wasapi"@).len());
        assert(("pipewire"@).len() != ("coreaudio"@).len());
    }
    assert(spec_driver_rank("pulse"@) == 4) by {
        assert(("pulse"@).len() != ("alsa"@).len());
        assert(("pulse"@).len() != ("wasapi"@).len());
        assert(("pulse"@).len() != ("coreaudio"@).len());
        assert(("pulse"@).len() != ("pipewire"@).len());
    }
}

/// Grouping by driver makes one group per driver that occurs, never two for one driver, the
/// groups ordered by driver rank (ALSA, WASAPI, CoreAudio, PipeWire, Pulse, then the rest), and
/// each group holds exactly that driver's devices, in their original order.
pub proof fn lemma_group_by_driver_law(devs: Seq<AudioDeviceView>, x: Seq<char>)
    ensures
        forall|i: int, j: int| 0 <= i < j < spec_group_by_driver(devs).len()
            ==> (#[trigger] spec_group_by_driver(devs)[i]).0 != (#[trigger] spec_group_by_driver(devs)[j]).0
                && spec_driver_rank(spec_group_by_driver(devs)[i].0) <= spec_driver_rank(spec_group_by_driver(devs)[j].0),
        (exists|i: int| 0 <= i < spec_group_by_driver(devs).len() && (#[trigger] spec_group_by_driver(devs)[i]).0 == x)
            <==> (exists|k: int| 0 <= k < devs.len() && (#[trigger] devs[k]).driver == x),
        forall|i: int| 0 <= i < spec_group_by_driver(devs).len()
            ==> (#[trigger] spec_group_by_driver(devs)[i]).1 == devices_on(devs, spec_group_by_driver(devs)[i].0),
{
    let seen = drivers_seen(devs);
    lemma_drivers_seen(devs);
    lemma_ranked_upto(seen, 6);
    let order = ranked_upto(seen, 6);
    let g = spec_group_by_driver(devs);
    assert(g.len() == order.len());
    assert forall|i: int| 0 <= i < g.len() implies (#[trigger] g[i]).0 == order[i] && g[i].1 == devices_on(devs, order[i]) by {}
    assert forall|i: int, j: int| 0 <= i < j < g.len() implies (#[trigger] g[i]).0 != (#[trigger] g[j]).0
        && spec_driver_rank(g[i].0) <= spec_driver_rank(g[j].0) by {
        assert(g[i].0 == order[i] && g[j].0 == order[j]);
        assert(spec_driver_rank(order[i]) <= spec_driver_rank(order[j]));
    }
    assert(spec_driver_rank(x) < 6);
    if exists|i: int| 0 <= i < g.len() && (#[trigger] g[i]).0 == x {
        let i = choose|i: int| 0 <= i < g.len() && (#[trigger] g[i]).0 == x;
        assert(order[i] == x);
        assert(order.contains(x));
        assert(seen.contains(x));
    }
    if exists|k: int| 0 <= k < devs.len() && (#[trigger] devs[k]).driver == x {
        assert(seen.contains(x));
        assert(order.contains(x));
        let i = choose|i: int| 0 <= i < order.len() && order[i] == x;
        assert(g[i].0 == x);
    }
}

} // verus!
