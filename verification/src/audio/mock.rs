//! The test engine's logic: a deterministic fake player driven by a virtual clock. The shared
//! handle and the event channels live around it; this records every command and decides what
//! each command and each step of the clock emits.
use crate::audio::backend::{AudioEvent, PlayStatus};
use crate::audio::error::AudioError;
use crate::clock::{duration_as_nanos, duration_nanos, duration_new};
use crate::effect::{spec_redact_api_key, RedactedUrl};
use crate::model::audio_meta::{clone_device, AudioDevice, AudioDeviceView, AudioFormat, Codec, CodecView};
use crate::text::str_eq;
use std::time::Duration;
use vstd::prelude::*;

verus! {

/// What a seeded load simulates: the format it reports and the length of the track.
#[derive(Debug, Clone)]
pub struct TrackProfile {
    pub format: AudioFormat,
    pub duration: Duration,
}

impl Default for TrackProfile {
    /// A plausible, generously long track: FLAC, 44.1 kHz, 16-bit stereo, three minutes.
    fn default() -> (r: TrackProfile)
        ensures
            r.format.codec@ == CodecView::Flac,
            r.format.sample_rate_hz == 44_100,
            r.format.bit_depth == Some(16u8),
            r.format.channels == 2,
            r.format.bitrate_bps is None,
            duration_nanos(r.duration) == 180_000_000_000,
    {
        TrackProfile {
            format: AudioFormat { codec: Codec::Flac, sample_rate_hz: 44_100, bit_depth: Some(16), channels: 2, bitrate_bps: None },
            duration: duration_new(180, 0),
        }
    }
}

/// A command as the test engine reads it; the rest of a command's payload only goes into the
/// command log.
#[derive(Clone)]
pub enum MockCommand {
    Load { url: RedactedUrl },
    Play,
    Pause,
    Stop,
    EnumerateDevices,
    SetDevice(String),
    /// Recorded, with no simulated event.
    Other,
}

/// The position step of the virtual clock: a quarter of a second, the real engine's rate.
pub open spec fn interval_nanos() -> nat {
    250_000_000
}

/// The test engine's state.
pub struct MockState {
    /// Virtual position and track length, in nanoseconds.
    pub position_ns: u128,
    pub duration_ns: u128,
    pub loaded: bool,
    /// Seeded per-URL profiles; a later seed for the same URL replaces the earlier one.
    pub profiles: Vec<(String, TrackProfile)>,
    pub devices: Vec<AudioDevice>,
    pub fail_next_load: Option<String>,
    /// While set, commands are recorded but nothing is simulated.
    pub stalled: bool,
    /// Every command sent, in order, stalled or not.
    pub commands: Vec<MockCommand>,
}

/// The format a load reports: the seeded profile's, or the default FLAC 44.1 kHz 16-bit stereo.
pub open spec fn load_format_ok(g: AudioFormat, p: Option<TrackProfile>) -> bool {
    match p {
        Some(q) => g.codec@ == q.format.codec@ && g.sample_rate_hz == q.format.sample_rate_hz
            && g.bit_depth == q.format.bit_depth && g.channels == q.format.channels && g.bitrate_bps == q.format.bitrate_bps,
        None => g.codec@ == CodecView::Flac && g.sample_rate_hz == 44_100 && g.bit_depth == Some(16u8)
            && g.channels == 2 && g.bitrate_bps is None,
    }
}

/// The profile seeded for `url` last, if any.
pub open spec fn profile_for(p: Seq<(String, TrackProfile)>, url: Seq<char>) -> Option<TrackProfile>
    decreases p.len(),
{
    if p.len() == 0 {
        None
    } else if p.last().0@ == url {
        Some(p.last().1)
    } else {
        profile_for(p.drop_last(), url)
    }
}

/// A span the engine can express (at most `u64::MAX` whole seconds).
pub open spec fn fits_duration(ns: nat) -> bool {
    ns / 1_000_000_000 <= u64::MAX
}

fn to_duration(ns: u128) -> (d: Duration)
    requires
        fits_duration(ns as nat),
    ensures
        duration_nanos(d) == ns,
{
    let secs = (ns / 1_000_000_000) as u64;
    let nanos = (ns % 1_000_000_000) as u32;
    duration_new(secs, nanos)
}

proof fn lemma_fits_below(d: nat)
    requires
        fits_duration(d),
    ensures
        d < 0x1_0000_0000_0000_0000_0000_0000_0000,
{
    assert(d / 1_000_000_000 <= 0xffff_ffff_ffff_ffff);
    assert(d < (d / 1_000_000_000 + 1) * 1_000_000_000) by (nonlinear_arith);
    assert((d / 1_000_000_000 + 1) * 1_000_000_000 <= 0x1_0000_0000_0000_0000 * 1_000_000_000) by (nonlinear_arith)
        requires
            d / 1_000_000_000 <= 0xffff_ffff_ffff_ffff;
}

proof fn lemma_fits_mono(a: nat, b: nat)
    requires
        a <= b,
        fits_duration(b),
    ensures
        fits_duration(a),
{
    assert(a / 1_000_000_000 <= b / 1_000_000_000) by (nonlinear_arith)
        requires
            a <= b;
}

/// `devs` without the devices whose id is `id`, in order.
pub open spec fn without_id(devs: Seq<AudioDeviceView>, id: Seq<char>) -> Seq<AudioDeviceView>
    decreases devs.len(),
{
    if devs.len() == 0 {
        devs
    } else {
        let r = without_id(devs.drop_last(), id);
        if devs.last().id == id {
            r
        } else {
            r.push(devs.last())
        }
    }
}

/// One event of the virtual clock, as plain values.
pub enum Tick {
    Position(nat),
    Ended,
}

/// What `steps` quarter-second steps from position `p` of a track of length `d` emit: a
/// position per step (the last one clamped to `d`), then the natural end if `d` is reached.
pub open spec fn ticks(p: nat, d: nat, steps: nat) -> Seq<Tick>
    decreases steps,
{
    if steps == 0 {
        Seq::empty()
    } else if p + interval_nanos() >= d {
        seq![Tick::Position(d), Tick::Ended]
    } else {
        seq![Tick::Position(p + interval_nanos())] + ticks(p + interval_nanos(), d, (steps - 1) as nat)
    }
}

/// An engine event as a tick, if it is one.
pub open spec fn as_tick(e: AudioEvent, d: nat) -> Option<Tick> {
    match e {
        AudioEvent::Position { position, duration } => if duration_nanos(duration) == d {
            Some(Tick::Position(duration_nanos(position)))
        } else {
            None
        },
        AudioEvent::TrackEnded { natural } => if natural { Some(Tick::Ended) } else { None },
        _ => None,
    }
}

/// Every event is the tick at the same place in `t`.
pub open spec fn events_are_ticks(ev: Seq<AudioEvent>, t: Seq<Tick>, d: nat) -> bool {
    ev.len() == t.len() && forall|i: int| 0 <= i < ev.len() ==> as_tick(#[trigger] ev[i], d) == Some(t[i])
}

/// Where the clock ends: clamped at `d`, after `steps` steps.
pub open spec fn position_after(p: nat, d: nat, steps: nat) -> nat
    decreases steps,
{
    if steps == 0 {
        p
    } else if p + interval_nanos() >= d {
        d
    } else {
        position_after(p + interval_nanos(), d, (steps - 1) as nat)
    }
}

/// Whether the track is still loaded after `steps` steps.
pub open spec fn still_loaded_after(p: nat, d: nat, steps: nat) -> bool
    decreases steps,
{
    if steps == 0 {
        true
    } else if p + interval_nanos() >= d {
        false
    } else {
        still_loaded_after(p + interval_nanos(), d, (steps - 1) as nat)
    }
}

impl MockState {
    /// Nothing loaded, nothing seeded.
    pub fn new() -> (r: MockState)
        ensures
            r.position_ns == 0 && r.duration_ns == 0 && !r.loaded && r.profiles@.len() == 0
                && r.devices@.len() == 0 && r.fail_next_load is None && !r.stalled && r.commands@.len() == 0,
    {
        MockState {
            position_ns: 0,
            duration_ns: 0,
            loaded: false,
            profiles: Vec::new(),
            devices: Vec::new(),
            fail_next_load: None,
            stalled: false,
            commands: Vec::new(),
        }
    }

    fn find_profile(&self, url: &str) -> (r: Option<TrackProfile>)
        ensures
            match profile_for(self.profiles@, url@) {
                Some(p) => r matches Some(q) && q.format.codec@ == p.format.codec@ && q.format.sample_rate_hz == p.format.sample_rate_hz
                    && q.format.bit_depth == p.format.bit_depth && q.format.channels == p.format.channels
                    && q.format.bitrate_bps == p.format.bitrate_bps && duration_nanos(q.duration) == duration_nanos(p.duration),
                None => r is None,
            },
    {
        let mut i = self.profiles.len();
        assert(self.profiles@.take(i as int) =~= self.profiles@);
        while i > 0
            invariant
                i <= self.profiles@.len(),
                profile_for(self.profiles@, url@) == profile_for(self.profiles@.take(i as int), url@),
            decreases i,
        {
            let ghost t = self.profiles@.take(i as int);
            assert(t.last() == self.profiles@[i - 1]);
            assert(t.drop_last() =~= self.profiles@.take(i - 1));
            if str_eq(self.profiles[i - 1].0.as_str(), url) {
                let p = &self.profiles[i - 1].1;
                let codec = match &p.format.codec {
                    Codec::Flac => Codec::Flac,
                    Codec::Alac => Codec::Alac,
                    Codec::Mp3 => Codec::Mp3,
                    Codec::Aac => Codec::Aac,
                    Codec::Opus => Codec::Opus,
                    Codec::Vorbis => Codec::Vorbis,
                    Codec::Wav => Codec::Wav,
                    Codec::Other(s) => Codec::Other(s.clone()),
                };
                return Some(TrackProfile {
                    format: AudioFormat {
                        codec,
                        sample_rate_hz: p.format.sample_rate_hz,
                        bit_depth: p.format.bit_depth,
                        channels: p.format.channels,
                        bitrate_bps: p.format.bitrate_bps,
                    },
                    duration: p.duration,
                });
            }
            i = i - 1;
        }
        None
    }

    /// What `cmd` emits, in order, and how it changes the state; every command is recorded. A
    /// stalled engine emits nothing. A load fails once if a failure was armed; otherwise it takes
    /// the URL's seeded profile (or the default), rewinds, and reports loading, the format, and
    /// playing.
    pub fn send(&mut self, cmd: MockCommand) -> (r: Vec<AudioEvent>)
        ensures
            final(self).commands@ == old(self).commands@.push(cmd),
            final(self).stalled == old(self).stalled,
            final(self).profiles@ == old(self).profiles@,
            final(self).devices@ == old(self).devices@,
            old(self).stalled ==> r@.len() == 0 && final(self).loaded == old(self).loaded
                && final(self).fail_next_load == old(self).fail_next_load
                && final(self).position_ns == old(self).position_ns && final(self).duration_ns == old(self).duration_ns,
            !old(self).stalled ==> match cmd {
                MockCommand::Load { url } => match old(self).fail_next_load {
                    Some(reason) => {
                        &&& !final(self).loaded && final(self).fail_next_load is None
                        &&& final(self).position_ns == old(self).position_ns && final(self).duration_ns == old(self).duration_ns
                        &&& r@.len() == 1
                        &&& r@[0] matches AudioEvent::Error(AudioError::Load { url_redacted, reason: why })
                        &&& url_redacted@ == spec_redact_api_key(url@) && why@ == reason@
                    },
                    None => {
                        &&& final(self).loaded && final(self).position_ns == 0 && final(self).fail_next_load is None
                        &&& final(self).duration_ns == match profile_for(old(self).profiles@, url@) {
                            Some(p) => duration_nanos(p.duration),
                            None => 180_000_000_000nat,
                        }
                        &&& r@.len() == 3
                        &&& r@[0] == AudioEvent::StatusChanged(PlayStatus::Loading)
                        &&& r@[1] matches AudioEvent::Format(g) && load_format_ok(g, profile_for(old(self).profiles@, url@))
                        &&& r@[2] == AudioEvent::StatusChanged(PlayStatus::Playing)
                    },
                },
                MockCommand::Stop => !final(self).loaded && final(self).fail_next_load == old(self).fail_next_load
                    && final(self).position_ns == old(self).position_ns && final(self).duration_ns == old(self).duration_ns
                    && (r@ == seq![AudioEvent::TrackEnded { natural: false }, AudioEvent::StatusChanged(PlayStatus::Stopped)]),
                _ => final(self).loaded == old(self).loaded && final(self).fail_next_load == old(self).fail_next_load
                    && final(self).position_ns == old(self).position_ns && final(self).duration_ns == old(self).duration_ns
                    && match cmd {
                    MockCommand::Play => r@ == seq![AudioEvent::StatusChanged(PlayStatus::Playing)],
                    MockCommand::Pause => r@ == seq![AudioEvent::StatusChanged(PlayStatus::Paused)],
                    MockCommand::EnumerateDevices => r@.len() == 1 && (r@[0] matches AudioEvent::Devices(ds)
                        && ds@.map_values(|d: AudioDevice| d@) == old(self).devices@.map_values(|d: AudioDevice| d@)),
                    MockCommand::SetDevice(id) => if exists|i: int| 0 <= i < old(self).devices@.len() && (#[trigger] old(self).devices@[i]).id@ == id@ {
                        r@.len() == 0
                    } else {
                        r@.len() == 1 && (r@[0] matches AudioEvent::Error(AudioError::DeviceUnavailable { id: gone }) && gone@ == id@)
                    },
                    _ => r@.len() == 0,
                },
            },
    {
        let mut out: Vec<AudioEvent> = Vec::new();
        if self.stalled {
            self.commands.push(cmd);
            return out;
        }
        match &cmd {
            MockCommand::Load { url } => {
                let armed = self.fail_next_load.take();
                match armed {
                    Some(reason) => {
                        self.loaded = false;
                        out.push(AudioEvent::Error(AudioError::Load { url_redacted: url.to_string(), reason }));
                    },
                    None => {
                        let profile = match self.find_profile(url.as_str()) {
                            Some(p) => p,
                            None => TrackProfile::default(),
                        };
                        let d = duration_as_nanos(&profile.duration);
                        self.position_ns = 0;
                        self.duration_ns = d;
                        self.loaded = true;
                        out.push(AudioEvent::StatusChanged(PlayStatus::Loading));
                        out.push(AudioEvent::Format(profile.format));
                        out.push(AudioEvent::StatusChanged(PlayStatus::Playing));
                    },
                }
            },
            MockCommand::Play => {
                out.push(AudioEvent::StatusChanged(PlayStatus::Playing));
            },
            MockCommand::Pause => {
                out.push(AudioEvent::StatusChanged(PlayStatus::Paused));
            },
            MockCommand::Stop => {
                self.loaded = false;
                out.push(AudioEvent::TrackEnded { natural: false });
                out.push(AudioEvent::StatusChanged(PlayStatus::Stopped));
            },
            MockCommand::EnumerateDevices => {
                let mut devices: Vec<AudioDevice> = Vec::new();
                let mut i: usize = 0;
                while i < self.devices.len()
                    invariant
                        i <= self.devices@.len(),
                        devices@.map_values(|d: AudioDevice| d@) == self.devices@.take(i as int).map_values(|d: AudioDevice| d@),
                    decreases self.devices@.len() - i,
                {
                    let ghost before = devices@;
                    devices.push(clone_device(&self.devices[i]));
                    assert(self.devices@.take(i + 1) =~= self.devices@.take(i as int).push(self.devices@[i as int]));
                    assert(devices@.map_values(|d: AudioDevice| d@) =~= before.map_values(|d: AudioDevice| d@).push(self.devices@[i as int]@));
                    assert(self.devices@.take(i + 1).map_values(|d: AudioDevice| d@) =~= self.devices@.take(i as int).map_values(|d: AudioDevice| d@).push(self.devices@[i as int]@));
                    i = i + 1;
                }
                assert(self.devices@.take(self.devices@.len() as int) =~= self.devices@);
                out.push(AudioEvent::Devices(devices));
            },
            MockCommand::SetDevice(id) => {
                let mut known = false;
                let mut i: usize = 0;
                while i < self.devices.len()
                    invariant
                        i <= self.devices@.len(),
                        known == exists|k: int| 0 <= k < i && (#[trigger] self.devices@[k]).id@ == id@,
                    decreases self.devices@.len() - i,
                {
                    if str_eq(self.devices[i].id.as_str(), id.as_str()) {
                        known = true;
                    }
                    i = i + 1;
                }
                if !known {
                    out.push(AudioEvent::Error(AudioError::DeviceUnavailable { id: id.clone() }));
                }
            },
            MockCommand::Other => {},
        }
        self.commands.push(cmd);
        out
    }

    /// The commands sent so far, in order.
    pub fn commands(&self) -> (r: &Vec<MockCommand>)
        ensures
            r@ == self.commands@,
    {
        &self.commands
    }

    /// Drives the virtual clock forward by `by`: one position per quarter second crossed;
    /// reaching the track's length reports the natural end and stops early. Nothing happens
    /// when nothing is loaded.
    pub fn advance(&mut self, by: Duration) -> (r: Vec<AudioEvent>)
        requires
            old(self).position_ns <= old(self).duration_ns,
            fits_duration(old(self).duration_ns as nat),
        ensures
            !old(self).loaded ==> r@.len() == 0 && final(self).position_ns == old(self).position_ns && !final(self).loaded,
            old(self).loaded ==> {
                let steps = duration_nanos(by) / interval_nanos();
                &&& events_are_ticks(r@, ticks(old(self).position_ns as nat, old(self).duration_ns as nat, steps), old(self).duration_ns as nat)
                &&& final(self).position_ns == position_after(old(self).position_ns as nat, old(self).duration_ns as nat, steps)
                &&& final(self).loaded == still_loaded_after(old(self).position_ns as nat, old(self).duration_ns as nat, steps)
            },
            final(self).duration_ns == old(self).duration_ns,
            final(self).position_ns <= final(self).duration_ns,
            final(self).commands == old(self).commands && final(self).profiles == old(self).profiles,
            final(self).devices == old(self).devices && final(self).fail_next_load == old(self).fail_next_load,
            final(self).stalled == old(self).stalled,
    {
        let mut out: Vec<AudioEvent> = Vec::new();
        if !self.loaded {
            return out;
        }
        let d = self.duration_ns;
        let total = duration_as_nanos(&by);
        let steps = total / 250_000_000;
        let ghost p0 = self.position_ns as nat;
        let ghost all = ticks(p0, d as nat, steps as nat);
        let ghost emitted: Seq<Tick> = Seq::empty();
        proof {
            assert(all =~= emitted + ticks(p0, d as nat, steps as nat));
            lemma_fits_below(d as nat);
        }
        let mut k: u128 = 0;
        while k < steps
            invariant
                k <= steps,
                old(self).loaded,
                self.commands == old(self).commands && self.profiles == old(self).profiles,
                self.devices == old(self).devices && self.fail_next_load == old(self).fail_next_load,
                self.stalled == old(self).stalled,
                old(self).duration_ns == d,
                old(self).position_ns as nat == p0,
                steps as nat == duration_nanos(by) / interval_nanos(),
                all == ticks(p0, d as nat, steps as nat),
                self.loaded,
                self.duration_ns == d,
                self.position_ns <= d,
                fits_duration(d as nat),
                d < 0x1_0000_0000_0000_0000_0000_0000_0000,
                all == emitted + ticks(self.position_ns as nat, d as nat, (steps - k) as nat),
                events_are_ticks(out@, emitted, d as nat),
                position_after(p0, d as nat, steps as nat) == position_after(self.position_ns as nat, d as nat, (steps - k) as nat),
                still_loaded_after(p0, d as nat, steps as nat) == still_loaded_after(self.position_ns as nat, d as nat, (steps - k) as nat),
            decreases steps - k,
        {
            let next = self.position_ns + 250_000_000;
            let ghost m = (steps - k) as nat;
            let ghost cur = self.position_ns as nat;
            let ghost before = out@;
            if next >= d {
                self.position_ns = d;
                let pd = to_duration(d);
                let dd = to_duration(d);
                out.push(AudioEvent::Position { position: pd, duration: dd });
                out.push(AudioEvent::TrackEnded { natural: true });
                self.loaded = false;
                proof {
                    let tail = seq![Tick::Position(d as nat), Tick::Ended];
                    assert(ticks(cur, d as nat, m) == tail);
                    assert(position_after(cur, d as nat, m) == d as nat);
                    assert(!still_loaded_after(cur, d as nat, m));
                    assert(out@ =~= before.push(AudioEvent::Position { position: pd, duration: dd }).push(AudioEvent::TrackEnded { natural: true }));
                    assert(events_are_ticks(out@, emitted + tail, d as nat)) by {
                        assert forall|q: int| 0 <= q < out@.len() implies as_tick(#[trigger] out@[q], d as nat) == Some((emitted + tail)[q]) by {
                            if q < before.len() {
                                assert(out@[q] == before[q]);
                            }
                        }
                    }
                    assert(all == emitted + tail);
                    assert(events_are_ticks(out@, all, d as nat));
                    assert(ticks(p0, d as nat, duration_nanos(by) / interval_nanos()) == all);
                }
                return out;
            }
            self.position_ns = next;
            proof {
                lemma_fits_mono(next as nat, d as nat);
            }
            let pd = to_duration(next);
            let dd = to_duration(d);
            out.push(AudioEvent::Position { position: pd, duration: dd });
            proof {
                let t = Tick::Position(next as nat);
                assert(out@ =~= before.push(AudioEvent::Position { position: pd, duration: dd }));
                assert(events_are_ticks(out@, emitted.push(t), d as nat)) by {
                    assert forall|q: int| 0 <= q < out@.len() implies as_tick(#[trigger] out@[q], d as nat) == Some(emitted.push(t)[q]) by {
                        if q < before.len() {
                            assert(out@[q] == before[q]);
                        }
                    }
                }
                assert(emitted + (seq![t] + ticks(next as nat, d as nat, (m - 1) as nat)) =~= emitted.push(t) + ticks(next as nat, d as nat, (m - 1) as nat));
                emitted = emitted.push(t);
            }
            k = k + 1;
        }
        proof {
            assert(emitted + ticks(self.position_ns as nat, d as nat, 0) =~= emitted);
        }
        out
    }

    /// Forces the natural end now, if a track is loaded.
    pub fn finish_track(&mut self) -> (r: Vec<AudioEvent>)
        ensures
            !final(self).loaded,
            old(self).loaded ==> r@ == seq![AudioEvent::TrackEnded { natural: true }],
            !old(self).loaded ==> r@.len() == 0,
            final(self).position_ns == old(self).position_ns && final(self).duration_ns == old(self).duration_ns,
            final(self).commands == old(self).commands && final(self).profiles == old(self).profiles,
            final(self).devices == old(self).devices && final(self).fail_next_load == old(self).fail_next_load,
            final(self).stalled == old(self).stalled,
    {
        let mut out: Vec<AudioEvent> = Vec::new();
        if !self.loaded {
            return out;
        }
        self.loaded = false;
        out.push(AudioEvent::TrackEnded { natural: true });
        out
    }

    /// The next load fails with `reason`.
    pub fn fail_next_load(&mut self, reason: &str)
        ensures
            final(self).fail_next_load matches Some(r) && r@ == reason@,
            *final(self) == (MockState { fail_next_load: final(self).fail_next_load, ..*old(self) }),
    {
        self.fail_next_load = Some(reason.to_string());
    }

    /// While stalled, commands are recorded but nothing is simulated.
    pub fn stall(&mut self, yes: bool)
        ensures
            *final(self) == (MockState { stalled: yes, ..*old(self) }),
    {
        self.stalled = yes;
    }

    /// The device list.
    pub fn set_devices(&mut self, d: Vec<AudioDevice>)
        ensures
            *final(self) == (MockState { devices: d, ..*old(self) }),
    {
        self.devices = d;
    }

    /// Drops every device with id `id`, keeping the others in order.
    pub fn remove_device(&mut self, id: &str)
        ensures
            final(self).devices@.map_values(|d: AudioDevice| d@) == without_id(old(self).devices@.map_values(|d: AudioDevice| d@), id@),
            *final(self) == (MockState { devices: final(self).devices, ..*old(self) }),
    {
        let ghost dv = self.devices@.map_values(|d: AudioDevice| d@);
        let mut kept: Vec<AudioDevice> = Vec::new();
        let mut i: usize = 0;
        while i < self.devices.len()
            invariant
                i <= self.devices@.len(),
                dv == self.devices@.map_values(|d: AudioDevice| d@),
                kept@.map_values(|d: AudioDevice| d@) == without_id(dv.take(i as int), id@),
            decreases self.devices@.len() - i,
        {
            let ghost t = dv.take(i + 1);
            assert(t.drop_last() =~= dv.take(i as int));
            assert(t.last() == self.devices@[i as int]@);
            if !str_eq(self.devices[i].id.as_str(), id) {
                let d = clone_device(&self.devices[i]);
                let ghost before = kept@;
                kept.push(d);
                assert(kept@.map_values(|d: AudioDevice| d@) =~= before.map_values(|d: AudioDevice| d@).push(self.devices@[i as int]@));
            }
            i = i + 1;
        }
        assert(dv.take(dv.len() as int) =~= dv);
        self.devices = kept;
    }

    /// Seeds what a later load of exactly `url` simulates; a later seed replaces an earlier one.
    pub fn seed_track(&mut self, url: &str, profile: TrackProfile)
        ensures
            final(self).profiles@ == old(self).profiles@.push((final(self).profiles@.last().0, profile)),
            final(self).profiles@.last().0@ == url@,
            profile_for(final(self).profiles@, url@) == Some(profile),
            *final(self) == (MockState { profiles: final(self).profiles, ..*old(self) }),
    {
        self.profiles.push((url.to_string(), profile));
    }
}

} // verus!
