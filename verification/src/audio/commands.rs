//! The engine's command table: which calls into the player each command becomes. Seeking and the
//! equalizer, whose arguments are computed in floating point, are mapped around it.
use crate::audio::error::AudioError;
use crate::audio::mpv::{loadfile_args, PROP_AUDIO_DEVICE, PROP_MUTE, PROP_PAUSE, PROP_VOLUME};
use crate::audio::replaygain::{mode_property, spec_mode_property};
use crate::config::schema::ReplayGainMode;
use crate::effect::RedactedUrl;
use vstd::prelude::*;

verus! {

pub const CMD_LOADFILE: &'static str = "loadfile";
pub const CMD_STOP: &'static str = "stop";
pub const LOADFILE_REPLACE: &'static str = "replace";
pub const LOADFILE_APPEND: &'static str = "append";
pub const OPT_REPLAYGAIN: &'static str = "replaygain";

/// One call into the player.
#[derive(Debug, Clone, PartialEq)]
pub enum PlayerCall {
    Command { name: &'static str, args: Vec<String> },
    SetFlag { name: &'static str, value: bool },
    SetText { name: &'static str, value: String },
    /// A numeric property; the player takes it as a floating-point number.
    SetNumber { name: &'static str, value: u8 },
}

/// A call as plain values.
pub enum PlayerCallView {
    Command { name: Seq<char>, args: Seq<Seq<char>> },
    SetFlag { name: Seq<char>, value: bool },
    SetText { name: Seq<char>, value: Seq<char> },
    SetNumber { name: Seq<char>, value: u8 },
}

impl View for PlayerCall {
    type V = PlayerCallView;

    open spec fn view(&self) -> PlayerCallView {
        match self {
            PlayerCall::Command { name, args } => PlayerCallView::Command {
                name: name@,
                args: args@.map_values(|s: String| s@),
            },
            PlayerCall::SetFlag { name, value } => PlayerCallView::SetFlag { name: name@, value: *value },
            PlayerCall::SetText { name, value } => PlayerCallView::SetText { name: name@, value: value@ },
            PlayerCall::SetNumber { name, value } => PlayerCallView::SetNumber { name: name@, value: *value },
        }
    }
}

/// The name of the command or property a call addresses.
pub open spec fn call_name(c: PlayerCallView) -> Seq<char> {
    match c {
        PlayerCallView::Command { name, .. } => name,
        PlayerCallView::SetFlag { name, .. } => name,
        PlayerCallView::SetText { name, .. } => name,
        PlayerCallView::SetNumber { name, .. } => name,
    }
}

impl PlayerCall {
    /// The error a failure of this call reports: the command or property it addressed and what
    /// the player said.
    pub fn failure(&self, detail: String) -> (r: AudioError)
        ensures
            r matches AudioError::Command { cmd, detail: d } && cmd@ == call_name(self@) && d@ == detail@,
    {
        let cmd = match self {
            PlayerCall::Command { name, .. } => *name,
            PlayerCall::SetFlag { name, .. } => *name,
            PlayerCall::SetText { name, .. } => *name,
            PlayerCall::SetNumber { name, .. } => *name,
        };
        AudioError::Command { cmd, detail }
    }
}

/// A command for the player engine, without the floating-point ones (seeking, the equalizer).
/// A load's options string is already built: the start offset is written in fractional seconds.
pub enum EngineCommand {
    Load { url: RedactedUrl, options: String },
    Preload { url: RedactedUrl, options: String },
    Play,
    Pause,
    Stop,
    SetVolume(u8),
    SetMute(bool),
    SetReplayGain(ReplayGainMode),
    SetDevice(String),
    /// Answered from the player's device list, not by a call here.
    EnumerateDevices,
    Shutdown,
}

/// `loadfile`'s arguments: the options string, when not empty, after the playlist index `0`.
pub open spec fn spec_loadfile_args(url: Seq<char>, flags: Seq<char>, options: Seq<char>) -> Seq<Seq<char>> {
    if options.len() == 0 {
        seq![url, flags]
    } else {
        seq![url, flags, "0"@, options]
    }
}

/// The calls a command becomes, in order. Loading a track also clears the pause flag, since a
/// load always means "play this now" and the player keeps `pause` across loads.
pub open spec fn spec_command_calls(cmd: EngineCommand) -> Seq<PlayerCallView> {
    match cmd {
        EngineCommand::Load { url, options } => seq![
            PlayerCallView::Command { name: "loadfile"@, args: spec_loadfile_args(url@, "replace"@, options@) },
            PlayerCallView::SetFlag { name: "pause"@, value: false },
        ],
        EngineCommand::Preload { url, options } => seq![
            PlayerCallView::Command { name: "loadfile"@, args: spec_loadfile_args(url@, "append"@, options@) },
        ],
        EngineCommand::Play => seq![PlayerCallView::SetFlag { name: "pause"@, value: false }],
        EngineCommand::Pause => seq![PlayerCallView::SetFlag { name: "pause"@, value: true }],
        EngineCommand::Stop => seq![PlayerCallView::Command { name: "stop"@, args: seq![] }],
        EngineCommand::SetVolume(v) => seq![PlayerCallView::SetNumber { name: "volume"@, value: v }],
        EngineCommand::SetMute(m) => seq![PlayerCallView::SetFlag { name: "mute"@, value: m }],
        EngineCommand::SetReplayGain(mode) => seq![
            PlayerCallView::SetText { name: "replaygain"@, value: spec_mode_property(mode) },
        ],
        EngineCommand::SetDevice(id) => seq![PlayerCallView::SetText { name: "audio-device"@, value: id@ }],
        EngineCommand::EnumerateDevices => seq![],
        EngineCommand::Shutdown => seq![],
    }
}

/// The calls `cmd` becomes; the engine makes them in order and stops at the first that fails,
/// with that call's `failure` (a device swap's failure is `device_rollback`'s instead).
pub fn command_calls(cmd: &EngineCommand) -> (r: Vec<PlayerCall>)
    ensures
        r@.map_values(|c: PlayerCall| c@) == spec_command_calls(*cmd),
{
    let mut r: Vec<PlayerCall> = Vec::new();
    match cmd {
        EngineCommand::Load { url, options } => {
            let args = loadfile_args(url.as_str(), LOADFILE_REPLACE, options.as_str());
            r.push(PlayerCall::Command { name: CMD_LOADFILE, args });
            r.push(PlayerCall::SetFlag { name: PROP_PAUSE, value: false });
        },
        EngineCommand::Preload { url, options } => {
            let args = loadfile_args(url.as_str(), LOADFILE_APPEND, options.as_str());
            r.push(PlayerCall::Command { name: CMD_LOADFILE, args });
        },
        EngineCommand::Play => r.push(PlayerCall::SetFlag { name: PROP_PAUSE, value: false }),
        EngineCommand::Pause => r.push(PlayerCall::SetFlag { name: PROP_PAUSE, value: true }),
        EngineCommand::Stop => {
            let args: Vec<String> = Vec::new();
            proof { assert(args@.map_values(|s: String| s@) =~= Seq::<Seq<char>>::empty()); }
            r.push(PlayerCall::Command { name: CMD_STOP, args });
        },
        EngineCommand::SetVolume(v) => r.push(PlayerCall::SetNumber { name: PROP_VOLUME, value: *v }),
        EngineCommand::SetMute(m) => r.push(PlayerCall::SetFlag { name: PROP_MUTE, value: *m }),
        EngineCommand::SetReplayGain(mode) => {
            r.push(PlayerCall::SetText { name: OPT_REPLAYGAIN, value: mode_property(*mode).to_string() });
        },
        EngineCommand::SetDevice(id) => r.push(PlayerCall::SetText { name: PROP_AUDIO_DEVICE, value: id.clone() }),
        EngineCommand::EnumerateDevices => {},
        EngineCommand::Shutdown => {},
    }
    proof {
        assert(r@.map_values(|c: PlayerCall| c@) =~= spec_command_calls(*cmd));
    }
    r
}

/// A failed device swap: the device that was current before (when it could be read) is set
/// back, so playback never goes silent unexplained, and the new device is reported unavailable.
pub fn device_rollback(id: String, previous: Option<String>) -> (r: (Option<PlayerCall>, AudioError))
    ensures
        match previous {
            Some(p) => r.0 matches Some(c) && c@ == (PlayerCallView::SetText { name: "audio-device"@, value: p@ }),
            None => r.0 is None,
        },
        r.1 matches AudioError::DeviceUnavailable { id: i } && i@ == id@,
{
    let restore = match previous {
        Some(p) => Some(PlayerCall::SetText { name: PROP_AUDIO_DEVICE, value: p }),
        None => None,
    };
    (restore, AudioError::DeviceUnavailable { id })
}

} // verus!
