//! What the audio engine reports.
use crate::audio::error::AudioError;
use crate::model::audio_meta::{AudioDevice, AudioFormat};
use std::time::Duration;
use vstd::prelude::*;

verus! {

/// The player's own state.
#[derive(Debug, Clone, Copy, PartialEq, Eq, Structural)]
pub enum PlayStatus {
    Loading,
    Playing,
    Paused,
    Buffering,
    Stopped,
}

/// An event from the engine. Positions are spans of time here; the engine's own floating-point
/// seconds are converted at the edge.
#[derive(Debug, Clone)]
pub enum AudioEvent {
    StatusChanged(PlayStatus),
    Position { position: Duration, duration: Duration },
    Format(AudioFormat),
    TrackEnded { natural: bool },
    Devices(Vec<AudioDevice>),
    Buffering(u8),
    VolumeChanged { volume: u8, muted: bool },
    Error(AudioError),
}

} // verus!
