//! What can go wrong in the audio engine; each message is a single sentence ending in a period.
use vstd::prelude::*;

verus! {

#[derive(Debug, Clone, PartialEq)]
pub enum AudioError {
    LibraryNotFound { hint: String },
    Init(String),
    Command { cmd: &'static str, detail: String },
    Load { url_redacted: String, reason: String },
    DeviceUnavailable { id: String },
    Shutdown,
}

/// The one-sentence message of each error.
pub open spec fn audio_error_message(e: AudioError) -> Seq<char> {
    match e {
        AudioError::LibraryNotFound { .. } => "could not find the mpv library."@,
        AudioError::Init(_) => "the audio engine failed to initialise."@,
        AudioError::Command { .. } => "an mpv command failed."@,
        AudioError::Load { .. } => "could not load the track."@,
        AudioError::DeviceUnavailable { .. } => "the selected audio device is unavailable."@,
        AudioError::Shutdown => "the audio engine has shut down."@,
    }
}

impl AudioError {
    /// What displaying the error shows.
    pub fn to_string(&self) -> (r: String)
        ensures
            r@ == audio_error_message(*self),
    {
        match self {
            AudioError::LibraryNotFound { .. } => "could not find the mpv library.".to_string(),
            AudioError::Init(_) => "the audio engine failed to initialise.".to_string(),
            AudioError::Command { .. } => "an mpv command failed.".to_string(),
            AudioError::Load { .. } => "could not load the track.".to_string(),
            AudioError::DeviceUnavailable { .. } => "the selected audio device is unavailable.".to_string(),
            AudioError::Shutdown => "the audio engine has shut down.".to_string(),
        }
    }
}

} // verus!
