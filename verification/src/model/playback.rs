//! Playback reports and how a track is played.
use crate::config::schema::QualityProfile;
use crate::model::ids::{ItemId, PlaySessionId};
use std::time::Duration;
use vstd::prelude::*;

verus! {

/// `DirectStream` for the `Direct` quality profile, `Transcode` for every transcoding profile.
#[derive(Debug, Clone, Copy, PartialEq, Eq, Structural)]
pub enum PlayMethod {
    DirectStream,
    Transcode,
}

impl PlayMethod {
    pub fn from_quality_profile(profile: QualityProfile) -> (r: PlayMethod)
        ensures
            r == (if profile == QualityProfile::Direct { PlayMethod::DirectStream } else { PlayMethod::Transcode }),
    {
        match profile {
            QualityProfile::Direct => PlayMethod::DirectStream,
            QualityProfile::TranscodeHigh | QualityProfile::TranscodeMed | QualityProfile::TranscodeLow => PlayMethod::Transcode,
        }
    }

    /// The wire-format value the server's progress report expects.
    pub fn as_str(self) -> (r: &'static str)
        ensures
            r@ == (match self {
                PlayMethod::DirectStream => "DirectStream"@,
                PlayMethod::Transcode => "Transcode"@,
            }),
    {
        match self {
            PlayMethod::DirectStream => "DirectStream",
            PlayMethod::Transcode => "Transcode",
        }
    }
}

/// One report to the server about playback; plain owned data, so it can be buffered offline.
#[derive(Debug, Clone)]
pub enum PlaybackReport {
    Start { item: ItemId, session: PlaySessionId },
    Progress { item: ItemId, session: PlaySessionId, position: Duration, paused: bool, play_method: PlayMethod },
    Stopped { item: ItemId, session: PlaySessionId, position: Duration },
    Played { item: ItemId },
}

} // verus!
