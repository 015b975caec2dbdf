//! ReplayGain modes as the player's own property values.
use crate::config::schema::ReplayGainMode;
use vstd::prelude::*;

verus! {

/// The player's `replaygain` property value for a mode: `album`, `track`, or `no`.
pub open spec fn spec_mode_property(mode: ReplayGainMode) -> Seq<char> {
    match mode {
        ReplayGainMode::Album => "album"@,
        ReplayGainMode::Track => "track"@,
        ReplayGainMode::Off => "no"@,
    }
}

pub fn mode_property(mode: ReplayGainMode) -> (r: &'static str)
    ensures
        r@ == spec_mode_property(mode),
{
    match mode {
        ReplayGainMode::Album => "album",
        ReplayGainMode::Track => "track",
        ReplayGainMode::Off => "no",
    }
}

/// Law: each mode sets the player's `replaygain` to its own value, the three values all
/// different: album gain for `Album`, track gain for `Track`, and none for `Off`.
pub proof fn lemma_mode_values()
    ensures
        spec_mode_property(ReplayGainMode::Album) == "album"@,
        spec_mode_property(ReplayGainMode::Track) == "track"@,
        spec_mode_property(ReplayGainMode::Off) == "no"@,
        "album"@ != "track"@ && "album"@ != "no"@ && "track"@ != "no"@,
{
    reveal_strlit("album");
    reveal_strlit("track");
    reveal_strlit("no");
    assert(("album"@)[0] != ("track"@)[0]);
}

} // verus!
