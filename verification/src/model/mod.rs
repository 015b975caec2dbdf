//! Domain model types.
pub mod ids;
pub mod image;
pub mod playback;
pub mod audio_meta;
pub mod item;
pub mod now_playing;
