//! The audio engine's logic: errors, events, ReplayGain, the player's properties and command table, and the test
//! engine.
pub mod backend;
pub mod commands;
pub mod error;
pub mod mock;
pub mod mpv;
pub mod replaygain;
