//! The on-disk cache and downloads.
pub mod downloads;
pub mod error;
pub mod layout;
pub mod lru;
pub mod manifest;
pub mod offline_index;
pub mod scrobble;
pub mod session;
