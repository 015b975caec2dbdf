//! Actions the reducer consumes that carry no state of the UI with them.
use crate::model::ids::{PlaylistEntryId, PlaylistId};
use vstd::prelude::*;

verus! {

/// Selection in the focused column.
#[derive(Debug, Clone, PartialEq, Eq, Structural)]
pub enum SelectAction {
    ToggleVisualMode,
    ToggleItem,
    SelectAll,
    ClearSelection,
}

/// Views and overlays.
#[derive(Debug, Clone)]
pub enum ViewAction {
    ToggleZen,
    ToggleLyrics,
    ScrollLyrics(i32),
    ToggleHelp,
    ToggleHistory,
    SetTheme(String),
}

/// What is done to the item under the cursor, or to a playlist.
#[derive(Debug, Clone)]
pub enum ItemAction {
    ToggleFavorite,
    ToggleDownload,
    AddToPlaylist { playlist: PlaylistId },
    RemoveFromPlaylist { playlist: PlaylistId, entries: Vec<PlaylistEntryId> },
    MoveInPlaylist { playlist: PlaylistId, entry: PlaylistEntryId, new_index: usize },
    DeletePlaylist(PlaylistId),
    DeletePlaylistConfirmed(PlaylistId),
    SaveQueueAsPlaylist { name: String, overview: Option<String> },
}

} // verus!
