//! Key chords, key bindings, the bindable action identities, and the binding table.
use crate::text::{chars_of, eq_str};
use smallvec::SmallVec;
use vstd::prelude::*;

pub mod parse;
pub mod resolve;
pub mod table;

verus! {

/// `Char(' ')` is Space; there is no separate `Space` variant.
#[derive(Debug, Clone, Copy, PartialEq, Eq, PartialOrd, Ord, Hash, Structural)]
pub enum KeyCode {
    Char(char),
    Enter,
    Esc,
    Tab,
    Backspace,
    Delete,
    Left,
    Right,
    Up,
    Down,
    Home,
    End,
    PageUp,
    PageDown,
    F(u8),
    Insert,
}

/// The `Ctrl`/`Alt`/`Shift` flags of a chord.
#[derive(Debug, Clone, Copy, PartialEq, Eq, PartialOrd, Ord, Hash, Default, Structural)]
pub struct KeyModifiers {
    pub ctrl: bool,
    pub alt: bool,
    pub shift: bool,
}

impl KeyModifiers {
    /// No modifier held.
    pub fn none() -> (r: KeyModifiers)
        ensures
            !r.ctrl && !r.alt && !r.shift,
    {
        KeyModifiers { ctrl: false, alt: false, shift: false }
    }
}

#[derive(Debug, Clone, Copy, PartialEq, Eq, PartialOrd, Ord, Hash, Structural)]
pub struct KeyChord {
    pub code: KeyCode,
    pub mods: KeyModifiers,
}

/// One or two chords (two for the `g`-prefixed sequences).
#[verifier::external_body]
#[derive(Debug, PartialEq, Eq, PartialOrd, Ord, Hash)]
pub struct KeyBinding(SmallVec<[KeyChord; 2]>);

/// What a `KeyBinding`'s `SmallVec` holds: its chords, in order.
pub uninterp spec fn binding_chords(b: KeyBinding) -> Seq<KeyChord>;

/// `SmallVec::from_slice`: a binding holding exactly `chords`.
#[verifier::external_body]
pub(crate) fn binding_from_chords(chords: &[KeyChord]) -> (b: KeyBinding)
    ensures
        binding_chords(b) == chords@,
{
    KeyBinding(SmallVec::from_slice(chords))
}

/// `SmallVec::to_vec`: the chords of `b`, in order (`KeyChord` is `Copy`).
#[verifier::external_body]
pub(crate) fn binding_to_vec(b: &KeyBinding) -> (v: Vec<KeyChord>)
    ensures
        v@ == binding_chords(*b),
{
    b.0.to_vec()
}

impl KeyBinding {
    /// The binding made of `chords`, in order.
    pub fn from_chords(chords: &[KeyChord]) -> (b: KeyBinding)
        ensures
            binding_chords(b) == chords@,
    {
        binding_from_chords(chords)
    }

    /// Its chords, in order.
    pub fn chords(&self) -> (v: Vec<KeyChord>)
        ensures
            v@ == binding_chords(*self),
    {
        binding_to_vec(self)
    }
}

impl Clone for KeyBinding {
    /// A binding with the same chords.
    fn clone(&self) -> (r: Self)
        ensures
            binding_chords(r) == binding_chords(*self),
    {
        let v = binding_to_vec(self);
        binding_from_chords(&v)
    }
}

/// Chord-by-chord equality of two bindings.
pub fn binding_eq(a: &KeyBinding, b: &KeyBinding) -> (r: bool)
    ensures
        r == (binding_chords(*a) == binding_chords(*b)),
{
    let va = binding_to_vec(a);
    let vb = binding_to_vec(b);
    if va.len() != vb.len() {
        return false;
    }
    let mut i: usize = 0;
    while i < va.len()
        invariant
            va@ == binding_chords(*a),
            vb@ == binding_chords(*b),
            va@.len() == vb@.len(),
            i <= va@.len(),
            forall|k: int| 0 <= k < i ==> va@[k] == vb@[k],
        decreases va@.len() - i,
    {
        if va[i] != vb[i] {
            assert(va@[i as int] != vb@[i as int]);
            return false;
        }
        i = i + 1;
    }
    assert(va@ =~= vb@);
    true
}

/// The kinds of modal dialog; each may add its own keys on top of the universal ones.
#[derive(Debug, Clone, Copy, PartialEq, Eq, Hash, Structural)]
pub enum ModalKind {
    Help,
    DevicePicker,
    SleepTimer,
    SavePlaylist,
    SortProfile,
    KeymapEditor,
    Equalizer,
    Confirm,
}

/// Where a key press lands. `Normal` is a single flat table where no chord means two things;
/// the other two are exclusive input modes.
#[derive(Debug, Clone, Copy, PartialEq, Eq, Hash, Structural)]
pub enum InputContext {
    Normal,
    TextInput,
    Modal(ModalKind),
}

/// Every bindable action identity. Its snake_case name is the `[keybindings]` key in the config.
#[derive(Debug, Clone, Copy, PartialEq, Eq, PartialOrd, Ord, Hash, Structural)]
pub enum ActionId {
    MoveDown,
    MoveUp,
    NavLeft,
    NavRight,
    HalfPageUp,
    HalfPageDown,
    GoToTop,
    GoToBottom,
    PopColumn,
    NextTab,
    PrevTab,
    JumpTab1,
    JumpTab2,
    JumpTab3,
    JumpTab4,
    JumpTab5,
    JumpTab6,
    JumpTab7,
    JumpTab8,
    JumpTab9,
    JumpTab10,
    OpenFilter,
    GoToArtist,
    GoToAlbum,
    Cancel,
    PlayPause,
    NextTrack,
    PrevTrack,
    Stop,
    SeekBack5,
    SeekForward5,
    SeekBack30,
    SeekForward30,
    VolumeUp,
    VolumeDown,
    ToggleMute,
    QueueArtistOnly,
    QueueFullContext,
    InsertNext,
    InstantMix,
    ToggleShuffle,
    CycleRepeat,
    OpenSortMenu,
    RemoveEntry,
    ToggleVisualSelect,
    ToggleItem,
    SelectAll,
    ToggleEqualizer,
    CycleReplayGain,
    CycleQualityProfile,
    OpenDevicePicker,
    OpenSleepTimer,
    ToggleFavorite,
    ToggleDownload,
    SaveQueueAsPlaylist,
    AddToPlaylist,
    DeletePlaylist,
    MoveTrackUp,
    MoveTrackDown,
    ToggleZenMode,
    ToggleHistory,
    ToggleLyrics,
    LyricsScrollUp,
    LyricsScrollDown,
    ToggleHelp,
    Quit,
    Refresh,
}

/// The help screen's grouping of actions.
#[derive(Debug, Clone, Copy, PartialEq, Eq, Structural)]
pub enum HelpCategory {
    Navigation,
    Playback,
    Queue,
    Selection,
    Audio,
    Items,
    Views,
    System,
}

/// The help-screen group of each action.
pub open spec fn spec_help_category(a: ActionId) -> HelpCategory {
    match a {
            ActionId::MoveDown => HelpCategory::Navigation,
            ActionId::MoveUp => HelpCategory::Navigation,
            ActionId::NavLeft => HelpCategory::Navigation,
            ActionId::NavRight => HelpCategory::Navigation,
            ActionId::HalfPageUp => HelpCategory::Navigation,
            ActionId::HalfPageDown => HelpCategory::Navigation,
            ActionId::GoToTop => HelpCategory::Navigation,
            ActionId::GoToBottom => HelpCategory::Navigation,
            ActionId::PopColumn => HelpCategory::Navigation,
            ActionId::NextTab => HelpCategory::Navigation,
            ActionId::PrevTab => HelpCategory::Navigation,
            ActionId::JumpTab1 => HelpCategory::Navigation,
            ActionId::JumpTab2 => HelpCategory::Navigation,
            ActionId::JumpTab3 => HelpCategory::Navigation,
            ActionId::JumpTab4 => HelpCategory::Navigation,
            ActionId::JumpTab5 => HelpCategory::Navigation,
            ActionId::JumpTab6 => HelpCategory::Navigation,
            ActionId::JumpTab7 => HelpCategory::Navigation,
            ActionId::JumpTab8 => HelpCategory::Navigation,
            ActionId::JumpTab9 => HelpCategory::Navigation,
            ActionId::JumpTab10 => HelpCategory::Navigation,
            ActionId::OpenFilter => HelpCategory::Navigation,
            ActionId::GoToArtist => HelpCategory::Navigation,
            ActionId::GoToAlbum => HelpCategory::Navigation,
            ActionId::Cancel => HelpCategory::Navigation,
            ActionId::PlayPause => HelpCategory::Playback,
            ActionId::NextTrack => HelpCategory::Playback,
            ActionId::PrevTrack => HelpCategory::Playback,
            ActionId::Stop => HelpCategory::Playback,
            ActionId::SeekBack5 => HelpCategory::Playback,
            ActionId::SeekForward5 => HelpCategory::Playback,
            ActionId::SeekBack30 => HelpCategory::Playback,
            ActionId::SeekForward30 => HelpCategory::Playback,
            ActionId::VolumeUp => HelpCategory::Playback,
            ActionId::VolumeDown => HelpCategory::Playback,
            ActionId::ToggleMute => HelpCategory::Playback,
            ActionId::QueueArtistOnly => HelpCategory::Queue,
            ActionId::QueueFullContext => HelpCategory::Queue,
            ActionId::InsertNext => HelpCategory::Queue,
            ActionId::InstantMix => HelpCategory::Queue,
            ActionId::ToggleShuffle => HelpCategory::Queue,
            ActionId::CycleRepeat => HelpCategory::Queue,
            ActionId::OpenSortMenu => HelpCategory::Queue,
            ActionId::RemoveEntry => HelpCategory::Queue,
            ActionId::ToggleVisualSelect => HelpCategory::Selection,
            ActionId::ToggleItem => HelpCategory::Selection,
            ActionId::SelectAll => HelpCategory::Selection,
            ActionId::ToggleEqualizer => HelpCategory::Audio,
            ActionId::CycleReplayGain => HelpCategory::Audio,
            ActionId::CycleQualityProfile => HelpCategory::Audio,
            ActionId::OpenDevicePicker => HelpCategory::Audio,
            ActionId::OpenSleepTimer => HelpCategory::Audio,
            ActionId::ToggleFavorite => HelpCategory::Items,
            ActionId::ToggleDownload => HelpCategory::Items,
            ActionId::SaveQueueAsPlaylist => HelpCategory::Items,
            ActionId::AddToPlaylist => HelpCategory::Items,
            ActionId::DeletePlaylist => HelpCategory::Items,
            ActionId::MoveTrackUp => HelpCategory::Items,
            ActionId::MoveTrackDown => HelpCategory::Items,
            ActionId::ToggleZenMode => HelpCategory::Views,
            ActionId::ToggleHistory => HelpCategory::Views,
            ActionId::ToggleLyrics => HelpCategory::Views,
            ActionId::LyricsScrollUp => HelpCategory::Views,
            ActionId::LyricsScrollDown => HelpCategory::Views,
            ActionId::ToggleHelp => HelpCategory::Views,
            ActionId::Quit => HelpCategory::System,
            ActionId::Refresh => HelpCategory::System,
    }
}

/// The snake_case name of each action.
pub open spec fn action_name(a: ActionId) -> Seq<char> {
    match a {
            ActionId::MoveDown => "move_down"@,
            ActionId::MoveUp => "move_up"@,
            ActionId::NavLeft => "nav_left"@,
            ActionId::NavRight => "nav_right"@,
            ActionId::HalfPageUp => "half_page_up"@,
            ActionId::HalfPageDown => "half_page_down"@,
            ActionId::GoToTop => "go_to_top"@,
            ActionId::GoToBottom => "go_to_bottom"@,
            ActionId::PopColumn => "pop_column"@,
            ActionId::NextTab => "next_tab"@,
            ActionId::PrevTab => "prev_tab"@,
            ActionId::JumpTab1 => "jump_tab1"@,
            ActionId::JumpTab2 => "jump_tab2"@,
            ActionId::JumpTab3 => "jump_tab3"@,
            ActionId::JumpTab4 => "jump_tab4"@,
            ActionId::JumpTab5 => "jump_tab5"@,
            ActionId::JumpTab6 => "jump_tab6"@,
            ActionId::JumpTab7 => "jump_tab7"@,
            ActionId::JumpTab8 => "jump_tab8"@,
            ActionId::JumpTab9 => "jump_tab9"@,
            ActionId::JumpTab10 => "jump_tab10"@,
            ActionId::OpenFilter => "open_filter"@,
            ActionId::GoToArtist => "go_to_artist"@,
            ActionId::GoToAlbum => "go_to_album"@,
            ActionId::Cancel => "cancel"@,
            ActionId::PlayPause => "play_pause"@,
            ActionId::NextTrack => "next_track"@,
            ActionId::PrevTrack => "prev_track"@,
            ActionId::Stop => "stop"@,
            ActionId::SeekBack5 => "seek_back5"@,
            ActionId::SeekForward5 => "seek_forward5"@,
            ActionId::SeekBack30 => "seek_back30"@,
            ActionId::SeekForward30 => "seek_forward30"@,
            ActionId::VolumeUp => "volume_up"@,
            ActionId::VolumeDown => "volume_down"@,
            ActionId::ToggleMute => "toggle_mute"@,
            ActionId::QueueArtistOnly => "queue_artist_only"@,
            ActionId::QueueFullContext => "queue_full_context"@,
            ActionId::InsertNext => "insert_next"@,
            ActionId::InstantMix => "instant_mix"@,
            ActionId::ToggleShuffle => "toggle_shuffle"@,
            ActionId::CycleRepeat => "cycle_repeat"@,
            ActionId::OpenSortMenu => "open_sort_menu"@,
            ActionId::RemoveEntry => "remove_entry"@,
            ActionId::ToggleVisualSelect => "toggle_visual_select"@,
            ActionId::ToggleItem => "toggle_item"@,
            ActionId::SelectAll => "select_all"@,
            ActionId::ToggleEqualizer => "toggle_equalizer"@,
            ActionId::CycleReplayGain => "cycle_replay_gain"@,
            ActionId::CycleQualityProfile => "cycle_quality_profile"@,
            ActionId::OpenDevicePicker => "open_device_picker"@,
            ActionId::OpenSleepTimer => "open_sleep_timer"@,
            ActionId::ToggleFavorite => "toggle_favorite"@,
            ActionId::ToggleDownload => "toggle_download"@,
            ActionId::SaveQueueAsPlaylist => "save_queue_as_playlist"@,
            ActionId::AddToPlaylist => "add_to_playlist"@,
            ActionId::DeletePlaylist => "delete_playlist"@,
            ActionId::MoveTrackUp => "move_track_up"@,
            ActionId::MoveTrackDown => "move_track_down"@,
            ActionId::ToggleZenMode => "toggle_zen_mode"@,
            ActionId::ToggleHistory => "toggle_history"@,
            ActionId::ToggleLyrics => "toggle_lyrics"@,
            ActionId::LyricsScrollUp => "lyrics_scroll_up"@,
            ActionId::LyricsScrollDown => "lyrics_scroll_down"@,
            ActionId::ToggleHelp => "toggle_help"@,
            ActionId::Quit => "quit"@,
            ActionId::Refresh => "refresh"@,
    }
}

impl ActionId {
    /// The help-screen group this action is listed under.
    pub fn help_category(self) -> (r: HelpCategory)
        ensures
            r == spec_help_category(self),
    {
        match self {
            ActionId::MoveDown => HelpCategory::Navigation,
            ActionId::MoveUp => HelpCategory::Navigation,
            ActionId::NavLeft => HelpCategory::Navigation,
            ActionId::NavRight => HelpCategory::Navigation,
            ActionId::HalfPageUp => HelpCategory::Navigation,
            ActionId::HalfPageDown => HelpCategory::Navigation,
            ActionId::GoToTop => HelpCategory::Navigation,
            ActionId::GoToBottom => HelpCategory::Navigation,
            ActionId::PopColumn => HelpCategory::Navigation,
            ActionId::NextTab => HelpCategory::Navigation,
            ActionId::PrevTab => HelpCategory::Navigation,
            ActionId::JumpTab1 => HelpCategory::Navigation,
            ActionId::JumpTab2 => HelpCategory::Navigation,
            ActionId::JumpTab3 => HelpCategory::Navigation,
            ActionId::JumpTab4 => HelpCategory::Navigation,
            ActionId::JumpTab5 => HelpCategory::Navigation,
            ActionId::JumpTab6 => HelpCategory::Navigation,
            ActionId::JumpTab7 => HelpCategory::Navigation,
            ActionId::JumpTab8 => HelpCategory::Navigation,
            ActionId::JumpTab9 => HelpCategory::Navigation,
            ActionId::JumpTab10 => HelpCategory::Navigation,
            ActionId::OpenFilter => HelpCategory::Navigation,
            ActionId::GoToArtist => HelpCategory::Navigation,
            ActionId::GoToAlbum => HelpCategory::Navigation,
            ActionId::Cancel => HelpCategory::Navigation,
            ActionId::PlayPause => HelpCategory::Playback,
            ActionId::NextTrack => HelpCategory::Playback,
            ActionId::PrevTrack => HelpCategory::Playback,
            ActionId::Stop => HelpCategory::Playback,
            ActionId::SeekBack5 => HelpCategory::Playback,
            ActionId::SeekForward5 => HelpCategory::Playback,
            ActionId::SeekBack30 => HelpCategory::Playback,
            ActionId::SeekForward30 => HelpCategory::Playback,
            ActionId::VolumeUp => HelpCategory::Playback,
            ActionId::VolumeDown => HelpCategory::Playback,
            ActionId::ToggleMute => HelpCategory::Playback,
            ActionId::QueueArtistOnly => HelpCategory::Queue,
            ActionId::QueueFullContext => HelpCategory::Queue,
            ActionId::InsertNext => HelpCategory::Queue,
            ActionId::InstantMix => HelpCategory::Queue,
            ActionId::ToggleShuffle => HelpCategory::Queue,
            ActionId::CycleRepeat => HelpCategory::Queue,
            ActionId::OpenSortMenu => HelpCategory::Queue,
            ActionId::RemoveEntry => HelpCategory::Queue,
            ActionId::ToggleVisualSelect => HelpCategory::Selection,
            ActionId::ToggleItem => HelpCategory::Selection,
            ActionId::SelectAll => HelpCategory::Selection,
            ActionId::ToggleEqualizer => HelpCategory::Audio,
            ActionId::CycleReplayGain => HelpCategory::Audio,
            ActionId::CycleQualityProfile => HelpCategory::Audio,
            ActionId::OpenDevicePicker => HelpCategory::Audio,
            ActionId::OpenSleepTimer => HelpCategory::Audio,
            ActionId::ToggleFavorite => HelpCategory::Items,
            ActionId::ToggleDownload => HelpCategory::Items,
            ActionId::SaveQueueAsPlaylist => HelpCategory::Items,
            ActionId::AddToPlaylist => HelpCategory::Items,
            ActionId::DeletePlaylist => HelpCategory::Items,
            ActionId::MoveTrackUp => HelpCategory::Items,
            ActionId::MoveTrackDown => HelpCategory::Items,
            ActionId::ToggleZenMode => HelpCategory::Views,
            ActionId::ToggleHistory => HelpCategory::Views,
            ActionId::ToggleLyrics => HelpCategory::Views,
            ActionId::LyricsScrollUp => HelpCategory::Views,
            ActionId::LyricsScrollDown => HelpCategory::Views,
            ActionId::ToggleHelp => HelpCategory::Views,
            ActionId::Quit => HelpCategory::System,
            ActionId::Refresh => HelpCategory::System,
        }
    }

    /// The stable snake_case name (`play_pause`, `queue_artist_only`, ...).
    pub fn name(self) -> (r: &'static str)
        ensures
            r@ == action_name(self),
    {
        match self {
            ActionId::MoveDown => "move_down",
            ActionId::MoveUp => "move_up",
            ActionId::NavLeft => "nav_left",
            ActionId::NavRight => "nav_right",
            ActionId::HalfPageUp => "half_page_up",
            ActionId::HalfPageDown => "half_page_down",
            ActionId::GoToTop => "go_to_top",
            ActionId::GoToBottom => "go_to_bottom",
            ActionId::PopColumn => "pop_column",
            ActionId::NextTab => "next_tab",
            ActionId::PrevTab => "prev_tab",
            ActionId::JumpTab1 => "jump_tab1",
            ActionId::JumpTab2 => "jump_tab2",
            ActionId::JumpTab3 => "jump_tab3",
            ActionId::JumpTab4 => "jump_tab4",
            ActionId::JumpTab5 => "jump_tab5",
            ActionId::JumpTab6 => "jump_tab6",
            ActionId::JumpTab7 => "jump_tab7",
            ActionId::JumpTab8 => "jump_tab8",
            ActionId::JumpTab9 => "jump_tab9",
            ActionId::JumpTab10 => "jump_tab10",
            ActionId::OpenFilter => "open_filter",
            ActionId::GoToArtist => "go_to_artist",
            ActionId::GoToAlbum => "go_to_album",
            ActionId::Cancel => "cancel",
            ActionId::PlayPause => "play_pause",
            ActionId::NextTrack => "next_track",
            ActionId::PrevTrack => "prev_track",
            ActionId::Stop => "stop",
            ActionId::SeekBack5 => "seek_back5",
            ActionId::SeekForward5 => "seek_forward5",
            ActionId::SeekBack30 => "seek_back30",
            ActionId::SeekForward30 => "seek_forward30",
            ActionId::VolumeUp => "volume_up",
            ActionId::VolumeDown => "volume_down",
            ActionId::ToggleMute => "toggle_mute",
            ActionId::QueueArtistOnly => "queue_artist_only",
            ActionId::QueueFullContext => "queue_full_context",
            ActionId::InsertNext => "insert_next",
            ActionId::InstantMix => "instant_mix",
            ActionId::ToggleShuffle => "toggle_shuffle",
            ActionId::CycleRepeat => "cycle_repeat",
            ActionId::OpenSortMenu => "open_sort_menu",
            ActionId::RemoveEntry => "remove_entry",
            ActionId::ToggleVisualSelect => "toggle_visual_select",
            ActionId::ToggleItem => "toggle_item",
            ActionId::SelectAll => "select_all",
            ActionId::ToggleEqualizer => "toggle_equalizer",
            ActionId::CycleReplayGain => "cycle_replay_gain",
            ActionId::CycleQualityProfile => "cycle_quality_profile",
            ActionId::OpenDevicePicker => "open_device_picker",
            ActionId::OpenSleepTimer => "open_sleep_timer",
            ActionId::ToggleFavorite => "toggle_favorite",
            ActionId::ToggleDownload => "toggle_download",
            ActionId::SaveQueueAsPlaylist => "save_queue_as_playlist",
            ActionId::AddToPlaylist => "add_to_playlist",
            ActionId::DeletePlaylist => "delete_playlist",
            ActionId::MoveTrackUp => "move_track_up",
            ActionId::MoveTrackDown => "move_track_down",
            ActionId::ToggleZenMode => "toggle_zen_mode",
            ActionId::ToggleHistory => "toggle_history",
            ActionId::ToggleLyrics => "toggle_lyrics",
            ActionId::LyricsScrollUp => "lyrics_scroll_up",
            ActionId::LyricsScrollDown => "lyrics_scroll_down",
            ActionId::ToggleHelp => "toggle_help",
            ActionId::Quit => "quit",
            ActionId::Refresh => "refresh",
        }
    }

    /// The action whose snake_case name is `s`, if any.
    pub fn from_name(s: &str) -> (r: Option<ActionId>)
        ensures
            r == action_from_name(s@),
            match r {
                Some(a) => action_name(a) == s@,
                None => forall|a: ActionId| action_name(a) != s@,
            },
    {
        let c = chars_of(s);
        from_name_chars(&c)
    }

    /// Every action, in declaration order.
    pub fn all() -> (v: Vec<ActionId>)
        ensures
            v@.len() == 67,
            forall|a: ActionId| v@.contains(a),
    {
        all_actions()
    }
}

/// The action whose snake_case name is `n`, if any.
#[verifier::opaque]
pub open spec fn action_from_name(n: Seq<char>) -> Option<ActionId> {
    if n == "move_down"@ {
        Some(ActionId::MoveDown)
    } else if n == "move_up"@ {
        Some(ActionId::MoveUp)
    } else if n == "nav_left"@ {
        Some(ActionId::NavLeft)
    } else if n == "nav_right"@ {
        Some(ActionId::NavRight)
    } else if n == "half_page_up"@ {
        Some(ActionId::HalfPageUp)
    } else if n == "half_page_down"@ {
        Some(ActionId::HalfPageDown)
    } else if n == "go_to_top"@ {
        Some(ActionId::GoToTop)
    } else if n == "go_to_bottom"@ {
        Some(ActionId::GoToBottom)
    } else if n == "pop_column"@ {
        Some(ActionId::PopColumn)
    } else if n == "next_tab"@ {
        Some(ActionId::NextTab)
    } else if n == "prev_tab"@ {
        Some(ActionId::PrevTab)
    } else if n == "jump_tab1"@ {
        Some(ActionId::JumpTab1)
    } else if n == "jump_tab2"@ {
        Some(ActionId::JumpTab2)
    } else if n == "jump_tab3"@ {
        Some(ActionId::JumpTab3)
    } else if n == "jump_tab4"@ {
        Some(ActionId::JumpTab4)
    } else if n == "jump_tab5"@ {
        Some(ActionId::JumpTab5)
    } else if n == "jump_tab6"@ {
        Some(ActionId::JumpTab6)
    } else if n == "jump_tab7"@ {
        Some(ActionId::JumpTab7)
    } else if n == "jump_tab8"@ {
        Some(ActionId::JumpTab8)
    } else if n == "jump_tab9"@ {
        Some(ActionId::JumpTab9)
    } else if n == "jump_tab10"@ {
        Some(ActionId::JumpTab10)
    } else if n == "open_filter"@ {
        Some(ActionId::OpenFilter)
    } else if n == "go_to_artist"@ {
        Some(ActionId::GoToArtist)
    } else if n == "go_to_album"@ {
        Some(ActionId::GoToAlbum)
    } else if n == "cancel"@ {
        Some(ActionId::Cancel)
    } else if n == "play_pause"@ {
        Some(ActionId::PlayPause)
    } else if n == "next_track"@ {
        Some(ActionId::NextTrack)
    } else if n == "prev_track"@ {
        Some(ActionId::PrevTrack)
    } else if n == "stop"@ {
        Some(ActionId::Stop)
    } else if n == "seek_back5"@ {
        Some(ActionId::SeekBack5)
    } else if n == "seek_forward5"@ {
        Some(ActionId::SeekForward5)
    } else if n == "seek_back30"@ {
        Some(ActionId::SeekBack30)
    } else if n == "seek_forward30"@ {
        Some(ActionId::SeekForward30)
    } else if n == "volume_up"@ {
        Some(ActionId::VolumeUp)
    } else if n == "volume_down"@ {
        Some(ActionId::VolumeDown)
    } else if n == "toggle_mute"@ {
        Some(ActionId::ToggleMute)
    } else if n == "queue_artist_only"@ {
        Some(ActionId::QueueArtistOnly)
    } else if n == "queue_full_context"@ {
        Some(ActionId::QueueFullContext)
    } else if n == "insert_next"@ {
        Some(ActionId::InsertNext)
    } else if n == "instant_mix"@ {
        Some(ActionId::InstantMix)
    } else if n == "toggle_shuffle"@ {
        Some(ActionId::ToggleShuffle)
    } else if n == "cycle_repeat"@ {
        Some(ActionId::CycleRepeat)
    } else if n == "open_sort_menu"@ {
        Some(ActionId::OpenSortMenu)
    } else if n == "remove_entry"@ {
        Some(ActionId::RemoveEntry)
    } else if n == "toggle_visual_select"@ {
        Some(ActionId::ToggleVisualSelect)
    } else if n == "toggle_item"@ {
        Some(ActionId::ToggleItem)
    } else if n == "select_all"@ {
        Some(ActionId::SelectAll)
    } else if n == "toggle_equalizer"@ {
        Some(ActionId::ToggleEqualizer)
    } else if n == "cycle_replay_gain"@ {
        Some(ActionId::CycleReplayGain)
    } else if n == "cycle_quality_profile"@ {
        Some(ActionId::CycleQualityProfile)
    } else if n == "open_device_picker"@ {
        Some(ActionId::OpenDevicePicker)
    } else if n == "open_sleep_timer"@ {
        Some(ActionId::OpenSleepTimer)
    } else if n == "toggle_favorite"@ {
        Some(ActionId::ToggleFavorite)
    } else if n == "toggle_download"@ {
        Some(ActionId::ToggleDownload)
    } else if n == "save_queue_as_playlist"@ {
        Some(ActionId::SaveQueueAsPlaylist)
    } else if n == "add_to_playlist"@ {
        Some(ActionId::AddToPlaylist)
    } else if n == "delete_playlist"@ {
        Some(ActionId::DeletePlaylist)
    } else if n == "move_track_up"@ {
        Some(ActionId::MoveTrackUp)
    } else if n == "move_track_down"@ {
        Some(ActionId::MoveTrackDown)
    } else if n == "toggle_zen_mode"@ {
        Some(ActionId::ToggleZenMode)
    } else if n == "toggle_history"@ {
        Some(ActionId::ToggleHistory)
    } else if n == "toggle_lyrics"@ {
        Some(ActionId::ToggleLyrics)
    } else if n == "lyrics_scroll_up"@ {
        Some(ActionId::LyricsScrollUp)
    } else if n == "lyrics_scroll_down"@ {
        Some(ActionId::LyricsScrollDown)
    } else if n == "toggle_help"@ {
        Some(ActionId::ToggleHelp)
    } else if n == "quit"@ {
        Some(ActionId::Quit)
    } else if n == "refresh"@ {
        Some(ActionId::Refresh)
    } else {
        None
    }
}

fn from_name_chars(c: &Vec<char>) -> (r: Option<ActionId>)
    ensures
        r == action_from_name(c@),
        match r {
            Some(a) => action_name(a) == c@,
            None => forall|a: ActionId| action_name(a) != c@,
        },
{
    proof {
        reveal(action_from_name);
    }
    if eq_str(c, "move_down") {
        return Some(ActionId::MoveDown);
    }
    if eq_str(c, "move_up") {
        return Some(ActionId::MoveUp);
    }
    if eq_str(c, "nav_left") {
        return Some(ActionId::NavLeft);
    }
    if eq_str(c, "nav_right") {
        return Some(ActionId::NavRight);
    }
    if eq_str(c, "half_page_up") {
        return Some(ActionId::HalfPageUp);
    }
    if eq_str(c, "half_page_down") {
        return Some(ActionId::HalfPageDown);
    }
    if eq_str(c, "go_to_top") {
        return Some(ActionId::GoToTop);
    }
    if eq_str(c, "go_to_bottom") {
        return Some(ActionId::GoToBottom);
    }
    if eq_str(c, "pop_column") {
        return Some(ActionId::PopColumn);
    }
    if eq_str(c, "next_tab") {
        return Some(ActionId::NextTab);
    }
    if eq_str(c, "prev_tab") {
        return Some(ActionId::PrevTab);
    }
    if eq_str(c, "jump_tab1") {
        return Some(ActionId::JumpTab1);
    }
    if eq_str(c, "jump_tab2") {
        return Some(ActionId::JumpTab2);
    }
    if eq_str(c, "jump_tab3") {
        return Some(ActionId::JumpTab3);
    }
    if eq_str(c, "jump_tab4") {
        return Some(ActionId::JumpTab4);
    }
    if eq_str(c, "jump_tab5") {
        return Some(ActionId::JumpTab5);
    }
    if eq_str(c, "jump_tab6") {
        return Some(ActionId::JumpTab6);
    }
    if eq_str(c, "jump_tab7") {
        return Some(ActionId::JumpTab7);
    }
    if eq_str(c, "jump_tab8") {
        return Some(ActionId::JumpTab8);
    }
    if eq_str(c, "jump_tab9") {
        return Some(ActionId::JumpTab9);
    }
    if eq_str(c, "jump_tab10") {
        return Some(ActionId::JumpTab10);
    }
    if eq_str(c, "open_filter") {
        return Some(ActionId::OpenFilter);
    }
    if eq_str(c, "go_to_artist") {
        return Some(ActionId::GoToArtist);
    }
    if eq_str(c, "go_to_album") {
        return Some(ActionId::GoToAlbum);
    }
    if eq_str(c, "cancel") {
        return Some(ActionId::Cancel);
    }
    if eq_str(c, "play_pause") {
        return Some(ActionId::PlayPause);
    }
    if eq_str(c, "next_track") {
        return Some(ActionId::NextTrack);
    }
    if eq_str(c, "prev_track") {
        return Some(ActionId::PrevTrack);
    }
    if eq_str(c, "stop") {
        return Some(ActionId::Stop);
    }
    if eq_str(c, "seek_back5") {
        return Some(ActionId::SeekBack5);
    }
    if eq_str(c, "seek_forward5") {
        return Some(ActionId::SeekForward5);
    }
    if eq_str(c, "seek_back30") {
        return Some(ActionId::SeekBack30);
    }
    if eq_str(c, "seek_forward30") {
        return Some(ActionId::SeekForward30);
    }
    if eq_str(c, "volume_up") {
        return Some(ActionId::VolumeUp);
    }
    if eq_str(c, "volume_down") {
        return Some(ActionId::VolumeDown);
    }
    if eq_str(c, "toggle_mute") {
        return Some(ActionId::ToggleMute);
    }
    if eq_str(c, "queue_artist_only") {
        return Some(ActionId::QueueArtistOnly);
    }
    if eq_str(c, "queue_full_context") {
        return Some(ActionId::QueueFullContext);
    }
    if eq_str(c, "insert_next") {
        return Some(ActionId::InsertNext);
    }
    if eq_str(c, "instant_mix") {
        return Some(ActionId::InstantMix);
    }
    if eq_str(c, "toggle_shuffle") {
        return Some(ActionId::ToggleShuffle);
    }
    if eq_str(c, "cycle_repeat") {
        return Some(ActionId::CycleRepeat);
    }
    if eq_str(c, "open_sort_menu") {
        return Some(ActionId::OpenSortMenu);
    }
    if eq_str(c, "remove_entry") {
        return Some(ActionId::RemoveEntry);
    }
    if eq_str(c, "toggle_visual_select") {
        return Some(ActionId::ToggleVisualSelect);
    }
    if eq_str(c, "toggle_item") {
        return Some(ActionId::ToggleItem);
    }
    if eq_str(c, "select_all") {
        return Some(ActionId::SelectAll);
    }
    if eq_str(c, "toggle_equalizer") {
        return Some(ActionId::ToggleEqualizer);
    }
    if eq_str(c, "cycle_replay_gain") {
        return Some(ActionId::CycleReplayGain);
    }
    if eq_str(c, "cycle_quality_profile") {
        return Some(ActionId::CycleQualityProfile);
    }
    if eq_str(c, "open_device_picker") {
        return Some(ActionId::OpenDevicePicker);
    }
    if eq_str(c, "open_sleep_timer") {
        return Some(ActionId::OpenSleepTimer);
    }
    if eq_str(c, "toggle_favorite") {
        return Some(ActionId::ToggleFavorite);
    }
    if eq_str(c, "toggle_download") {
        return Some(ActionId::ToggleDownload);
    }
    if eq_str(c, "save_queue_as_playlist") {
        return Some(ActionId::SaveQueueAsPlaylist);
    }
    if eq_str(c, "add_to_playlist") {
        return Some(ActionId::AddToPlaylist);
    }
    if eq_str(c, "delete_playlist") {
        return Some(ActionId::DeletePlaylist);
    }
    if eq_str(c, "move_track_up") {
        return Some(ActionId::MoveTrackUp);
    }
    if eq_str(c, "move_track_down") {
        return Some(ActionId::MoveTrackDown);
    }
    if eq_str(c, "toggle_zen_mode") {
        return Some(ActionId::ToggleZenMode);
    }
    if eq_str(c, "toggle_history") {
        return Some(ActionId::ToggleHistory);
    }
    if eq_str(c, "toggle_lyrics") {
        return Some(ActionId::ToggleLyrics);
    }
    if eq_str(c, "lyrics_scroll_up") {
        return Some(ActionId::LyricsScrollUp);
    }
    if eq_str(c, "lyrics_scroll_down") {
        return Some(ActionId::LyricsScrollDown);
    }
    if eq_str(c, "toggle_help") {
        return Some(ActionId::ToggleHelp);
    }
    if eq_str(c, "quit") {
        return Some(ActionId::Quit);
    }
    if eq_str(c, "refresh") {
        return Some(ActionId::Refresh);
    }
    None
}

/// Position of an action in declaration order.
pub open spec fn action_index(a: ActionId) -> int {
    match a {
        ActionId::MoveDown => 0,
        ActionId::MoveUp => 1,
        ActionId::NavLeft => 2,
        ActionId::NavRight => 3,
        ActionId::HalfPageUp => 4,
        ActionId::HalfPageDown => 5,
        ActionId::GoToTop => 6,
        ActionId::GoToBottom => 7,
        ActionId::PopColumn => 8,
        ActionId::NextTab => 9,
        ActionId::PrevTab => 10,
        ActionId::JumpTab1 => 11,
        ActionId::JumpTab2 => 12,
        ActionId::JumpTab3 => 13,
        ActionId::JumpTab4 => 14,
        ActionId::JumpTab5 => 15,
        ActionId::JumpTab6 => 16,
        ActionId::JumpTab7 => 17,
        ActionId::JumpTab8 => 18,
        ActionId::JumpTab9 => 19,
        ActionId::JumpTab10 => 20,
        ActionId::OpenFilter => 21,
        ActionId::GoToArtist => 22,
        ActionId::GoToAlbum => 23,
        ActionId::Cancel => 24,
        ActionId::PlayPause => 25,
        ActionId::NextTrack => 26,
        ActionId::PrevTrack => 27,
        ActionId::Stop => 28,
        ActionId::SeekBack5 => 29,
        ActionId::SeekForward5 => 30,
        ActionId::SeekBack30 => 31,
        ActionId::SeekForward30 => 32,
        ActionId::VolumeUp => 33,
        ActionId::VolumeDown => 34,
        ActionId::ToggleMute => 35,
        ActionId::QueueArtistOnly => 36,
        ActionId::QueueFullContext => 37,
        ActionId::InsertNext => 38,
        ActionId::InstantMix => 39,
        ActionId::ToggleShuffle => 40,
        ActionId::CycleRepeat => 41,
        ActionId::OpenSortMenu => 42,
        ActionId::RemoveEntry => 43,
        ActionId::ToggleVisualSelect => 44,
        ActionId::ToggleItem => 45,
        ActionId::SelectAll => 46,
        ActionId::ToggleEqualizer => 47,
        ActionId::CycleReplayGain => 48,
        ActionId::CycleQualityProfile => 49,
        ActionId::OpenDevicePicker => 50,
        ActionId::OpenSleepTimer => 51,
        ActionId::ToggleFavorite => 52,
        ActionId::ToggleDownload => 53,
        ActionId::SaveQueueAsPlaylist => 54,
        ActionId::AddToPlaylist => 55,
        ActionId::DeletePlaylist => 56,
        ActionId::MoveTrackUp => 57,
        ActionId::MoveTrackDown => 58,
        ActionId::ToggleZenMode => 59,
        ActionId::ToggleHistory => 60,
        ActionId::ToggleLyrics => 61,
        ActionId::LyricsScrollUp => 62,
        ActionId::LyricsScrollDown => 63,
        ActionId::ToggleHelp => 64,
        ActionId::Quit => 65,
        ActionId::Refresh => 66,
    }
}

/// The action at position `i` of the declaration order.
pub open spec fn action_at(i: int) -> ActionId {
    if i == 0 {
        ActionId::MoveDown
    } else if i == 1 {
        ActionId::MoveUp
    } else if i == 2 {
        ActionId::NavLeft
    } else if i == 3 {
        ActionId::NavRight
    } else if i == 4 {
        ActionId::HalfPageUp
    } else if i == 5 {
        ActionId::HalfPageDown
    } else if i == 6 {
        ActionId::GoToTop
    } else if i == 7 {
        ActionId::GoToBottom
    } else if i == 8 {
        ActionId::PopColumn
    } else if i == 9 {
        ActionId::NextTab
    } else if i == 10 {
        ActionId::PrevTab
    } else if i == 11 {
        ActionId::JumpTab1
    } else if i == 12 {
        ActionId::JumpTab2
    } else if i == 13 {
        ActionId::JumpTab3
    } else if i == 14 {
        ActionId::JumpTab4
    } else if i == 15 {
        ActionId::JumpTab5
    } else if i == 16 {
        ActionId::JumpTab6
    } else if i == 17 {
        ActionId::JumpTab7
    } else if i == 18 {
        ActionId::JumpTab8
    } else if i == 19 {
        ActionId::JumpTab9
    } else if i == 20 {
        ActionId::JumpTab10
    } else if i == 21 {
        ActionId::OpenFilter
    } else if i == 22 {
        ActionId::GoToArtist
    } else if i == 23 {
        ActionId::GoToAlbum
    } else if i == 24 {
        ActionId::Cancel
    } else if i == 25 {
        ActionId::PlayPause
    } else if i == 26 {
        ActionId::NextTrack
    } else if i == 27 {
        ActionId::PrevTrack
    } else if i == 28 {
        ActionId::Stop
    } else if i == 29 {
        ActionId::SeekBack5
    } else if i == 30 {
        ActionId::SeekForward5
    } else if i == 31 {
        ActionId::SeekBack30
    } else if i == 32 {
        ActionId::SeekForward30
    } else if i == 33 {
        ActionId::VolumeUp
    } else if i == 34 {
        ActionId::VolumeDown
    } else if i == 35 {
        ActionId::ToggleMute
    } else if i == 36 {
        ActionId::QueueArtistOnly
    } else if i == 37 {
        ActionId::QueueFullContext
    } else if i == 38 {
        ActionId::InsertNext
    } else if i == 39 {
        ActionId::InstantMix
    } else if i == 40 {
        ActionId::ToggleShuffle
    } else if i == 41 {
        ActionId::CycleRepeat
    } else if i == 42 {
        ActionId::OpenSortMenu
    } else if i == 43 {
        ActionId::RemoveEntry
    } else if i == 44 {
        ActionId::ToggleVisualSelect
    } else if i == 45 {
        ActionId::ToggleItem
    } else if i == 46 {
        ActionId::SelectAll
    } else if i == 47 {
        ActionId::ToggleEqualizer
    } else if i == 48 {
        ActionId::CycleReplayGain
    } else if i == 49 {
        ActionId::CycleQualityProfile
    } else if i == 50 {
        ActionId::OpenDevicePicker
    } else if i == 51 {
        ActionId::OpenSleepTimer
    } else if i == 52 {
        ActionId::ToggleFavorite
    } else if i == 53 {
        ActionId::ToggleDownload
    } else if i == 54 {
        ActionId::SaveQueueAsPlaylist
    } else if i == 55 {
        ActionId::AddToPlaylist
    } else if i == 56 {
        ActionId::DeletePlaylist
    } else if i == 57 {
        ActionId::MoveTrackUp
    } else if i == 58 {
        ActionId::MoveTrackDown
    } else if i == 59 {
        ActionId::ToggleZenMode
    } else if i == 60 {
        ActionId::ToggleHistory
    } else if i == 61 {
        ActionId::ToggleLyrics
    } else if i == 62 {
        ActionId::LyricsScrollUp
    } else if i == 63 {
        ActionId::LyricsScrollDown
    } else if i == 64 {
        ActionId::ToggleHelp
    } else if i == 65 {
        ActionId::Quit
    } else {
        ActionId::Refresh
    }
}

proof fn lemma_action_at_index(a: ActionId)
    ensures
        action_at(action_index(a)) == a,
        0 <= action_index(a) < 67,
{
}

fn action_at_exec(i: usize) -> (a: ActionId)
    requires
        i < 67,
    ensures
        a == action_at(i as int),
{
    match i {
        0 => ActionId::MoveDown,
        1 => ActionId::MoveUp,
        2 => ActionId::NavLeft,
        3 => ActionId::NavRight,
        4 => ActionId::HalfPageUp,
        5 => ActionId::HalfPageDown,
        6 => ActionId::GoToTop,
        7 => ActionId::GoToBottom,
        8 => ActionId::PopColumn,
        9 => ActionId::NextTab,
        10 => ActionId::PrevTab,
        11 => ActionId::JumpTab1,
        12 => ActionId::JumpTab2,
        13 => ActionId::JumpTab3,
        14 => ActionId::JumpTab4,
        15 => ActionId::JumpTab5,
        16 => ActionId::JumpTab6,
        17 => ActionId::JumpTab7,
        18 => ActionId::JumpTab8,
        19 => ActionId::JumpTab9,
        20 => ActionId::JumpTab10,
        21 => ActionId::OpenFilter,
        22 => ActionId::GoToArtist,
        23 => ActionId::GoToAlbum,
        24 => ActionId::Cancel,
        25 => ActionId::PlayPause,
        26 => ActionId::NextTrack,
        27 => ActionId::PrevTrack,
        28 => ActionId::Stop,
        29 => ActionId::SeekBack5,
        30 => ActionId::SeekForward5,
        31 => ActionId::SeekBack30,
        32 => ActionId::SeekForward30,
        33 => ActionId::VolumeUp,
        34 => ActionId::VolumeDown,
        35 => ActionId::ToggleMute,
        36 => ActionId::QueueArtistOnly,
        37 => ActionId::QueueFullContext,
        38 => ActionId::InsertNext,
        39 => ActionId::InstantMix,
        40 => ActionId::ToggleShuffle,
        41 => ActionId::CycleRepeat,
        42 => ActionId::OpenSortMenu,
        43 => ActionId::RemoveEntry,
        44 => ActionId::ToggleVisualSelect,
        45 => ActionId::ToggleItem,
        46 => ActionId::SelectAll,
        47 => ActionId::ToggleEqualizer,
        48 => ActionId::CycleReplayGain,
        49 => ActionId::CycleQualityProfile,
        50 => ActionId::OpenDevicePicker,
        51 => ActionId::OpenSleepTimer,
        52 => ActionId::ToggleFavorite,
        53 => ActionId::ToggleDownload,
        54 => ActionId::SaveQueueAsPlaylist,
        55 => ActionId::AddToPlaylist,
        56 => ActionId::DeletePlaylist,
        57 => ActionId::MoveTrackUp,
        58 => ActionId::MoveTrackDown,
        59 => ActionId::ToggleZenMode,
        60 => ActionId::ToggleHistory,
        61 => ActionId::ToggleLyrics,
        62 => ActionId::LyricsScrollUp,
        63 => ActionId::LyricsScrollDown,
        64 => ActionId::ToggleHelp,
        65 => ActionId::Quit,
        _ => ActionId::Refresh,
    }
}

fn all_actions() -> (v: Vec<ActionId>)
    ensures
        v@.len() == 67,
        forall|a: ActionId| v@.contains(a),
{
    let mut v: Vec<ActionId> = Vec::new();
    let mut i: usize = 0;
    while i < 67
        invariant
            i <= 67,
            v@.len() == i,
            forall|j: int| 0 <= j < i ==> v@[j] == action_at(j),
        decreases 67 - i,
    {
        v.push(action_at_exec(i));
        i = i + 1;
    }
    assert forall|a: ActionId| v@.contains(a) by {
        lemma_action_at_index(a);
        assert(v@[action_index(a)] == a);
    }
    v
}

} // verus!
