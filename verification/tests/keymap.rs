use std::collections::BTreeMap;

use loxia::keymap::parse::{parse_binding, render_binding, ParseError};
use loxia::keymap::resolve::{resolve, Resolution};
use loxia::keymap::table::KeyMap;
use loxia::keymap::{ActionId, InputContext, KeyBinding, KeyChord, KeyCode, KeyModifiers, ModalKind};

fn overrides_of(m: BTreeMap<String, String>) -> Vec<(String, String)> {
    m.into_iter().collect()
}

fn chord(code: KeyCode) -> KeyChord {
    KeyChord { code, mods: KeyModifiers::default() }
}

fn ctrl_chord(c: char) -> KeyChord {
    KeyChord { code: KeyCode::Char(c), mods: KeyModifiers { ctrl: true, ..KeyModifiers::default() } }
}

#[test]
fn default_keymap_has_no_conflicts() {
    let map = KeyMap::defaults();
    assert!(map.validate().is_empty(), "the normative default table must be conflict-free by construction");
}

#[test]
fn default_keymap_covers_every_action_id() {
    let map = KeyMap::defaults();
    let unbound: Vec<ActionId> = ActionId::all().into_iter().filter(|a| map.binding_for(*a).is_none()).collect();
    assert!(unbound.is_empty(), "unbound actions in the default table: {unbound:?}");
}

#[test]
fn f1_opens_help_while_the_other_function_keys_still_jump_tabs() {
    let map = KeyMap::defaults();
    let bound = |s: &str| {
        let binding = parse_binding(s).expect("a valid chord");
        map.resolve_normal(&binding)
    };
    assert_eq!(bound("f1"), Some(ActionId::ToggleHelp));
    assert_eq!(bound("alt+1"), Some(ActionId::JumpTab1));
    assert_eq!(bound("f2"), Some(ActionId::JumpTab2));
    assert_eq!(bound("f9"), Some(ActionId::JumpTab9));
}

#[test]
fn the_advertised_queue_keys_are_ones_a_terminal_can_actually_send() {
    let map = KeyMap::defaults();
    assert_eq!(map.hint_for(ActionId::QueueArtistOnly), "enter");
    assert_eq!(map.hint_for(ActionId::QueueFullContext), "A");
    assert_ne!(
        map.hint_for(ActionId::QueueArtistOnly),
        map.hint_for(ActionId::QueueFullContext),
        "the two must be offered under visibly different keys"
    );
    let shift_enter = parse_binding("shift+enter").expect("a valid chord");
    assert_eq!(map.resolve_normal(&shift_enter), Some(ActionId::QueueFullContext));
}

#[test]
fn user_override_replaces_default() {
    let mut overrides = BTreeMap::new();
    overrides.insert("play_pause".to_string(), "ctrl+alt+p".to_string());
    let (map, warnings) = KeyMap::from_config(&overrides_of(overrides));
    assert!(warnings.is_empty());
    assert_eq!(map.hint_for(ActionId::PlayPause), "ctrl+alt+p");
}

#[test]
fn unparseable_keybinding_is_dropped_with_warning() {
    let mut overrides = BTreeMap::new();
    overrides.insert("play_pause".to_string(), "not a real binding".to_string());
    let (map, warnings) = KeyMap::from_config(&overrides_of(overrides));
    assert_eq!(map.hint_for(ActionId::PlayPause), "space");
    assert_eq!(warnings.len(), 1);
    assert!(warnings[0].message.contains("play_pause"));
    assert!(warnings[0].message.contains("not a real binding"));
}

#[test]
fn conflicting_overrides_last_wins_with_warning() {
    let mut overrides = BTreeMap::new();
    overrides.insert("toggle_shuffle".to_string(), "n".to_string());
    let (map, warnings) = KeyMap::from_config(&overrides_of(overrides));
    assert_eq!(warnings.len(), 1);
    assert_eq!(map.binding_for(ActionId::ToggleShuffle).map(render_binding).as_deref(), Some("n"));
}

#[test]
fn conflict_warning_names_both_actions() {
    let mut overrides = BTreeMap::new();
    overrides.insert("toggle_shuffle".to_string(), "n".to_string());
    let (_, warnings) = KeyMap::from_config(&overrides_of(overrides));
    assert!(warnings[0].message.contains("next_track"));
    assert!(warnings[0].message.contains("toggle_shuffle"));
}

#[test]
fn hint_for_unbound_action_returns_unbound() {
    let map = KeyMap::default();
    assert_eq!(map.hint_for(ActionId::PlayPause), "unbound");
}

#[test]
fn hint_for_is_stable_across_calls() {
    let map = KeyMap::defaults();
    assert_eq!(map.hint_for(ActionId::MoveDown), map.hint_for(ActionId::MoveDown));
    assert_eq!(map.hint_for(ActionId::MoveDown), "j");
}

#[test]
fn none_sentinel_unbinds_the_action_on_load() {
    let mut overrides = BTreeMap::new();
    overrides.insert("play_pause".to_string(), "none".to_string());
    let (map, warnings) = KeyMap::from_config(&overrides_of(overrides));
    assert!(warnings.is_empty());
    assert_eq!(map.hint_for(ActionId::PlayPause), "unbound");
}

#[test]
fn none_sentinel_is_case_insensitive() {
    let mut overrides = BTreeMap::new();
    overrides.insert("play_pause".to_string(), "None".to_string());
    let (map, _) = KeyMap::from_config(&overrides_of(overrides));
    assert_eq!(map.hint_for(ActionId::PlayPause), "unbound");
}

#[test]
fn rebind_overwrites_the_incumbents_slot_only() {
    let mut map = KeyMap::defaults();
    let j = parse_binding("j").unwrap();
    map.rebind(ActionId::ToggleShuffle, j.clone());
    assert_eq!(map.resolve_normal(&j), Some(ActionId::ToggleShuffle));
    assert_eq!(map.hint_for(ActionId::MoveDown), "down");
}

#[test]
fn unbind_clears_every_binding_for_the_action() {
    let mut map = KeyMap::defaults();
    map.unbind(ActionId::MoveDown);
    assert_eq!(map.hint_for(ActionId::MoveDown), "unbound");
    assert!(map.binding_for(ActionId::MoveDown).is_none());
}

#[test]
fn binding_for_picks_the_binding_that_sorts_first() {
    // `ctrl+q` is listed before `ctrl+c`, but `c` sorts before `q`.
    let map = KeyMap::defaults();
    assert_eq!(map.binding_for(ActionId::Quit).map(render_binding).as_deref(), Some("ctrl+c"));
    assert_eq!(map.hint_for(ActionId::Quit), "ctrl+q");
}

#[test]
fn an_unknown_action_name_is_ignored_without_warning() {
    let overrides = vec![("no_such_action".to_string(), "x".to_string())];
    let (map, warnings) = KeyMap::from_config(&overrides);
    assert!(warnings.is_empty());
    assert_eq!(map.hint_for(ActionId::RemoveEntry), "x");
}

#[test]
fn validate_reports_a_binding_attempted_for_two_actions() {
    let overrides = vec![("toggle_shuffle".to_string(), "n".to_string())];
    let (map, _) = KeyMap::from_config(&overrides);
    let conflicts = map.validate();
    assert_eq!(conflicts.len(), 1);
    assert_eq!(render_binding(&conflicts[0].binding), "n");
    assert_eq!(conflicts[0].actions, vec![ActionId::NextTrack, ActionId::ToggleShuffle]);
    assert_eq!(conflicts[0].context, InputContext::Normal);
}

// ---------------------------------------------------------------- parse / render

#[test]
fn parse_render_roundtrip_on_samples() {
    let samples = ["j", "A", "ctrl+alt+p", "shift+enter", "g a", "f12", "alt+shift+pageup", "?", "ctrl+[ .", "insert"];
    for s in samples {
        let b = parse_binding(s).unwrap();
        let rendered = render_binding(&b);
        assert_eq!(parse_binding(&rendered).unwrap(), b, "{s}");
    }
}

#[test]
fn friendly_and_verbose_parse_identically() {
    let cases = [
        ("j", "Char('j')"),
        ("?", "Char('?')"),
        ("space", "Space"),
        ("enter", "Enter"),
        ("alt+1", "Modifiers(ALT) + Char('1')"),
        ("ctrl+p", "Modifiers(CONTROL) + Char('p')"),
    ];
    for (friendly, verbose) in cases {
        assert_eq!(parse_binding(friendly).unwrap(), parse_binding(verbose).unwrap(), "{friendly:?} vs {verbose:?}");
    }
}

#[test]
fn shift_char_normalises() {
    let a = parse_binding("shift+a").unwrap();
    let b = parse_binding("A").unwrap();
    assert_eq!(a, b);
    assert_eq!(render_binding(&a), "A");
    assert_eq!(render_binding(&b), "A");
}

#[test]
fn modifier_order_is_normalised() {
    let b = parse_binding("alt+ctrl+p").unwrap();
    assert_eq!(render_binding(&b), "ctrl+alt+p");
}

#[test]
fn two_chord_sequence_parses() {
    let b = parse_binding("g a").unwrap();
    assert_eq!(b.chords().len(), 2);
    assert_eq!(render_binding(&b), "g a");
}

#[test]
fn three_chord_sequence_is_an_error() {
    assert!(matches!(parse_binding("g g g"), Err(ParseError::TooManyChords(3))));
}

#[test]
fn unknown_key_name_is_an_error() {
    assert!(matches!(parse_binding("foobar"), Err(ParseError::UnknownKey(_))));
}

#[test]
fn empty_string_is_an_error() {
    assert!(matches!(parse_binding(""), Err(ParseError::Empty)));
    assert!(matches!(parse_binding("   "), Err(ParseError::Empty)));
}

#[test]
fn case_insensitive_named_keys() {
    let space = KeyBinding::from_chords(&[KeyChord { code: KeyCode::Char(' '), mods: KeyModifiers::default() }]);
    assert_eq!(parse_binding("Space").unwrap(), space);
    assert_eq!(parse_binding("space").unwrap(), space);
    assert_eq!(parse_binding("SPACE").unwrap(), space);
}

#[test]
fn bare_char_is_case_sensitive() {
    let p = parse_binding("p").unwrap();
    let shift_p = parse_binding("P").unwrap();
    assert_ne!(p, shift_p);
}

// ---------------------------------------------------------------- resolve

#[test]
fn text_input_context_swallows_printable_keys() {
    let map = KeyMap::defaults();
    assert_eq!(resolve(&map, InputContext::TextInput, None, chord(KeyCode::Char('j'))), Resolution::Ignored);
    assert_eq!(resolve(&map, InputContext::TextInput, None, chord(KeyCode::Esc)), Resolution::Action(ActionId::Cancel));
}

#[test]
fn modal_context_uses_modal_table() {
    let map = KeyMap::defaults();
    let ctx = InputContext::Modal(ModalKind::Confirm);
    assert_eq!(resolve(&map, ctx, None, chord(KeyCode::Esc)), Resolution::Action(ActionId::Cancel));
    assert_eq!(resolve(&map, ctx, None, chord(KeyCode::Char('?'))), Resolution::Action(ActionId::ToggleHelp));
    assert_eq!(resolve(&map, ctx, None, ctrl_chord('c')), Resolution::Action(ActionId::Quit));
    assert_eq!(resolve(&map, ctx, None, chord(KeyCode::Char('j'))), Resolution::Ignored);
}

fn check_list_modal(kind: ModalKind) {
    let map = KeyMap::defaults();
    let ctx = InputContext::Modal(kind);
    for down in [chord(KeyCode::Char('j')), chord(KeyCode::Down)] {
        assert_eq!(resolve(&map, ctx, None, down), Resolution::Action(ActionId::MoveDown));
    }
    for up in [chord(KeyCode::Char('k')), chord(KeyCode::Up)] {
        assert_eq!(resolve(&map, ctx, None, up), Resolution::Action(ActionId::MoveUp));
    }
}

#[test]
fn device_picker_moves_cursor_with_jk_and_arrows() {
    check_list_modal(ModalKind::DevicePicker);
    let map = KeyMap::defaults();
    let ctx = InputContext::Modal(ModalKind::DevicePicker);
    assert_eq!(resolve(&map, ctx, None, chord(KeyCode::Esc)), Resolution::Action(ActionId::Cancel));
}

#[test]
fn sleep_timer_moves_cursor_with_jk_and_arrows() {
    check_list_modal(ModalKind::SleepTimer);
}

#[test]
fn save_playlist_moves_cursor_with_jk_and_arrows() {
    let map = KeyMap::defaults();
    let ctx = InputContext::Modal(ModalKind::SavePlaylist);
    assert_eq!(resolve(&map, ctx, None, chord(KeyCode::Down)), Resolution::Action(ActionId::MoveDown));
    assert_eq!(resolve(&map, ctx, None, chord(KeyCode::Up)), Resolution::Action(ActionId::MoveUp));
}

#[test]
fn sort_profile_moves_cursor_with_jk_and_arrows() {
    check_list_modal(ModalKind::SortProfile);
}

#[test]
fn keymap_editor_moves_cursor_with_jk_and_arrows() {
    check_list_modal(ModalKind::KeymapEditor);
}

#[test]
fn equalizer_arrows_select_band_and_adjust_gain() {
    let map = KeyMap::defaults();
    let ctx = InputContext::Modal(ModalKind::Equalizer);
    assert_eq!(resolve(&map, ctx, None, chord(KeyCode::Left)), Resolution::Action(ActionId::NavLeft));
    assert_eq!(resolve(&map, ctx, None, chord(KeyCode::Right)), Resolution::Action(ActionId::NavRight));
    assert_eq!(resolve(&map, ctx, None, chord(KeyCode::Up)), Resolution::Action(ActionId::MoveUp));
    assert_eq!(resolve(&map, ctx, None, chord(KeyCode::Down)), Resolution::Action(ActionId::MoveDown));
    assert_eq!(resolve(&map, ctx, None, chord(KeyCode::Char('j'))), Resolution::Ignored);
    assert_eq!(resolve(&map, ctx, None, chord(KeyCode::Esc)), Resolution::Action(ActionId::Cancel));
}

#[test]
fn help_modal_scrolls_with_jk_and_ctrl_ud() {
    let map = KeyMap::defaults();
    let ctx = InputContext::Modal(ModalKind::Help);
    assert_eq!(resolve(&map, ctx, None, chord(KeyCode::Char('j'))), Resolution::Action(ActionId::MoveDown));
    assert_eq!(resolve(&map, ctx, None, chord(KeyCode::Char('k'))), Resolution::Action(ActionId::MoveUp));
    assert_eq!(resolve(&map, ctx, None, ctrl_chord('d')), Resolution::Action(ActionId::HalfPageDown));
    assert_eq!(resolve(&map, ctx, None, ctrl_chord('u')), Resolution::Action(ActionId::HalfPageUp));
    assert_eq!(resolve(&map, ctx, None, chord(KeyCode::Esc)), Resolution::Action(ActionId::Cancel));
}

#[test]
fn g_prefix_returns_pending_then_resolves() {
    let map = KeyMap::defaults();
    let g = chord(KeyCode::Char('g'));
    assert_eq!(resolve(&map, InputContext::Normal, None, g), Resolution::Pending);
    let second = chord(KeyCode::Char('a'));
    assert_eq!(resolve(&map, InputContext::Normal, Some(&g), second), Resolution::Action(ActionId::GoToArtist));
}

#[test]
fn invalid_sequence_after_prefix_returns_none() {
    let map = KeyMap::defaults();
    let g = chord(KeyCode::Char('g'));
    let bogus = chord(KeyCode::Char('z'));
    assert_eq!(resolve(&map, InputContext::Normal, Some(&g), bogus), Resolution::Ignored);
}

#[test]
fn action_names_round_trip() {
    for a in ActionId::all() {
        assert_eq!(ActionId::from_name(a.name()), Some(a));
    }
    assert_eq!(ActionId::JumpTab10.name(), "jump_tab10");
    assert_eq!(ActionId::from_name("Play_Pause"), None);
}
