//! (context, chord) -> action resolution, with pending-prefix support.
use crate::keymap::table::KeyMap;
use crate::keymap::{binding_chords, binding_from_chords, ActionId, InputContext, KeyChord, KeyCode, KeyModifiers, ModalKind};
use vstd::prelude::*;

verus! {

/// What a key press comes to.
#[derive(Debug, Clone, Copy, PartialEq, Eq, Structural)]
pub enum Resolution {
    Action(ActionId),
    /// The first chord of a two-chord binding: wait for the second.
    Pending,
    Ignored,
}

/// No modifier held.
pub open spec fn bare(m: KeyModifiers) -> bool {
    !m.ctrl && !m.alt && !m.shift
}

/// The keys text input still routes through the keymap; everything else (in particular any
/// printable character) goes to the text buffer.
pub open spec fn spec_text_input_allows(chord: KeyChord) -> bool {
    match chord.code {
        KeyCode::Esc | KeyCode::Enter | KeyCode::Tab | KeyCode::Left | KeyCode::Right | KeyCode::Up
        | KeyCode::Down => true,
        _ => false,
    }
}

pub fn text_input_allows(chord: &KeyChord) -> (r: bool)
    ensures
        r == spec_text_input_allows(*chord),
{
    match chord.code {
        KeyCode::Esc | KeyCode::Enter | KeyCode::Tab | KeyCode::Left | KeyCode::Right | KeyCode::Up
        | KeyCode::Down => true,
        _ => false,
    }
}

/// Keys available inside every modal, on top of that modal's own table: bare `Esc` cancels,
/// `?` (with neither `Ctrl` nor `Alt`) toggles help, `Ctrl+C` quits.
pub open spec fn spec_modal_universal(chord: KeyChord) -> Option<ActionId> {
    let m = chord.mods;
    match chord.code {
        KeyCode::Esc => if bare(m) { Some(ActionId::Cancel) } else { None },
        KeyCode::Char(c) => if c == '?' && !m.ctrl && !m.alt {
            Some(ActionId::ToggleHelp)
        } else if c == 'c' && m.ctrl && !m.alt && !m.shift {
            Some(ActionId::Quit)
        } else {
            None
        },
        _ => None,
    }
}

pub fn modal_universal(chord: &KeyChord) -> (r: Option<ActionId>)
    ensures
        r == spec_modal_universal(*chord),
{
    let m = chord.mods;
    match chord.code {
        KeyCode::Esc => if !m.ctrl && !m.alt && !m.shift { Some(ActionId::Cancel) } else { None },
        KeyCode::Char(c) => if c == '?' && !m.ctrl && !m.alt {
            Some(ActionId::ToggleHelp)
        } else if c == 'c' && m.ctrl && !m.alt && !m.shift {
            Some(ActionId::Quit)
        } else {
            None
        },
        _ => None,
    }
}

/// The help modal's own keys: bare `j`/`k` scroll by a line, `Ctrl+D`/`Ctrl+U` by half a page.
pub open spec fn spec_help_scroll(chord: KeyChord) -> Option<ActionId> {
    let m = chord.mods;
    match chord.code {
        KeyCode::Char(c) => if c == 'j' && bare(m) {
            Some(ActionId::MoveDown)
        } else if c == 'k' && bare(m) {
            Some(ActionId::MoveUp)
        } else if c == 'd' && m.ctrl && !m.alt && !m.shift {
            Some(ActionId::HalfPageDown)
        } else if c == 'u' && m.ctrl && !m.alt && !m.shift {
            Some(ActionId::HalfPageUp)
        } else {
            None
        },
        _ => None,
    }
}

pub fn help_scroll(chord: &KeyChord) -> (r: Option<ActionId>)
    ensures
        r == spec_help_scroll(*chord),
{
    let m = chord.mods;
    match chord.code {
        KeyCode::Char(c) => if c == 'j' && !m.ctrl && !m.alt && !m.shift {
            Some(ActionId::MoveDown)
        } else if c == 'k' && !m.ctrl && !m.alt && !m.shift {
            Some(ActionId::MoveUp)
        } else if c == 'd' && m.ctrl && !m.alt && !m.shift {
            Some(ActionId::HalfPageDown)
        } else if c == 'u' && m.ctrl && !m.alt && !m.shift {
            Some(ActionId::HalfPageUp)
        } else {
            None
        },
        _ => None,
    }
}

/// The list modals' cursor keys: bare `j`/`Down` move down, bare `k`/`Up` move up.
pub open spec fn spec_list_nav(chord: KeyChord) -> Option<ActionId> {
    if !bare(chord.mods) {
        None
    } else {
        match chord.code {
            KeyCode::Char(c) => if c == 'j' {
                Some(ActionId::MoveDown)
            } else if c == 'k' {
                Some(ActionId::MoveUp)
            } else {
                None
            },
            KeyCode::Down => Some(ActionId::MoveDown),
            KeyCode::Up => Some(ActionId::MoveUp),
            _ => None,
        }
    }
}

pub fn list_nav(chord: &KeyChord) -> (r: Option<ActionId>)
    ensures
        r == spec_list_nav(*chord),
{
    let m = chord.mods;
    if m.ctrl || m.alt || m.shift {
        return None;
    }
    match chord.code {
        KeyCode::Char(c) => if c == 'j' {
            Some(ActionId::MoveDown)
        } else if c == 'k' {
            Some(ActionId::MoveUp)
        } else {
            None
        },
        KeyCode::Down => Some(ActionId::MoveDown),
        KeyCode::Up => Some(ActionId::MoveUp),
        _ => None,
    }
}

/// The equalizer's keys, arrows only and bare: left/right select a band, up/down move its gain.
pub open spec fn spec_equalizer_nav(chord: KeyChord) -> Option<ActionId> {
    if !bare(chord.mods) {
        None
    } else {
        match chord.code {
            KeyCode::Left => Some(ActionId::NavLeft),
            KeyCode::Right => Some(ActionId::NavRight),
            KeyCode::Up => Some(ActionId::MoveUp),
            KeyCode::Down => Some(ActionId::MoveDown),
            _ => None,
        }
    }
}

pub fn equalizer_nav(chord: &KeyChord) -> (r: Option<ActionId>)
    ensures
        r == spec_equalizer_nav(*chord),
{
    let m = chord.mods;
    if m.ctrl || m.alt || m.shift {
        return None;
    }
    match chord.code {
        KeyCode::Left => Some(ActionId::NavLeft),
        KeyCode::Right => Some(ActionId::NavRight),
        KeyCode::Up => Some(ActionId::MoveUp),
        KeyCode::Down => Some(ActionId::MoveDown),
        _ => None,
    }
}

/// The modals that share the list cursor keys.
pub open spec fn is_list_modal(kind: ModalKind) -> bool {
    match kind {
        ModalKind::DevicePicker | ModalKind::SleepTimer | ModalKind::SavePlaylist | ModalKind::SortProfile
        | ModalKind::KeymapEditor => true,
        _ => false,
    }
}

/// What a modal makes of a chord: its own table first, then the universal keys; nothing else.
pub open spec fn spec_modal_resolve(kind: ModalKind, chord: KeyChord) -> Resolution {
    if kind == ModalKind::Help && spec_help_scroll(chord) is Some {
        Resolution::Action(spec_help_scroll(chord)->0)
    } else if is_list_modal(kind) && spec_list_nav(chord) is Some {
        Resolution::Action(spec_list_nav(chord)->0)
    } else if kind == ModalKind::Equalizer && spec_equalizer_nav(chord) is Some {
        Resolution::Action(spec_equalizer_nav(chord)->0)
    } else {
        match spec_modal_universal(chord) {
            Some(a) => Resolution::Action(a),
            None => Resolution::Ignored,
        }
    }
}

/// What the normal table makes of `chord`, after `pending` if a prefix was pressed: the action
/// of the binding (prefix and chord, or the chord alone), else `Pending` when no prefix is held
/// and some two-chord binding starts with this chord, else nothing.
pub open spec fn spec_normal_resolve(bindings: Map<Seq<KeyChord>, ActionId>, pending: Option<KeyChord>, chord: KeyChord) -> Resolution {
    let k = match pending {
        Some(p) => seq![p, chord],
        None => seq![chord],
    };
    if bindings.contains_key(k) {
        Resolution::Action(bindings[k])
    } else if pending is None && exists|b: Seq<KeyChord>| #[trigger] bindings.contains_key(b) && b.len() == 2 && b[0] == chord {
        Resolution::Pending
    } else {
        Resolution::Ignored
    }
}

/// What a key press comes to in context `ctx`.
pub open spec fn spec_resolve(bindings: Map<Seq<KeyChord>, ActionId>, ctx: InputContext, pending: Option<KeyChord>, chord: KeyChord) -> Resolution {
    match ctx {
        InputContext::TextInput => if !spec_text_input_allows(chord) {
            Resolution::Ignored
        } else {
            spec_normal_resolve(bindings, pending, chord)
        },
        InputContext::Modal(kind) => spec_modal_resolve(kind, chord),
        InputContext::Normal => spec_normal_resolve(bindings, pending, chord),
    }
}

pub fn resolve(map: &KeyMap, ctx: InputContext, pending: Option<&KeyChord>, chord: KeyChord) -> (r: Resolution)
    ensures
        r == spec_resolve(map@.bindings, ctx, match pending { Some(p) => Some(*p), None => None }, chord),
{
    match ctx {
        InputContext::TextInput => {
            if !text_input_allows(&chord) {
                return Resolution::Ignored;
            }
        },
        InputContext::Modal(kind) => {
            if kind == ModalKind::Help {
                if let Some(action) = help_scroll(&chord) {
                    return Resolution::Action(action);
                }
            }
            let listy = match kind {
                ModalKind::DevicePicker | ModalKind::SleepTimer | ModalKind::SavePlaylist
                | ModalKind::SortProfile | ModalKind::KeymapEditor => true,
                _ => false,
            };
            if listy {
                if let Some(action) = list_nav(&chord) {
                    return Resolution::Action(action);
                }
            }
            if kind == ModalKind::Equalizer {
                if let Some(action) = equalizer_nav(&chord) {
                    return Resolution::Action(action);
                }
            }
            return match modal_universal(&chord) {
                Some(action) => Resolution::Action(action),
                None => Resolution::Ignored,
            };
        },
        InputContext::Normal => {},
    }
    let binding = match pending {
        Some(prefix) => {
            let two = [*prefix, chord];
            let b = binding_from_chords(&two);
            assert(binding_chords(b) =~= seq![*prefix, chord]);
            b
        },
        None => {
            let one = [chord];
            let b = binding_from_chords(&one);
            assert(binding_chords(b) =~= seq![chord]);
            b
        },
    };
    if let Some(action) = map.resolve_normal(&binding) {
        return Resolution::Action(action);
    }
    if pending.is_none() && map.has_binding_with_prefix(&chord) {
        return Resolution::Pending;
    }
    Resolution::Ignored
}

} // verus!
