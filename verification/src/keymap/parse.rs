//! Binding-string parser and renderer. Two syntaxes are read (friendly, verbose); rendering always
//! writes the friendly one, and parsing a rendered binding gives the binding back.
use crate::keymap::{binding_chords, binding_from_chords, binding_to_vec, KeyBinding, KeyChord, KeyCode, KeyModifiers};
use crate::text::{
    ascii_lower, ascii_lower_seq, ascii_upper, ascii_upper_seq, all_digits, all_digits_chars, chars_of,
    decimal_string, decimal_value, eq_str, first_index_of, has_prefix, lemma_first_index_of,
    append_chars, copy_chars, parse_digits_u64, slice_vec, spec_is_whitespace, is_whitespace, split_char, split_char_chars,
    split_once_char, starts_with_str, string_from_chars, to_ascii_lower_chars,
    to_ascii_upper_char, to_ascii_upper_chars, trim, trim_chars, trim_end_char,
    trim_end_char_chars, trim_start_char, trim_start_char_chars, u64_to_chars, views,
};
use vstd::prelude::*;

verus! {

#[derive(Debug, Clone, PartialEq, Eq)]
pub enum ParseError {
    Empty,
    UnknownKey(String),
    TooManyChords(usize),
}

/// A parse failure as a value.
pub enum ParseErrorView {
    Empty,
    UnknownKey(Seq<char>),
    TooManyChords(nat),
}

impl View for ParseError {
    type V = ParseErrorView;

    open spec fn view(&self) -> ParseErrorView {
        match self {
            ParseError::Empty => ParseErrorView::Empty,
            ParseError::UnknownKey(s) => ParseErrorView::UnknownKey(s@),
            ParseError::TooManyChords(n) => ParseErrorView::TooManyChords(*n as nat),
        }
    }
}

// ---------------------------------------------------------------- spec

/// The key a lowercased name denotes: `space`, `enter`, `esc`/`escape`, `tab`, `backspace`,
/// `delete`/`del`, arrows, `home`, `end`, `pageup`, `pagedown`, `insert`/`ins`, `f1`..`f12`.
pub open spec fn named_key(lower: Seq<char>) -> Option<KeyCode> {
    if lower == "space"@ {
        Some(KeyCode::Char(' '))
    } else if lower == "enter"@ {
        Some(KeyCode::Enter)
    } else if lower == "esc"@ || lower == "escape"@ {
        Some(KeyCode::Esc)
    } else if lower == "tab"@ {
        Some(KeyCode::Tab)
    } else if lower == "backspace"@ {
        Some(KeyCode::Backspace)
    } else if lower == "delete"@ || lower == "del"@ {
        Some(KeyCode::Delete)
    } else if lower == "left"@ {
        Some(KeyCode::Left)
    } else if lower == "right"@ {
        Some(KeyCode::Right)
    } else if lower == "up"@ {
        Some(KeyCode::Up)
    } else if lower == "down"@ {
        Some(KeyCode::Down)
    } else if lower == "home"@ {
        Some(KeyCode::Home)
    } else if lower == "end"@ {
        Some(KeyCode::End)
    } else if lower == "pageup"@ {
        Some(KeyCode::PageUp)
    } else if lower == "pagedown"@ {
        Some(KeyCode::PageDown)
    } else if lower == "insert"@ || lower == "ins"@ {
        Some(KeyCode::Insert)
    } else if lower.len() >= 2 && lower[0] == 'f' && all_digits(lower.skip(1)) {
        let n = decimal_value(lower.skip(1));
        if 1 <= n <= 12 {
            Some(KeyCode::F(n as u8))
        } else {
            None
        }
    } else {
        None
    }
}

/// A key name, case-insensitively.
pub open spec fn parse_named(s: Seq<char>) -> Option<KeyCode> {
    named_key(ascii_lower_seq(s))
}

/// Strips `ctrl+` / `alt+` / `shift+` prefixes (any case, any order), recording each.
pub open spec fn strip_mods(s: Seq<char>, m: KeyModifiers) -> (KeyModifiers, Seq<char>)
    decreases s.len(),
{
    let lower = ascii_lower_seq(s);
    proof {
        assert(lower.len() == s.len());
        reveal_strlit("ctrl+");
        reveal_strlit("alt+");
        reveal_strlit("shift+");
    }
    if has_prefix(lower, "ctrl+"@) {
        strip_mods(s.skip(5), KeyModifiers { ctrl: true, ..m })
    } else if has_prefix(lower, "alt+"@) {
        strip_mods(s.skip(4), KeyModifiers { alt: true, ..m })
    } else if has_prefix(lower, "shift+"@) {
        strip_mods(s.skip(6), KeyModifiers { shift: true, ..m })
    } else {
        (m, s)
    }
}

pub open spec fn no_mods() -> KeyModifiers {
    KeyModifiers { ctrl: false, alt: false, shift: false }
}

/// One friendly chord: modifiers, then a key name or a single (case-sensitive) character. A
/// `shift`ed character chord is canonicalised to the shifted character without the flag. An
/// unreadable key yields the unreadable remainder.
pub open spec fn friendly_chord(s: Seq<char>) -> Result<KeyChord, Seq<char>> {
    let (m, rest) = strip_mods(s, no_mods());
    let code = match parse_named(rest) {
        Some(c) => Some(c),
        None => if rest.len() == 1 {
            Some(KeyCode::Char(rest[0]))
        } else {
            None
        },
    };
    match code {
        None => Err(rest),
        Some(c) => match c {
            KeyCode::Char(ch) => if m.shift {
                Ok(
                    KeyChord {
                        code: KeyCode::Char(ascii_upper(ch)),
                        mods: KeyModifiers { shift: false, ..m },
                    },
                )
            } else {
                Ok(KeyChord { code: c, mods: m })
            },
            _ => Ok(KeyChord { code: c, mods: m }),
        },
    }
}

/// `Char('x')` (quotes optional, surrounding whitespace ignored): exactly one character.
pub open spec fn verbose_char(s: Seq<char>) -> Result<KeyCode, Seq<char>> {
    if !has_prefix(s, "Char("@) {
        Err(s)
    } else {
        let r = s.skip(5);
        if r.len() == 0 || r.last() != ')' {
            Err(s)
        } else {
            let inner = trim_end_char(trim_start_char(trim(r.drop_last()), '\''), '\'');
            if inner.len() == 1 {
                Ok(KeyCode::Char(inner[0]))
            } else {
                Err(s)
            }
        }
    }
}

/// The modifiers named in a `Modifiers(...)` list, split on `+`; an unknown name is returned
/// upper-cased.
pub open spec fn mods_from_parts(parts: Seq<Seq<char>>) -> Result<KeyModifiers, Seq<char>>
    decreases parts.len(),
{
    if parts.len() == 0 {
        Ok(no_mods())
    } else {
        match mods_from_parts(parts.drop_last()) {
            Err(e) => Err(e),
            Ok(m) => {
                let u = ascii_upper_seq(trim(parts.last()));
                if u == "CTRL"@ || u == "CONTROL"@ {
                    Ok(KeyModifiers { ctrl: true, ..m })
                } else if u == "ALT"@ {
                    Ok(KeyModifiers { alt: true, ..m })
                } else if u == "SHIFT"@ {
                    Ok(KeyModifiers { shift: true, ..m })
                } else {
                    Err(u)
                }
            },
        }
    }
}

/// `Modifiers(ALT) + Char('1')`, `Modifiers(CONTROL) + Enter`, ...
pub open spec fn verbose_mods(s: Seq<char>) -> Result<KeyChord, Seq<char>> {
    if !has_prefix(s, "Modifiers("@) {
        Err(s)
    } else {
        let rest = s.skip(10);
        match first_index_of(rest, ')') {
            None => Err(s),
            Some(k) => match mods_from_parts(split_char(rest.take(k), '+')) {
                Err(e) => Err(e),
                Ok(m) => {
                    let r = trim(trim_start_char(trim(rest.skip(k + 1)), '+'));
                    if has_prefix(r, "Char("@) {
                        match verbose_char(r) {
                            Ok(c) => Ok(KeyChord { code: c, mods: m }),
                            Err(e) => Err(e),
                        }
                    } else {
                        match parse_named(r) {
                            Some(c) => Ok(KeyChord { code: c, mods: m }),
                            None => Err(r),
                        }
                    }
                },
            },
        }
    }
}

/// `str::split_whitespace` as a left fold: (finished words, current word).
pub open spec fn ws_fold(s: Seq<char>) -> (Seq<Seq<char>>, Seq<char>)
    decreases s.len(),
{
    if s.len() == 0 {
        (Seq::empty(), Seq::empty())
    } else {
        let (ws, cur) = ws_fold(s.drop_last());
        let c = s.last();
        if spec_is_whitespace(c) {
            if cur.len() > 0 {
                (ws.push(cur), Seq::empty())
            } else {
                (ws, Seq::empty())
            }
        } else {
            (ws, cur.push(c))
        }
    }
}

/// `str::split_whitespace`: the maximal runs of non-whitespace characters.
pub open spec fn split_ws(s: Seq<char>) -> Seq<Seq<char>> {
    let (ws, cur) = ws_fold(s);
    if cur.len() > 0 {
        ws.push(cur)
    } else {
        ws
    }
}

/// Reads friendly chords in order; the first unreadable one is the error.
pub open spec fn friendly_chords(parts: Seq<Seq<char>>) -> Result<Seq<KeyChord>, Seq<char>>
    decreases parts.len(),
{
    if parts.len() == 0 {
        Ok(Seq::empty())
    } else {
        match friendly_chords(parts.drop_last()) {
            Err(e) => Err(e),
            Ok(cs) => match friendly_chord(parts.last()) {
                Err(e) => Err(e),
                Ok(c) => Ok(cs.push(c)),
            },
        }
    }
}

/// The chords a binding string denotes, or why it denotes none.
pub open spec fn spec_parse_binding(s: Seq<char>) -> Result<Seq<KeyChord>, ParseErrorView> {
    let t = trim(s);
    if t.len() == 0 {
        Err(ParseErrorView::Empty)
    } else if has_prefix(t, "Modifiers("@) {
        match verbose_mods(t) {
            Ok(c) => Ok(seq![c]),
            Err(e) => Err(ParseErrorView::UnknownKey(e)),
        }
    } else if has_prefix(t, "Char("@) {
        match verbose_char(t) {
            Ok(code) => Ok(seq![KeyChord { code, mods: no_mods() }]),
            Err(e) => Err(ParseErrorView::UnknownKey(e)),
        }
    } else {
        let parts = split_ws(t);
        if parts.len() > 2 {
            Err(ParseErrorView::TooManyChords(parts.len()))
        } else {
            match friendly_chords(parts) {
                Ok(cs) => Ok(cs),
                Err(e) => Err(ParseErrorView::UnknownKey(e)),
            }
        }
    }
}

/// The friendly text of a key code.
pub open spec fn code_text(code: KeyCode) -> Seq<char> {
    match code {
        KeyCode::Char(c) => if c == ' ' {
            "space"@
        } else {
            seq![c]
        },
        KeyCode::Enter => "enter"@,
        KeyCode::Esc => "esc"@,
        KeyCode::Tab => "tab"@,
        KeyCode::Backspace => "backspace"@,
        KeyCode::Delete => "delete"@,
        KeyCode::Left => "left"@,
        KeyCode::Right => "right"@,
        KeyCode::Up => "up"@,
        KeyCode::Down => "down"@,
        KeyCode::Home => "home"@,
        KeyCode::End => "end"@,
        KeyCode::PageUp => "pageup"@,
        KeyCode::PageDown => "pagedown"@,
        KeyCode::Insert => "insert"@,
        KeyCode::F(n) => seq!['f'] + decimal_string(n as nat),
    }
}

/// `ctrl+`, `alt+`, `shift+` in that order, for the flags that are set.
pub open spec fn mods_text(m: KeyModifiers) -> Seq<char> {
    (if m.ctrl { "ctrl+"@ } else { Seq::empty() }) + (if m.alt { "alt+"@ } else { Seq::empty() })
        + (if m.shift { "shift+"@ } else { Seq::empty() })
}

/// The friendly text of a chord.
pub open spec fn chord_text(c: KeyChord) -> Seq<char> {
    mods_text(c.mods) + code_text(c.code)
}

/// Chord texts joined by single spaces.
pub open spec fn join_chords(cs: Seq<KeyChord>) -> Seq<char>
    decreases cs.len(),
{
    if cs.len() == 0 {
        Seq::empty()
    } else if cs.len() == 1 {
        chord_text(cs[0])
    } else {
        join_chords(cs.drop_last()) + seq![' '] + chord_text(cs.last())
    }
}


// ---------------------------------------------------------------- exec

fn parse_named_key(s: &[char]) -> (r: Option<KeyCode>)
    ensures
        r == parse_named(s@),
{
    let lower = to_ascii_lower_chars(s);
    if eq_str(&lower, "space") {
        Some(KeyCode::Char(' '))
    } else if eq_str(&lower, "enter") {
        Some(KeyCode::Enter)
    } else if eq_str(&lower, "esc") || eq_str(&lower, "escape") {
        Some(KeyCode::Esc)
    } else if eq_str(&lower, "tab") {
        Some(KeyCode::Tab)
    } else if eq_str(&lower, "backspace") {
        Some(KeyCode::Backspace)
    } else if eq_str(&lower, "delete") || eq_str(&lower, "del") {
        Some(KeyCode::Delete)
    } else if eq_str(&lower, "left") {
        Some(KeyCode::Left)
    } else if eq_str(&lower, "right") {
        Some(KeyCode::Right)
    } else if eq_str(&lower, "up") {
        Some(KeyCode::Up)
    } else if eq_str(&lower, "down") {
        Some(KeyCode::Down)
    } else if eq_str(&lower, "home") {
        Some(KeyCode::Home)
    } else if eq_str(&lower, "end") {
        Some(KeyCode::End)
    } else if eq_str(&lower, "pageup") {
        Some(KeyCode::PageUp)
    } else if eq_str(&lower, "pagedown") {
        Some(KeyCode::PageDown)
    } else if eq_str(&lower, "insert") || eq_str(&lower, "ins") {
        Some(KeyCode::Insert)
    } else if lower.len() >= 2 && lower[0] == 'f' {
        let digits = slice_vec(&lower, 1, lower.len());
        assert(digits@ =~= lower@.skip(1));
        if !all_digits_chars(&digits) {
            return None;
        }
        match parse_digits_u64(&digits) {
            None => None,
            Some(n) => {
                if 1 <= n && n <= 12 {
                    Some(KeyCode::F(n as u8))
                } else {
                    None
                }
            },
        }
    } else {
        None
    }
}

fn strip_mods_exec(s: &[char]) -> (r: (KeyModifiers, Vec<char>))
    ensures
        (r.0, r.1@) == strip_mods(s@, no_mods()),
{
    let mut m = KeyModifiers { ctrl: false, alt: false, shift: false };
    let mut rest = copy_chars(s);
    assert(rest@ =~= s@);
    proof {
        reveal_strlit("ctrl+");
        reveal_strlit("alt+");
        reveal_strlit("shift+");
    }
    loop
        invariant
            strip_mods(rest@, m) == strip_mods(s@, no_mods()),
        decreases rest@.len(),
    {
        proof {
            reveal_strlit("ctrl+");
            reveal_strlit("alt+");
            reveal_strlit("shift+");
        }
        let lower = to_ascii_lower_chars(&rest);
        assert(lower@.len() == rest@.len());
        if starts_with_str(&lower, "ctrl+") {
            m = KeyModifiers { ctrl: true, ..m };
            let next = slice_vec(&rest, 5, rest.len());
            assert(next@ =~= rest@.skip(5));
            rest = next;
        } else if starts_with_str(&lower, "alt+") {
            m = KeyModifiers { alt: true, ..m };
            let next = slice_vec(&rest, 4, rest.len());
            assert(next@ =~= rest@.skip(4));
            rest = next;
        } else if starts_with_str(&lower, "shift+") {
            m = KeyModifiers { shift: true, ..m };
            let next = slice_vec(&rest, 6, rest.len());
            assert(next@ =~= rest@.skip(6));
            rest = next;
        } else {
            return (m, rest);
        }
    }
}

fn friendly_chord_exec(s: &[char]) -> (r: Result<KeyChord, Vec<char>>)
    ensures
        match r {
            Ok(c) => friendly_chord(s@) == Ok::<KeyChord, Seq<char>>(c),
            Err(e) => friendly_chord(s@) == Err::<KeyChord, Seq<char>>(e@),
        },
{
    let (m, rest) = strip_mods_exec(s);
    let code = match parse_named_key(&rest) {
        Some(c) => Some(c),
        None => if rest.len() == 1 {
            Some(KeyCode::Char(rest[0]))
        } else {
            None
        },
    };
    match code {
        None => Err(rest),
        Some(c) => match c {
            KeyCode::Char(ch) => if m.shift {
                Ok(
                    KeyChord {
                        code: KeyCode::Char(to_ascii_upper_char(ch)),
                        mods: KeyModifiers { shift: false, ..m },
                    },
                )
            } else {
                Ok(KeyChord { code: c, mods: m })
            },
            _ => Ok(KeyChord { code: c, mods: m }),
        },
    }
}

fn verbose_char_exec(s: &[char]) -> (r: Result<KeyCode, Vec<char>>)
    ensures
        match r {
            Ok(c) => verbose_char(s@) == Ok::<KeyCode, Seq<char>>(c),
            Err(e) => verbose_char(s@) == Err::<KeyCode, Seq<char>>(e@),
        },
{
    proof {
        reveal_strlit("Char(");
    }
    if !starts_with_str(s, "Char(") {
        return Err(copy_chars(s));
    }
    let r = slice_vec(s, 5, s.len());
    assert(r@ =~= s@.skip(5));
    if r.len() == 0 || r[r.len() - 1] != ')' {
        return Err(copy_chars(s));
    }
    let body = slice_vec(&r, 0, r.len() - 1);
    assert(body@ =~= r@.drop_last());
    let inner = trim_end_char_chars(&trim_start_char_chars(&trim_chars(&body), '\''), '\'');
    if inner.len() == 1 {
        Ok(KeyCode::Char(inner[0]))
    } else {
        Err(copy_chars(s))
    }
}

fn mods_from_parts_exec(parts: &Vec<Vec<char>>) -> (r: Result<KeyModifiers, Vec<char>>)
    ensures
        match r {
            Ok(m) => mods_from_parts(views(parts@)) == Ok::<KeyModifiers, Seq<char>>(m),
            Err(e) => mods_from_parts(views(parts@)) == Err::<KeyModifiers, Seq<char>>(e@),
        },
{
    let mut m = KeyModifiers { ctrl: false, alt: false, shift: false };
    let mut i: usize = 0;
    assert(views(parts@).take(0) =~= Seq::<Seq<char>>::empty());
    while i < parts.len()
        invariant
            i <= parts@.len(),
            mods_from_parts(views(parts@).take(i as int)) == Ok::<KeyModifiers, Seq<char>>(m),
        decreases parts@.len() - i,
    {
        proof {
            assert(views(parts@).take(i + 1).drop_last() =~= views(parts@).take(i as int));
            assert(views(parts@).take(i + 1).last() == parts@[i as int]@);
        }
        let u = to_ascii_upper_chars(&trim_chars(&parts[i]));
        if eq_str(&u, "CTRL") || eq_str(&u, "CONTROL") {
            m = KeyModifiers { ctrl: true, ..m };
        } else if eq_str(&u, "ALT") {
            m = KeyModifiers { alt: true, ..m };
        } else if eq_str(&u, "SHIFT") {
            m = KeyModifiers { shift: true, ..m };
        } else {
            proof {
                lemma_mods_from_parts_err(views(parts@), i as int);
            }
            return Err(u);
        }
        i = i + 1;
    }
    assert(views(parts@).take(parts@.len() as int) =~= views(parts@));
    Ok(m)
}

/// Once a part is unknown, the whole list is refused with that part.
proof fn lemma_mods_from_parts_err(parts: Seq<Seq<char>>, i: int)
    requires
        0 <= i < parts.len(),
        mods_from_parts(parts.take(i)) is Ok,
        mods_from_parts(parts.take(i + 1)) is Err,
    ensures
        mods_from_parts(parts) == mods_from_parts(parts.take(i + 1)),
    decreases parts.len() - i,
{
    if i + 1 < parts.len() {
        assert(parts.take(i + 2).drop_last() =~= parts.take(i + 1));
        lemma_mods_from_parts_err_prefix(parts, i + 1);
    } else {
        assert(parts.take(i + 1) =~= parts);
    }
}

proof fn lemma_mods_from_parts_err_prefix(parts: Seq<Seq<char>>, j: int)
    requires
        0 < j <= parts.len(),
        mods_from_parts(parts.take(j)) is Err,
    ensures
        mods_from_parts(parts) == mods_from_parts(parts.take(j)),
    decreases parts.len() - j,
{
    if j < parts.len() {
        assert(parts.take(j + 1).drop_last() =~= parts.take(j));
        lemma_mods_from_parts_err_prefix(parts, j + 1);
    } else {
        assert(parts.take(j) =~= parts);
    }
}

fn verbose_mods_exec(s: &[char]) -> (r: Result<KeyChord, Vec<char>>)
    ensures
        match r {
            Ok(c) => verbose_mods(s@) == Ok::<KeyChord, Seq<char>>(c),
            Err(e) => verbose_mods(s@) == Err::<KeyChord, Seq<char>>(e@),
        },
{
    proof {
        reveal_strlit("Modifiers(");
    }
    if !starts_with_str(s, "Modifiers(") {
        return Err(copy_chars(s));
    }
    let rest = slice_vec(s, 10, s.len());
    assert(rest@ =~= s@.skip(10));
    proof {
        lemma_first_index_of(rest@, ')');
    }
    let (mods_part, after) = match split_once_char(&rest, ')') {
        None => {
            return Err(copy_chars(s));
        },
        Some(p) => p,
    };
    let parts = split_char_chars(&mods_part, '+');
    let m = match mods_from_parts_exec(&parts) {
        Err(e) => {
            return Err(e);
        },
        Ok(m) => m,
    };
    let r = trim_chars(&trim_start_char_chars(&trim_chars(&after), '+'));
    if starts_with_str(&r, "Char(") {
        match verbose_char_exec(&r) {
            Ok(c) => Ok(KeyChord { code: c, mods: m }),
            Err(e) => Err(e),
        }
    } else {
        match parse_named_key(&r) {
            Some(c) => Ok(KeyChord { code: c, mods: m }),
            None => Err(r),
        }
    }
}

fn split_ws_exec(s: &[char]) -> (r: Vec<Vec<char>>)
    ensures
        views(r@) == split_ws(s@),
{
    let mut words: Vec<Vec<char>> = Vec::new();
    let mut cur: Vec<char> = Vec::new();
    let mut i: usize = 0;
    proof {
        assert(s@.take(0) =~= Seq::<char>::empty());
        assert(views(words@) =~= Seq::<Seq<char>>::empty());
    }
    while i < s.len()
        invariant
            i <= s@.len(),
            ws_fold(s@.take(i as int)) == (views(words@), cur@),
        decreases s@.len() - i,
    {
        proof {
            assert(s@.take(i + 1).drop_last() =~= s@.take(i as int));
            assert(s@.take(i + 1).last() == s@[i as int]);
        }
        let c = s[i];
        if is_whitespace(c) {
            if cur.len() > 0 {
                let ghost pw = words@;
                let ghost pc = cur@;
                words.push(cur);
                cur = Vec::new();
                proof {
                    assert(views(words@) =~= views(pw).push(pc));
                    assert(cur@ =~= Seq::<char>::empty());
                }
            } else {
                cur = Vec::new();
                proof {
                    assert(cur@ =~= Seq::<char>::empty());
                }
            }
        } else {
            cur.push(c);
        }
        i = i + 1;
    }
    proof {
        assert(s@.take(s@.len() as int) =~= s@);
    }
    if cur.len() > 0 {
        let ghost pw = words@;
        let ghost pc = cur@;
        words.push(cur);
        proof {
            assert(views(words@) =~= views(pw).push(pc));
        }
    }
    words
}

fn parse_chords(s: &[char]) -> (r: Result<Vec<KeyChord>, ParseError>)
    ensures
        match r {
            Ok(cs) => spec_parse_binding(s@) == Ok::<Seq<KeyChord>, ParseErrorView>(cs@),
            Err(e) => spec_parse_binding(s@) == Err::<Seq<KeyChord>, ParseErrorView>(e@),
        },
{
    let t = trim_chars(s);
    if t.len() == 0 {
        return Err(ParseError::Empty);
    }
    if starts_with_str(&t, "Modifiers(") {
        return match verbose_mods_exec(&t) {
            Ok(c) => {
                let mut v: Vec<KeyChord> = Vec::new();
                v.push(c);
                assert(v@ =~= seq![c]);
                Ok(v)
            },
            Err(e) => Err(ParseError::UnknownKey(string_from_chars(&e))),
        };
    }
    if starts_with_str(&t, "Char(") {
        return match verbose_char_exec(&t) {
            Ok(code) => {
                let mut v: Vec<KeyChord> = Vec::new();
                v.push(KeyChord { code, mods: KeyModifiers { ctrl: false, alt: false, shift: false } });
                assert(v@ =~= seq![KeyChord { code, mods: no_mods() }]);
                Ok(v)
            },
            Err(e) => Err(ParseError::UnknownKey(string_from_chars(&e))),
        };
    }
    let parts = split_ws_exec(&t);
    if parts.len() > 2 {
        return Err(ParseError::TooManyChords(parts.len()));
    }
    let mut cs: Vec<KeyChord> = Vec::new();
    let mut i: usize = 0;
    assert(views(parts@).take(0) =~= Seq::<Seq<char>>::empty());
    assert(cs@ =~= Seq::<KeyChord>::empty());
    while i < parts.len()
        invariant
            i <= parts@.len(),
            parts@.len() <= 2,
            views(parts@) == split_ws(trim(s@)),
            trim(s@).len() > 0,
            !has_prefix(trim(s@), "Modifiers("@),
            !has_prefix(trim(s@), "Char("@),
            friendly_chords(views(parts@).take(i as int)) == Ok::<Seq<KeyChord>, Seq<char>>(cs@),
        decreases parts@.len() - i,
    {
        proof {
            assert(views(parts@).take(i + 1).drop_last() =~= views(parts@).take(i as int));
            assert(views(parts@).take(i + 1).last() == parts@[i as int]@);
        }
        match friendly_chord_exec(&parts[i]) {
            Ok(c) => {
                cs.push(c);
            },
            Err(e) => {
                proof {
                    lemma_friendly_chords_err(views(parts@), i as int);
                }
                return Err(ParseError::UnknownKey(string_from_chars(&e)));
            },
        }
        i = i + 1;
    }
    assert(views(parts@).take(parts@.len() as int) =~= views(parts@));
    Ok(cs)
}

proof fn lemma_friendly_chords_err(parts: Seq<Seq<char>>, i: int)
    requires
        0 <= i < parts.len(),
        friendly_chords(parts.take(i)) is Ok,
        friendly_chord(parts[i]) is Err,
    ensures
        friendly_chords(parts) == Err::<Seq<KeyChord>, Seq<char>>(friendly_chord(parts[i])->Err_0),
    decreases parts.len() - i,
{
    assert(parts.take(i + 1).drop_last() =~= parts.take(i));
    assert(parts.take(i + 1).last() == parts[i]);
    lemma_friendly_chords_err_prefix(parts, i + 1);
}

proof fn lemma_friendly_chords_err_prefix(parts: Seq<Seq<char>>, j: int)
    requires
        0 < j <= parts.len(),
        friendly_chords(parts.take(j)) is Err,
    ensures
        friendly_chords(parts) == friendly_chords(parts.take(j)),
    decreases parts.len() - j,
{
    if j < parts.len() {
        assert(parts.take(j + 1).drop_last() =~= parts.take(j));
        lemma_friendly_chords_err_prefix(parts, j + 1);
    } else {
        assert(parts.take(j) =~= parts);
    }
}

/// Parses either syntax. Verbose forms (`Char('?')`, `Modifiers(ALT) + Char('1')`) always
/// describe one chord; the friendly syntax allows one or two space-separated chords.
pub fn parse_binding(s: &str) -> (r: Result<KeyBinding, ParseError>)
    ensures
        match r {
            Ok(b) => spec_parse_binding(s@) == Ok::<Seq<KeyChord>, ParseErrorView>(binding_chords(b)),
            Err(e) => spec_parse_binding(s@) == Err::<Seq<KeyChord>, ParseErrorView>(e@),
        },
{
    let c = chars_of(s);
    match parse_chords(&c) {
        Ok(cs) => Ok(binding_from_chords(&cs)),
        Err(e) => Err(e),
    }
}



fn code_text_exec(code: KeyCode) -> (r: Vec<char>)
    ensures
        r@ == code_text(code),
{
    match code {
        KeyCode::Char(c) => if c == ' ' {
            chars_of("space")
        } else {
            let mut v: Vec<char> = Vec::new();
            v.push(c);
            assert(v@ =~= seq![c]);
            v
        },
        KeyCode::Enter => chars_of("enter"),
        KeyCode::Esc => chars_of("esc"),
        KeyCode::Tab => chars_of("tab"),
        KeyCode::Backspace => chars_of("backspace"),
        KeyCode::Delete => chars_of("delete"),
        KeyCode::Left => chars_of("left"),
        KeyCode::Right => chars_of("right"),
        KeyCode::Up => chars_of("up"),
        KeyCode::Down => chars_of("down"),
        KeyCode::Home => chars_of("home"),
        KeyCode::End => chars_of("end"),
        KeyCode::PageUp => chars_of("pageup"),
        KeyCode::PageDown => chars_of("pagedown"),
        KeyCode::Insert => chars_of("insert"),
        KeyCode::F(n) => {
            let mut v: Vec<char> = Vec::new();
            v.push('f');
            let d = u64_to_chars(n as u64);
            append_chars(&mut v, &d);
            v
        },
    }
}

fn chord_text_exec(c: &KeyChord) -> (r: Vec<char>)
    ensures
        r@ == chord_text(*c),
{
    let mut s: Vec<char> = Vec::new();
    if c.mods.ctrl {
        append_chars(&mut s, &chars_of("ctrl+"));
    }
    let ghost a = s@;
    if c.mods.alt {
        append_chars(&mut s, &chars_of("alt+"));
    }
    let ghost b = s@;
    if c.mods.shift {
        append_chars(&mut s, &chars_of("shift+"));
    }
    proof {
        assert(s@ =~= mods_text(c.mods));
    }
    append_chars(&mut s, &code_text_exec(c.code));
    s
}

/// Always the friendly syntax: `ctrl+alt+shift+` (normalised order) then a key name or a bare
/// character, chords separated by one space.
pub fn render_binding(b: &KeyBinding) -> (r: String)
    ensures
        r@ == join_chords(binding_chords(*b)),
{
    let cs = binding_to_vec(b);
    let mut out: Vec<char> = Vec::new();
    let mut i: usize = 0;
    assert(cs@.take(0) =~= Seq::<KeyChord>::empty());
    while i < cs.len()
        invariant
            i <= cs@.len(),
            cs@ == binding_chords(*b),
            out@ == join_chords(cs@.take(i as int)),
        decreases cs@.len() - i,
    {
        if i > 0 {
            out.push(' ');
        }
        let t = chord_text_exec(&cs[i]);
        append_chars(&mut out, &t);
        proof {
            let p = cs@.take(i + 1);
            assert(p.drop_last() =~= cs@.take(i as int));
            assert(p.last() == cs@[i as int]);
            if i == 0 {
                assert(out@ =~= chord_text(p[0]));
            }
        }
        i = i + 1;
    }
    assert(cs@.take(cs@.len() as int) =~= cs@);
    string_from_chars(&out)
}


// ---------------------------------------------------------------- round trip

/// The canonical form the parser produces: a character chord never carries `shift` (the
/// character already encodes it) and is not a whitespace character other than Space (which is
/// spelled `space`); function keys are `F1`..`F12`.
pub open spec fn canonical_chord(c: KeyChord) -> bool {
    match c.code {
        KeyCode::Char(ch) => !c.mods.shift && (ch == ' ' || !spec_is_whitespace(ch)),
        KeyCode::F(n) => 1 <= n <= 12,
        _ => true,
    }
}

/// One or two canonical chords.
pub open spec fn canonical_chords(cs: Seq<KeyChord>) -> bool {
    &&& (cs.len() == 1 || cs.len() == 2)
    &&& forall|i: int| 0 <= i < cs.len() ==> canonical_chord(#[trigger] cs[i])
}

pub open spec fn no_ws(s: Seq<char>) -> bool {
    forall|i: int| 0 <= i < s.len() ==> !spec_is_whitespace(#[trigger] s[i])
}

proof fn lemma_prefix_heads(x: Seq<char>, p: Seq<char>)
    requires
        has_prefix(x, p),
        p.len() >= 2,
    ensures
        x[0] == p[0],
        x[1] == p[1],
{
    assert(x.take(p.len() as int)[0] == p[0]);
    assert(x.take(p.len() as int)[1] == p[1]);
}

proof fn lemma_prefix_of_concat(p: Seq<char>, x: Seq<char>)
    ensures
        has_prefix(p + x, p),
        (p + x).skip(p.len() as int) == x,
{
    assert((p + x).take(p.len() as int) =~= p);
    assert((p + x).skip(p.len() as int) =~= x);
}

proof fn lemma_lower_concat(a: Seq<char>, b: Seq<char>)
    ensures
        ascii_lower_seq(a + b) == ascii_lower_seq(a) + ascii_lower_seq(b),
{
    assert(ascii_lower_seq(a + b) =~= ascii_lower_seq(a) + ascii_lower_seq(b));
}

/// A lowercase-ASCII-only text is its own lowercase.
proof fn lemma_lower_fixed(s: Seq<char>)
    requires
        forall|i: int| 0 <= i < s.len() ==> !('A' <= #[trigger] s[i] && s[i] <= 'Z'),
    ensures
        ascii_lower_seq(s) == s,
{
    assert(ascii_lower_seq(s) =~= s);
}

proof fn lemma_reveal_names()
    ensures
        "space"@ =~= seq!['s', 'p', 'a', 'c', 'e'],
        "enter"@ =~= seq!['e', 'n', 't', 'e', 'r'],
        "esc"@ =~= seq!['e', 's', 'c'],
        "escape"@ =~= seq!['e', 's', 'c', 'a', 'p', 'e'],
        "tab"@ =~= seq!['t', 'a', 'b'],
        "backspace"@ =~= seq!['b', 'a', 'c', 'k', 's', 'p', 'a', 'c', 'e'],
        "delete"@ =~= seq!['d', 'e', 'l', 'e', 't', 'e'],
        "del"@ =~= seq!['d', 'e', 'l'],
        "left"@ =~= seq!['l', 'e', 'f', 't'],
        "right"@ =~= seq!['r', 'i', 'g', 'h', 't'],
        "up"@ =~= seq!['u', 'p'],
        "down"@ =~= seq!['d', 'o', 'w', 'n'],
        "home"@ =~= seq!['h', 'o', 'm', 'e'],
        "end"@ =~= seq!['e', 'n', 'd'],
        "pageup"@ =~= seq!['p', 'a', 'g', 'e', 'u', 'p'],
        "pagedown"@ =~= seq!['p', 'a', 'g', 'e', 'd', 'o', 'w', 'n'],
        "insert"@ =~= seq!['i', 'n', 's', 'e', 'r', 't'],
        "ins"@ =~= seq!['i', 'n', 's'],
        "ctrl+"@ =~= seq!['c', 't', 'r', 'l', '+'],
        "alt+"@ =~= seq!['a', 'l', 't', '+'],
        "shift+"@ =~= seq!['s', 'h', 'i', 'f', 't', '+'],
        "Char("@ =~= seq!['C', 'h', 'a', 'r', '('],
        "Modifiers("@ =~= seq!['M', 'o', 'd', 'i', 'f', 'i', 'e', 'r', 's', '('],
{
    reveal_strlit("space");
    reveal_strlit("enter");
    reveal_strlit("esc");
    reveal_strlit("escape");
    reveal_strlit("tab");
    reveal_strlit("backspace");
    reveal_strlit("delete");
    reveal_strlit("del");
    reveal_strlit("left");
    reveal_strlit("right");
    reveal_strlit("up");
    reveal_strlit("down");
    reveal_strlit("home");
    reveal_strlit("end");
    reveal_strlit("pageup");
    reveal_strlit("pagedown");
    reveal_strlit("insert");
    reveal_strlit("ins");
    reveal_strlit("ctrl+");
    reveal_strlit("alt+");
    reveal_strlit("shift+");
    reveal_strlit("Char(");
    reveal_strlit("Modifiers(");
}

/// What the parser needs to know about the text of a canonical key code.
proof fn lemma_code_text(code: KeyCode)
    requires
        match code {
            KeyCode::Char(ch) => ch == ' ' || !spec_is_whitespace(ch),
            KeyCode::F(n) => 1 <= n <= 12,
            _ => true,
        },
    ensures
        code_text(code).len() > 0,
        no_ws(code_text(code)),
        parse_named(code_text(code)) == (match code {
            KeyCode::Char(ch) => if ch == ' ' {
                Some(KeyCode::Char(' '))
            } else {
                None
            },
            _ => Some(code),
        }),
        !has_prefix(ascii_lower_seq(code_text(code)), "ctrl+"@),
        !has_prefix(ascii_lower_seq(code_text(code)), "alt+"@),
        !has_prefix(ascii_lower_seq(code_text(code)), "shift+"@),
        code_text(code).len() == 1 || (code_text(code)[0] != 'C' && code_text(code)[0] != 'M'),
{
    lemma_reveal_names();
    let t = code_text(code);
    match code {
        KeyCode::Char(ch) => {
            if ch != ' ' {
                assert(ascii_lower_seq(t).len() == 1);
                assert(named_key(ascii_lower_seq(t)) is None);
            } else {
                lemma_lower_fixed(t);
            }
        },
        KeyCode::F(n) => {
            crate::text::lemma_decimal_string(n as nat);
            let d = decimal_string(n as nat);
            assert(t.skip(1) =~= d);
            assert forall|i: int| 0 <= i < t.len() implies !spec_is_whitespace(#[trigger] t[i]) by {
                if i > 0 {
                    assert(t[i] == d[i - 1]);
                    assert(crate::text::is_digit(d[i - 1]));
                }
            }
            assert forall|i: int| 0 <= i < t.len() implies !('A' <= #[trigger] t[i] && t[i] <= 'Z') by {
                if i > 0 {
                    assert(t[i] == d[i - 1]);
                    assert(crate::text::is_digit(d[i - 1]));
                }
            }
            lemma_lower_fixed(t);
            if has_prefix(t, "ctrl+"@) {
                lemma_prefix_heads(t, "ctrl+"@);
            }
            if has_prefix(t, "alt+"@) {
                lemma_prefix_heads(t, "alt+"@);
            }
            if has_prefix(t, "shift+"@) {
                lemma_prefix_heads(t, "shift+"@);
            }
            assert(t.len() >= 2);
        },
        _ => {
            lemma_lower_fixed(t);
        },
    }
}


/// Stripping the rendered modifier prefix recovers exactly the chord's modifiers.
proof fn lemma_strip_mods_text(m: KeyModifiers, ct: Seq<char>)
    requires
        !has_prefix(ascii_lower_seq(ct), "ctrl+"@),
        !has_prefix(ascii_lower_seq(ct), "alt+"@),
        !has_prefix(ascii_lower_seq(ct), "shift+"@),
    ensures
        strip_mods(mods_text(m) + ct, no_mods()) == (m, ct),
{
    lemma_reveal_names();
    let pc: Seq<char> = if m.ctrl { "ctrl+"@ } else { Seq::empty() };
    let pa: Seq<char> = if m.alt { "alt+"@ } else { Seq::empty() };
    let ps: Seq<char> = if m.shift { "shift+"@ } else { Seq::empty() };
    assert(mods_text(m) + ct =~= pc + (pa + (ps + ct)));
    let m1 = KeyModifiers { ctrl: m.ctrl, alt: false, shift: false };
    let m2 = KeyModifiers { ctrl: m.ctrl, alt: m.alt, shift: false };
    // the bare code text stops the stripping
    assert(strip_mods(ct, m) == (m, ct));
    // shift+
    if m.shift {
        lemma_lower_concat(ps, ct);
        lemma_lower_fixed(ps);
        lemma_prefix_of_concat(ps, ascii_lower_seq(ct));
        lemma_prefix_of_concat(ps, ct);
        let l = ascii_lower_seq(ps + ct);
        if has_prefix(l, "ctrl+"@) {
            lemma_prefix_heads(l, "ctrl+"@);
        }
        if has_prefix(l, "alt+"@) {
            lemma_prefix_heads(l, "alt+"@);
        }
        assert(strip_mods(ps + ct, m2) == strip_mods(ct, KeyModifiers { shift: true, ..m2 }));
        assert(KeyModifiers { shift: true, ..m2 } == m);
    } else {
        assert(ps + ct =~= ct);
        assert(m2 == m);
    }
    assert(strip_mods(ps + ct, m2) == (m, ct));
    // alt+
    if m.alt {
        lemma_lower_concat(pa, ps + ct);
        lemma_lower_fixed(pa);
        lemma_prefix_of_concat(pa, ascii_lower_seq(ps + ct));
        lemma_prefix_of_concat(pa, ps + ct);
        let l = ascii_lower_seq(pa + (ps + ct));
        if has_prefix(l, "ctrl+"@) {
            lemma_prefix_heads(l, "ctrl+"@);
        }
        assert(strip_mods(pa + (ps + ct), m1) == strip_mods(ps + ct, KeyModifiers { alt: true, ..m1 }));
        assert(KeyModifiers { alt: true, ..m1 } == m2);
    } else {
        assert(pa + (ps + ct) =~= ps + ct);
        assert(m1 == m2);
    }
    assert(strip_mods(pa + (ps + ct), m1) == (m, ct));
    // ctrl+
    if m.ctrl {
        lemma_lower_concat(pc, pa + (ps + ct));
        lemma_lower_fixed(pc);
        lemma_prefix_of_concat(pc, ascii_lower_seq(pa + (ps + ct)));
        lemma_prefix_of_concat(pc, pa + (ps + ct));
        assert(strip_mods(pc + (pa + (ps + ct)), no_mods()) == strip_mods(pa + (ps + ct), KeyModifiers { ctrl: true, ..no_mods() }));
        assert(KeyModifiers { ctrl: true, ..no_mods() } == m1);
    } else {
        assert(pc + (pa + (ps + ct)) =~= pa + (ps + ct));
        assert(no_mods() == m1);
    }
}

/// Law: each key name denotes its own key, whatever its case: `home` the Home key, `end` the End
/// key, `pageup`/`pagedown` the page keys, the arrows their directions, `esc`/`escape`,
/// `delete`/`del` and `insert`/`ins` their keys, `space` the space character, and `f1`..`f12` the
/// function keys of those numbers; and each key is written back under its own name.
pub proof fn lemma_key_names(s: Seq<char>, n: nat)
    ensures
        ascii_lower_seq(s) == "space"@ ==> parse_named(s) == Some(KeyCode::Char(' ')),
        ascii_lower_seq(s) == "enter"@ ==> parse_named(s) == Some(KeyCode::Enter),
        ascii_lower_seq(s) == "esc"@ ==> parse_named(s) == Some(KeyCode::Esc),
        ascii_lower_seq(s) == "escape"@ ==> parse_named(s) == Some(KeyCode::Esc),
        ascii_lower_seq(s) == "tab"@ ==> parse_named(s) == Some(KeyCode::Tab),
        ascii_lower_seq(s) == "backspace"@ ==> parse_named(s) == Some(KeyCode::Backspace),
        ascii_lower_seq(s) == "delete"@ ==> parse_named(s) == Some(KeyCode::Delete),
        ascii_lower_seq(s) == "del"@ ==> parse_named(s) == Some(KeyCode::Delete),
        ascii_lower_seq(s) == "left"@ ==> parse_named(s) == Some(KeyCode::Left),
        ascii_lower_seq(s) == "right"@ ==> parse_named(s) == Some(KeyCode::Right),
        ascii_lower_seq(s) == "up"@ ==> parse_named(s) == Some(KeyCode::Up),
        ascii_lower_seq(s) == "down"@ ==> parse_named(s) == Some(KeyCode::Down),
        ascii_lower_seq(s) == "home"@ ==> parse_named(s) == Some(KeyCode::Home),
        ascii_lower_seq(s) == "end"@ ==> parse_named(s) == Some(KeyCode::End),
        ascii_lower_seq(s) == "pageup"@ ==> parse_named(s) == Some(KeyCode::PageUp),
        ascii_lower_seq(s) == "pagedown"@ ==> parse_named(s) == Some(KeyCode::PageDown),
        ascii_lower_seq(s) == "insert"@ ==> parse_named(s) == Some(KeyCode::Insert),
        ascii_lower_seq(s) == "ins"@ ==> parse_named(s) == Some(KeyCode::Insert),
        code_text(KeyCode::Char(' ')) == "space"@,
        code_text(KeyCode::Enter) == "enter"@,
        code_text(KeyCode::Esc) == "esc"@,
        code_text(KeyCode::Tab) == "tab"@,
        code_text(KeyCode::Backspace) == "backspace"@,
        code_text(KeyCode::Delete) == "delete"@,
        code_text(KeyCode::Left) == "left"@,
        code_text(KeyCode::Right) == "right"@,
        code_text(KeyCode::Up) == "up"@,
        code_text(KeyCode::Down) == "down"@,
        code_text(KeyCode::Home) == "home"@,
        code_text(KeyCode::End) == "end"@,
        code_text(KeyCode::PageUp) == "pageup"@,
        code_text(KeyCode::PageDown) == "pagedown"@,
        code_text(KeyCode::Insert) == "insert"@,
        1 <= n <= 12 ==> parse_named(seq!['f'] + decimal_string(n)) == Some(KeyCode::F(n as u8)),
{
    reveal_strlit("backspace");
    reveal_strlit("del");
    reveal_strlit("delete");
    reveal_strlit("down");
    reveal_strlit("end");
    reveal_strlit("enter");
    reveal_strlit("esc");
    reveal_strlit("escape");
    reveal_strlit("home");
    reveal_strlit("ins");
    reveal_strlit("insert");
    reveal_strlit("left");
    reveal_strlit("pagedown");
    reveal_strlit("pageup");
    reveal_strlit("right");
    reveal_strlit("space");
    reveal_strlit("tab");
    reveal_strlit("up");
    let lower = ascii_lower_seq(s);
    assert(lower == "space"@ ==> named_key(lower) == Some(KeyCode::Char(' '))) by {
        assert(("space"@)[0] != 'f');
    }
    assert(lower == "enter"@ ==> named_key(lower) == Some(KeyCode::Enter)) by {
        assert(("enter"@)[0] != ("space"@)[0]);
        assert(("enter"@)[0] != 'f');
    }
    assert(lower == "esc"@ ==> named_key(lower) == Some(KeyCode::Esc)) by {
        assert(("esc"@).len() != ("space"@).len());
        assert(("esc"@).len() != ("enter"@).len());
        assert(("esc"@)[0] != 'f');
    }
    assert(lower == "escape"@ ==> named_key(lower) == Some(KeyCode::Esc)) by {
        assert(("escape"@).len() != ("space"@).len());
        assert(("escape"@).len() != ("enter"@).len());
        assert(("escape"@).len() != ("esc"@).len());
        assert(("escape"@)[0] != 'f');
    }
    assert(lower == "tab"@ ==> named_key(lower) == Some(KeyCode::Tab)) by {
        assert(("tab"@).len() != ("space"@).len());
        assert(("tab"@).len() != ("enter"@).len());
        assert(("tab"@)[0] != ("esc"@)[0]);
        assert(("tab"@).len() != ("escape"@).len());
        assert(("tab"@)[0] != 'f');
    }
    assert(lower == "backspace"@ ==> named_key(lower) == Some(KeyCode::Backspace)) by {
        assert(("backspace"@).len() != ("space"@).len());
        assert(("backspace"@).len() != ("enter"@).len());
        assert(("backspace"@).len() != ("esc"@).len());
        assert(("backspace"@).len() != ("escape"@).len());
        assert(("backspace"@).len() != ("tab"@).len());
        assert(("backspace"@)[0] != 'f');
    }
    assert(lower == "delete"@ ==> named_key(lower) == Some(KeyCode::Delete)) by {
        assert(("delete"@).len() != ("space"@).len());
        assert(("delete"@).len() != ("enter"@).len());
        assert(("delete"@).len() != ("esc"@).len());
        assert(("delete"@)[0] != ("escape"@)[0]);
        assert(("delete"@).len() != ("tab"@).len());
        assert(("delete"@).len() != ("backspace"@).len());
        assert(("delete"@)[0] != 'f');
    }
    assert(lower == "del"@ ==> named_key(lower) == Some(KeyCode::Delete)) by {
        assert(("del"@).len() != ("space"@).len());
        assert(("del"@).len() != ("enter"@).len());
        assert(("del"@)[0] != ("esc"@)[0]);
        assert(("del"@).len() != ("escape"@).len());
        assert(("del"@)[0] != ("tab"@)[0]);
        assert(("del"@).len() != ("backspace"@).len());
        assert(("del"@).len() != ("delete"@).len());
        assert(("del"@)[0] != 'f');
    }
    assert(lower == "left"@ ==> named_key(lower) == Some(KeyCode::Left)) by {
        assert(("left"@).len() != ("space"@).len());
        assert(("left"@).len() != ("enter"@).len());
        assert(("left"@).len() != ("esc"@).len());
        assert(("left"@).len() != ("escape"@).len());
        assert(("left"@).len() != ("tab"@).len());
        assert(("left"@).len() != ("backspace"@).len());
        assert(("left"@).len() != ("delete"@).len());
        assert(("left"@).len() != ("del"@).len());
        assert(("left"@)[0] != 'f');
    }
    assert(lower == "right"@ ==> named_key(lower) == Some(KeyCode::Right)) by {
        assert(("right"@)[0] != ("space"@)[0]);
        assert(("right"@)[0] != ("enter"@)[0]);
        assert(("right"@).len() != ("esc"@).len());
        assert(("right"@).len() != ("escape"@).len());
        assert(("right"@).len() != ("tab"@).len());
        assert(("right"@).len() != ("backspace"@).len());
        assert(("right"@).len() != ("delete"@).len());
        assert(("right"@).len() != ("del"@).len());
        assert(("right"@).len() != ("left"@).len());
        assert(("right"@)[0] != 'f');
    }
    assert(lower == "up"@ ==> named_key(lower) == Some(KeyCode::Up)) by {
        assert(("up"@).len() != ("space"@).len());
        assert(("up"@).len() != ("enter"@).len());
        assert(("up"@).len() != ("esc"@).len());
        assert(("up"@).len() != ("escape"@).len());
        assert(("up"@).len() != ("tab"@).len());
        assert(("up"@).len() != ("backspace"@).len());
        assert(("up"@).len() != ("delete"@).len());
        assert(("up"@).len() != ("del"@).len());
        assert(("up"@).len() != ("left"@).len());
        assert(("up"@).len() != ("right"@).len());
        assert(("up"@)[0] != 'f');
    }
    assert(lower == "down"@ ==> named_key(lower) == Some(KeyCode::Down)) by {
        assert(("down"@).len() != ("space"@).len());
        assert(("down"@).len() != ("enter"@).len());
        assert(("down"@).len() != ("esc"@).len());
        assert(("down"@).len() != ("escape"@).len());
        assert(("down"@).len() != ("tab"@).len());
        assert(("down"@).len() != ("backspace"@).len());
        assert(("down"@).len() != ("delete"@).len());
        assert(("down"@).len() != ("del"@).len());
        assert(("down"@)[0] != ("left"@)[0]);
        assert(("down"@).len() != ("right"@).len());
        assert(("down"@).len() != ("up"@).len());
        assert(("down"@)[0] != 'f');
    }
    assert(lower == "home"@ ==> named_key(lower) == Some(KeyCode::Home)) by {
        assert(("home"@).len() != ("space"@).len());
        assert(("home"@).len() != ("enter"@).len());
        assert(("home"@).len() != ("esc"@).len());
        assert(("home"@).len() != ("escape"@).len());
        assert(("home"@).len() != ("tab"@).len());
        assert(("home"@).len() != ("backspace"@).len());
        assert(("home"@).len() != ("delete"@).len());
        assert(("home"@).len() != ("del"@).len());
        assert(("home"@)[0] != ("left"@)[0]);
        assert(("home"@).len() != ("right"@).len());
        assert(("home"@).len() != ("up"@).len());
        assert(("home"@)[0] != ("down"@)[0]);
        assert(("home"@)[0] != 'f');
    }
    assert(lower == "end"@ ==> named_key(lower) == Some(KeyCode::End)) by {
        assert(("end"@).len() != ("space"@).len());
        assert(("end"@).len() != ("enter"@).len());
        assert(("end"@)[1] != ("esc"@)[1]);
        assert(("end"@).len() != ("escape"@).len());
        assert(("end"@)[0] != ("tab"@)[0]);
        assert(("end"@).len() != ("backspace"@).len());
        assert(("end"@).len() != ("delete"@).len());
        assert(("end"@)[0] != ("del"@)[0]);
        assert(("end"@).len() != ("left"@).len());
        assert(("end"@).len() != ("right"@).len());
        assert(("end"@).len() != ("up"@).len());
        assert(("end"@).len() != ("down"@).len());
        assert(("end"@).len() != ("home"@).len());
        assert(("end"@)[0] != 'f');
    }
    assert(lower == "pageup"@ ==> named_key(lower) == Some(KeyCode::PageUp)) by {
        assert(("pageup"@).len() != ("space"@).len());
        assert(("pageup"@).len() != ("enter"@).len());
        assert(("pageup"@).len() != ("esc"@).len());
        assert(("pageup"@)[0] != ("escape"@)[0]);
        assert(("pageup"@).len() != ("tab"@).len());
        assert(("pageup"@).len() != ("backspace"@).len());
        assert(("pageup"@)[0] != ("delete"@)[0]);
        assert(("pageup"@).len() != ("del"@).len());
        assert(("pageup"@).len() != ("left"@).len());
        assert(("pageup"@).len() != ("right"@).len());
        assert(("pageup"@).len() != ("up"@).len());
        assert(("pageup"@).len() != ("down"@).len());
        assert(("pageup"@).len() != ("home"@).len());
        assert(("pageup"@).len() != ("end"@).len());
        assert(("pageup"@)[0] != 'f');
    }
    assert(lower == "pagedown"@ ==> named_key(lower) == Some(KeyCode::PageDown)) by {
        assert(("pagedown"@).len() != ("space"@).len());
        assert(("pagedown"@).len() != ("enter"@).len());
        assert(("pagedown"@).len() != ("esc"@).len());
        assert(("pagedown"@).len() != ("escape"@).len());
        assert(("pagedown"@).len() != ("tab"@).len());
        assert(("pagedown"@).len() != ("backspace"@).len());
        assert(("pagedown"@).len() != ("delete"@).len());
        assert(("pagedown"@).len() != ("del"@).len());
        assert(("pagedown"@).len() != ("left"@).len());
        assert(("pagedown"@).len() != ("right"@).len());
        assert(("pagedown"@).len() != ("up"@).len());
        assert(("pagedown"@).len() != ("down"@).len());
        assert(("pagedown"@).len() != ("home"@).len());
        assert(("pagedown"@).len() != ("end"@).len());
        assert(("pagedown"@).len() != ("pageup"@).len());
        assert(("pagedown"@)[0] != 'f');
    }
    assert(lower == "insert"@ ==> named_key(lower) == Some(KeyCode::Insert)) by {
        assert(("insert"@).len() != ("space"@).len());
        assert(("insert"@).len() != ("enter"@).len());
        assert(("insert"@).len() != ("esc"@).len());
        assert(("insert"@)[0] != ("escape"@)[0]);
        assert(("insert"@).len() != ("tab"@).len());
        assert(("insert"@).len() != ("backspace"@).len());
        assert(("insert"@)[0] != ("delete"@)[0]);
        assert(("insert"@).len() != ("del"@).len());
        assert(("insert"@).len() != ("left"@).len());
        assert(("insert"@).len() != ("right"@).len());
        assert(("insert"@).len() != ("up"@).len());
        assert(("insert"@).len() != ("down"@).len());
        assert(("insert"@).len() != ("home"@).len());
        assert(("insert"@).len() != ("end"@).len());
        assert(("insert"@)[0] != ("pageup"@)[0]);
        assert(("insert"@).len() != ("pagedown"@).len());
        assert(("insert"@)[0] != 'f');
    }
    assert(lower == "ins"@ ==> named_key(lower) == Some(KeyCode::Insert)) by {
        assert(("ins"@).len() != ("space"@).len());
        assert(("ins"@).len() != ("enter"@).len());
        assert(("ins"@)[0] != ("esc"@)[0]);
        assert(("ins"@).len() != ("escape"@).len());
        assert(("ins"@)[0] != ("tab"@)[0]);
        assert(("ins"@).len() != ("backspace"@).len());
        assert(("ins"@).len() != ("delete"@).len());
        assert(("ins"@)[0] != ("del"@)[0]);
        assert(("ins"@).len() != ("left"@).len());
        assert(("ins"@).len() != ("right"@).len());
        assert(("ins"@).len() != ("up"@).len());
        assert(("ins"@).len() != ("down"@).len());
        assert(("ins"@).len() != ("home"@).len());
        assert(("ins"@)[0] != ("end"@)[0]);
        assert(("ins"@).len() != ("pageup"@).len());
        assert(("ins"@).len() != ("pagedown"@).len());
        assert(("ins"@).len() != ("insert"@).len());
        assert(("ins"@)[0] != 'f');
    }
    if 1 <= n <= 12 {
        let t = seq!['f'] + decimal_string(n);
        crate::text::lemma_decimal_string(n);
        assert(t.skip(1) =~= decimal_string(n));
        assert(ascii_lower_seq(t) =~= t) by {
            assert forall|i: int| 0 <= i < t.len() implies ascii_lower(t[i]) == t[i] by {
                if i > 0 {
                    assert(t[i] == decimal_string(n)[i - 1]);
                    assert(crate::text::is_digit(decimal_string(n)[i - 1]));
                }
            }
        }
        assert(t.len() >= 2);
        assert(t[0] != ("backspace"@)[0]);
        assert(t[0] != ("del"@)[0]);
        assert(t[0] != ("delete"@)[0]);
        assert(t[0] != ("down"@)[0]);
        assert(t[0] != ("end"@)[0]);
        assert(t[0] != ("enter"@)[0]);
        assert(t[0] != ("esc"@)[0]);
        assert(t[0] != ("escape"@)[0]);
        assert(t[0] != ("home"@)[0]);
        assert(t[0] != ("ins"@)[0]);
        assert(t[0] != ("insert"@)[0]);
        assert(t[0] != ("left"@)[0]);
        assert(t[0] != ("pagedown"@)[0]);
        assert(t[0] != ("pageup"@)[0]);
        assert(t[0] != ("right"@)[0]);
        assert(t[0] != ("space"@)[0]);
        assert(t[0] != ("tab"@)[0]);
        assert(t[0] != ("up"@)[0]);
    }
}

/// A canonical chord's text reads back as that chord.
pub proof fn lemma_friendly_chord_text(c: KeyChord)
    requires
        canonical_chord(c),
    ensures
        friendly_chord(chord_text(c)) == Ok::<KeyChord, Seq<char>>(c),
{
    lemma_code_text(c.code);
    lemma_strip_mods_text(c.mods, code_text(c.code));
}


proof fn lemma_chord_text(c: KeyChord)
    requires
        canonical_chord(c),
    ensures
        chord_text(c).len() > 0,
        no_ws(chord_text(c)),
        chord_text(c).len() == 1 || (chord_text(c)[0] != 'C' && chord_text(c)[0] != 'M'),
{
    lemma_reveal_names();
    lemma_code_text(c.code);
    let m = mods_text(c.mods);
    let ct = code_text(c.code);
    let t = chord_text(c);
    assert forall|i: int| 0 <= i < m.len() implies !spec_is_whitespace(#[trigger] m[i]) && m[i] != 'C' && m[i] != 'M' by {
        let pc: Seq<char> = if c.mods.ctrl { "ctrl+"@ } else { Seq::empty() };
        let pa: Seq<char> = if c.mods.alt { "alt+"@ } else { Seq::empty() };
        let ps: Seq<char> = if c.mods.shift { "shift+"@ } else { Seq::empty() };
        assert(m == pc + pa + ps);
        if i < pc.len() {
            assert(m[i] == pc[i]);
        } else if i < pc.len() + pa.len() {
            assert(m[i] == pa[i - pc.len()]);
        } else {
            assert(m[i] == ps[i - pc.len() - pa.len()]);
        }
    }
    assert forall|i: int| 0 <= i < t.len() implies !spec_is_whitespace(#[trigger] t[i]) by {
        if i < m.len() {
            assert(t[i] == m[i]);
        } else {
            assert(t[i] == ct[i - m.len()]);
        }
    }
    if m.len() > 0 {
        assert(t[0] == m[0]);
    } else {
        assert(t =~= ct);
    }
}

proof fn lemma_trim_fixed(s: Seq<char>)
    requires
        s.len() > 0,
        !spec_is_whitespace(s[0]),
        !spec_is_whitespace(s.last()),
    ensures
        trim(s) == s,
{
}

/// Appending whitespace-free text only extends the current word.
proof fn lemma_ws_fold_append(p: Seq<char>, x: Seq<char>)
    requires
        no_ws(x),
    ensures
        ws_fold(p + x) == (ws_fold(p).0, ws_fold(p).1 + x),
    decreases x.len(),
{
    if x.len() == 0 {
        assert(p + x =~= p);
        assert(ws_fold(p).1 + x =~= ws_fold(p).1);
    } else {
        let x0 = x.drop_last();
        assert(no_ws(x0)) by {
            assert forall|i: int| 0 <= i < x0.len() implies !spec_is_whitespace(#[trigger] x0[i]) by {
                assert(x0[i] == x[i]);
            }
        }
        lemma_ws_fold_append(p, x0);
        assert((p + x).drop_last() =~= p + x0);
        assert((p + x).last() == x.last());
        assert(!spec_is_whitespace(x.last()));
        assert((ws_fold(p).1 + x0).push(x.last()) =~= ws_fold(p).1 + x);
    }
}

proof fn lemma_split_ws_one(a: Seq<char>)
    requires
        a.len() > 0,
        no_ws(a),
    ensures
        split_ws(a) == seq![a],
{
    lemma_ws_fold_append(Seq::empty(), a);
    assert(Seq::<char>::empty() + a =~= a);
    assert(ws_fold(Seq::<char>::empty()) == (Seq::<Seq<char>>::empty(), Seq::<char>::empty()));
    assert(Seq::<char>::empty() + a =~= a);
    assert(Seq::<Seq<char>>::empty().push(a) =~= seq![a]);
}

proof fn lemma_split_ws_two(a: Seq<char>, b: Seq<char>)
    requires
        a.len() > 0,
        no_ws(a),
        b.len() > 0,
        no_ws(b),
    ensures
        split_ws(a + seq![' '] + b) == seq![a, b],
{
    lemma_split_ws_one(a);
    lemma_ws_fold_append(Seq::empty(), a);
    assert(Seq::<char>::empty() + a =~= a);
    let a1 = a + seq![' '];
    assert(a1.drop_last() =~= a);
    assert(spec_is_whitespace(' '));
    assert(ws_fold(a1) == (seq![a], Seq::<char>::empty())) by {
        assert(Seq::<Seq<char>>::empty().push(a) =~= seq![a]);
        assert(Seq::<char>::empty() + a =~= a);
    }
    lemma_ws_fold_append(a1, b);
    assert(Seq::<char>::empty() + b =~= b);
    assert(seq![a].push(b) =~= seq![a, b]);
}

/// Law: rendering a binding of one or two canonical chords and parsing the text gives the same
/// chords back, so the keymap editor's round trip through text is lossless.
#[verifier::spinoff_prover]
#[verifier::rlimit(60)]
pub proof fn lemma_parse_render_roundtrip(cs: Seq<KeyChord>)
    requires
        canonical_chords(cs),
    ensures
        spec_parse_binding(join_chords(cs)) == Ok::<Seq<KeyChord>, ParseErrorView>(cs),
{
    lemma_reveal_names();
    let t = join_chords(cs);
    let a = chord_text(cs[0]);
    lemma_chord_text(cs[0]);
    lemma_friendly_chord_text(cs[0]);
    if cs.len() == 1 {
        assert(t == a);
        lemma_trim_fixed(t);
        if has_prefix(t, "Modifiers("@) {
            lemma_prefix_heads(t, "Modifiers("@);
        }
        if has_prefix(t, "Char("@) {
            lemma_prefix_heads(t, "Char("@);
        }
        assert(trim(t) == t);
        lemma_split_ws_one(a);
        assert(split_ws(t) == seq![a]);
        assert(seq![a].drop_last() =~= Seq::<Seq<char>>::empty());
        assert(friendly_chords(Seq::<Seq<char>>::empty()) == Ok::<Seq<KeyChord>, Seq<char>>(Seq::empty()));
        assert(seq![a].last() == a);
        assert(friendly_chords(seq![a]) == Ok::<Seq<KeyChord>, Seq<char>>(Seq::<KeyChord>::empty().push(cs[0])));
        assert(Seq::<KeyChord>::empty().push(cs[0]) =~= cs);
    } else {
        let b = chord_text(cs[1]);
        lemma_chord_text(cs[1]);
        lemma_friendly_chord_text(cs[1]);
        let d = cs.drop_last();
        assert(d =~= seq![cs[0]]);
        assert(d.len() == 1);
        assert(join_chords(d) == chord_text(d[0]));
        assert(d[0] == cs[0]);
        assert(cs.last() == cs[1]);
        assert(t == join_chords(d) + seq![' '] + chord_text(cs.last()));
        assert(t == a + seq![' '] + b);
        assert(t[0] == a[0]);
        assert(t.last() == b.last());
        lemma_trim_fixed(t);
        if a.len() == 1 {
            assert(t[1] == ' ');
        } else {
            assert(t[1] == a[1]);
        }
        if has_prefix(t, "Modifiers("@) {
            lemma_prefix_heads(t, "Modifiers("@);
        }
        if has_prefix(t, "Char("@) {
            lemma_prefix_heads(t, "Char("@);
        }
        assert(!has_prefix(t, "Modifiers("@));
        assert(!has_prefix(t, "Char("@));
        assert(trim(t) == t);
        lemma_split_ws_two(a, b);
        let parts = seq![a, b];
        assert(split_ws(t) == parts);
        assert(parts.drop_last() =~= seq![a]);
        assert(seq![a].drop_last() =~= Seq::<Seq<char>>::empty());
        assert(friendly_chords(Seq::<Seq<char>>::empty()) == Ok::<Seq<KeyChord>, Seq<char>>(Seq::empty()));
        assert(seq![a].last() == a);
        assert(friendly_chords(seq![a]) == Ok::<Seq<KeyChord>, Seq<char>>(Seq::<KeyChord>::empty().push(cs[0])));
        assert(parts.last() == b);
        assert(friendly_chords(parts) == Ok::<Seq<KeyChord>, Seq<char>>(Seq::<KeyChord>::empty().push(cs[0]).push(cs[1])));
        assert(Seq::<KeyChord>::empty().push(cs[0]).push(cs[1]) =~= cs);
    }
}

} // verus!
