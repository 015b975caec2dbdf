//! The binding table: which binding fires which action, the display hint of each action, and
//! the record of every binding ever attempted, for conflict reports.
use crate::keymap::{binding_chords, binding_eq, binding_to_vec, ActionId, InputContext, KeyBinding, KeyChord, KeyCode};
use crate::config::{ConfigWarning, ConfigWarningView, Severity};
use crate::keymap::parse::{join_chords, parse_binding, render_binding, spec_parse_binding};
use crate::keymap::{action_from_name, action_name};
use crate::queue::natural::text_order;
use crate::text::{append_chars, ascii_lower_seq, chars_of, eq_str, string_from_chars, to_ascii_lower_chars, trim, trim_chars};
use vstd::prelude::*;

verus! {

// ------------------------------------------------------------------ the order of bindings

/// Position of a key code in the order the derived `Ord` gives: the variant first, then its
/// payload (the character or the function-key number).
pub open spec fn code_rank(c: KeyCode) -> int {
    let base: int = 0x110000;
    match c {
        KeyCode::Char(ch) => ch as int,
        KeyCode::Enter => base,
        KeyCode::Esc => 2 * base,
        KeyCode::Tab => 3 * base,
        KeyCode::Backspace => 4 * base,
        KeyCode::Delete => 5 * base,
        KeyCode::Left => 6 * base,
        KeyCode::Right => 7 * base,
        KeyCode::Up => 8 * base,
        KeyCode::Down => 9 * base,
        KeyCode::Home => 10 * base,
        KeyCode::End => 11 * base,
        KeyCode::PageUp => 12 * base,
        KeyCode::PageDown => 13 * base,
        KeyCode::F(n) => 14 * base + n as int,
        KeyCode::Insert => 15 * base,
    }
}

/// Position of a chord in the derived order: code, then `ctrl`, `alt`, `shift` (false first).
pub open spec fn chord_rank(k: KeyChord) -> int {
    code_rank(k.code) * 8 + (if k.mods.ctrl { 4int } else { 0 }) + (if k.mods.alt { 2int } else { 0 })
        + (if k.mods.shift { 1int } else { 0 })
}

/// Lexicographic order of two chord sequences from position `i` on (a proper prefix first).
pub open spec fn chords_lt_from(a: Seq<KeyChord>, b: Seq<KeyChord>, i: int) -> bool
    decreases a.len() - i,
{
    if i < 0 || i >= a.len() {
        i >= 0 && i < b.len()
    } else if i >= b.len() {
        false
    } else if chord_rank(a[i]) < chord_rank(b[i]) {
        true
    } else if chord_rank(a[i]) > chord_rank(b[i]) {
        false
    } else {
        chords_lt_from(a, b, i + 1)
    }
}

/// `a` sorts before `b`, as the bindings' derived `Ord` has it.
pub open spec fn chords_lt(a: Seq<KeyChord>, b: Seq<KeyChord>) -> bool {
    chords_lt_from(a, b, 0)
}

proof fn lemma_chord_rank_injective(x: KeyChord, y: KeyChord)
    requires
        chord_rank(x) == chord_rank(y),
    ensures
        x == y,
{
    let cx = code_rank(x.code);
    let cy = code_rank(y.code);
    assert(0 <= cx < 16 * 0x110000);
    assert(0 <= cy < 16 * 0x110000);
    assert(cx == cy);
    match x.code {
        KeyCode::Char(a) => {
            match y.code {
                KeyCode::Char(b) => {
                    assert(a as int == b as int);
                    assert(a == b);
                },
                _ => {},
            }
        },
        KeyCode::F(a) => {
            match y.code {
                KeyCode::F(b) => {},
                _ => {},
            }
        },
        _ => {},
    }
    assert(x.code == y.code);
    assert(x.mods == y.mods);
}

proof fn lemma_lt_from_irrefl(a: Seq<KeyChord>, i: int)
    requires
        0 <= i,
    ensures
        !chords_lt_from(a, a, i),
    decreases a.len() - i,
{
    if i < a.len() {
        lemma_lt_from_irrefl(a, i + 1);
    }
}

proof fn lemma_lt_from_trans(a: Seq<KeyChord>, b: Seq<KeyChord>, c: Seq<KeyChord>, i: int)
    requires
        0 <= i,
        chords_lt_from(a, b, i),
        chords_lt_from(b, c, i),
    ensures
        chords_lt_from(a, c, i),
    decreases a.len() - i,
{
    if i < a.len() && i < b.len() && i < c.len() {
        if chord_rank(a[i]) == chord_rank(b[i]) && chord_rank(b[i]) == chord_rank(c[i]) {
            lemma_lt_from_trans(a, b, c, i + 1);
        }
    }
}

proof fn lemma_lt_from_total(a: Seq<KeyChord>, b: Seq<KeyChord>, i: int)
    requires
        0 <= i <= a.len(),
        i <= b.len(),
        a.subrange(0, i) == b.subrange(0, i),
        a != b,
    ensures
        chords_lt_from(a, b, i) || chords_lt_from(b, a, i),
    decreases a.len() - i,
{
    if i < a.len() && i < b.len() {
        if chord_rank(a[i]) == chord_rank(b[i]) {
            lemma_chord_rank_injective(a[i], b[i]);
            assert(a.subrange(0, i + 1) =~= a.subrange(0, i).push(a[i]));
            assert(b.subrange(0, i + 1) =~= b.subrange(0, i).push(b[i]));
            lemma_lt_from_total(a, b, i + 1);
        }
    } else if i == a.len() && i == b.len() {
        assert(a =~= a.subrange(0, i));
        assert(b =~= b.subrange(0, i));
    }
}

/// The order of bindings is a strict total order.
pub proof fn lemma_chords_order(a: Seq<KeyChord>, b: Seq<KeyChord>, c: Seq<KeyChord>)
    ensures
        !chords_lt(a, a),
        chords_lt(a, b) && chords_lt(b, c) ==> chords_lt(a, c),
        a != b ==> chords_lt(a, b) || chords_lt(b, a),
{
    lemma_lt_from_irrefl(a, 0);
    if chords_lt(a, b) && chords_lt(b, c) {
        lemma_lt_from_trans(a, b, c, 0);
    }
    if a != b {
        assert(a.subrange(0, 0) =~= b.subrange(0, 0));
        lemma_lt_from_total(a, b, 0);
    }
}

fn chord_rank_exec(k: &KeyChord) -> (r: u64)
    ensures
        r as int == chord_rank(*k),
{
    let base: u64 = 0x110000;
    let code: u64 = match k.code {
        KeyCode::Char(ch) => ch as u64,
        KeyCode::Enter => base,
        KeyCode::Esc => 2 * base,
        KeyCode::Tab => 3 * base,
        KeyCode::Backspace => 4 * base,
        KeyCode::Delete => 5 * base,
        KeyCode::Left => 6 * base,
        KeyCode::Right => 7 * base,
        KeyCode::Up => 8 * base,
        KeyCode::Down => 9 * base,
        KeyCode::Home => 10 * base,
        KeyCode::End => 11 * base,
        KeyCode::PageUp => 12 * base,
        KeyCode::PageDown => 13 * base,
        KeyCode::F(n) => 14 * base + n as u64,
        KeyCode::Insert => 15 * base,
    };
    let c: u64 = if k.mods.ctrl { 4 } else { 0 };
    let a: u64 = if k.mods.alt { 2 } else { 0 };
    let s: u64 = if k.mods.shift { 1 } else { 0 };
    code * 8 + c + a + s
}

/// Whether `a` sorts before `b` in the bindings' order.
pub fn binding_lt(a: &KeyBinding, b: &KeyBinding) -> (r: bool)
    ensures
        r == chords_lt(binding_chords(*a), binding_chords(*b)),
{
    let va = binding_to_vec(a);
    let vb = binding_to_vec(b);
    let ghost sa = va@;
    let ghost sb = vb@;
    let mut i: usize = 0;
    while i < va.len() && i < vb.len()
        invariant
            va@ == sa,
            vb@ == sb,
            sa == binding_chords(*a),
            sb == binding_chords(*b),
            i <= sa.len(),
            i <= sb.len(),
            chords_lt(sa, sb) == chords_lt_from(sa, sb, i as int),
        decreases sa.len() - i,
    {
        let ra = chord_rank_exec(&va[i]);
        let rb = chord_rank_exec(&vb[i]);
        if ra < rb {
            return true;
        }
        if ra > rb {
            return false;
        }
        i = i + 1;
    }
    i < vb.len()
}


// ------------------------------------------------------------------ the table as a map

/// A list of (binding, action) pairs with each binding taken by its chords.
pub open spec fn pairs_view(v: Seq<(KeyBinding, ActionId)>) -> Seq<(Seq<KeyChord>, ActionId)> {
    v.map_values(|p: (KeyBinding, ActionId)| (binding_chords(p.0), p.1))
}

/// The action the last pair for `k` names, if any pair names `k`.
pub open spec fn lookup(s: Seq<(Seq<KeyChord>, ActionId)>, k: Seq<KeyChord>) -> Option<ActionId>
    decreases s.len(),
{
    if s.len() == 0 {
        None
    } else if s.last().0 == k {
        Some(s.last().1)
    } else {
        lookup(s.drop_last(), k)
    }
}

/// No binding occurs in two pairs.
pub open spec fn keys_distinct(s: Seq<(Seq<KeyChord>, ActionId)>) -> bool {
    forall|i: int, j: int| 0 <= i < j < s.len() ==> s[i].0 != s[j].0
}

/// The map a pair list denotes.
pub open spec fn table_of(s: Seq<(Seq<KeyChord>, ActionId)>) -> Map<Seq<KeyChord>, ActionId> {
    Map::new(|k: Seq<KeyChord>| lookup(s, k) is Some, |k: Seq<KeyChord>| lookup(s, k)->0)
}

proof fn lemma_lookup_at(s: Seq<(Seq<KeyChord>, ActionId)>, i: int)
    requires
        keys_distinct(s),
        0 <= i < s.len(),
    ensures
        lookup(s, s[i].0) == Some(s[i].1),
    decreases s.len(),
{
    if i != s.len() - 1 {
        assert(s.last() == s[s.len() - 1]);
        lemma_lookup_at(s.drop_last(), i);
    }
}

proof fn lemma_lookup_absent(s: Seq<(Seq<KeyChord>, ActionId)>, k: Seq<KeyChord>)
    requires
        forall|i: int| 0 <= i < s.len() ==> s[i].0 != k,
    ensures
        lookup(s, k) is None,
    decreases s.len(),
{
    if s.len() > 0 {
        assert(s.last() == s[s.len() - 1]);
        lemma_lookup_absent(s.drop_last(), k);
    }
}

proof fn lemma_lookup_found(s: Seq<(Seq<KeyChord>, ActionId)>, k: Seq<KeyChord>)
    requires
        lookup(s, k) is Some,
    ensures
        exists|i: int| 0 <= i < s.len() && s[i].0 == k && lookup(s, k) == Some(s[i].1),
    decreases s.len(),
{
    if s.last().0 != k {
        lemma_lookup_found(s.drop_last(), k);
        let i = choose|i: int| 0 <= i < s.drop_last().len() && s.drop_last()[i].0 == k && lookup(s.drop_last(), k) == Some(s.drop_last()[i].1);
        assert(s[i] == s.drop_last()[i]);
    } else {
        assert(s[s.len() - 1] == s.last());
    }
}

/// Lookup in a distinct list: the one pair that names `k`, or nothing.
proof fn lemma_lookup_iff(s: Seq<(Seq<KeyChord>, ActionId)>, k: Seq<KeyChord>)
    requires
        keys_distinct(s),
    ensures
        (lookup(s, k) is Some) <==> (exists|i: int| 0 <= i < s.len() && s[i].0 == k),
        forall|i: int| 0 <= i < s.len() && #[trigger] s[i].0 == k ==> lookup(s, k) == Some(s[i].1),
{
    if lookup(s, k) is Some {
        lemma_lookup_found(s, k);
    } else if exists|i: int| 0 <= i < s.len() && s[i].0 == k {
        let i = choose|i: int| 0 <= i < s.len() && s[i].0 == k;
        lemma_lookup_at(s, i);
    }
    assert forall|i: int| 0 <= i < s.len() && #[trigger] s[i].0 == k implies lookup(s, k) == Some(s[i].1) by {
        lemma_lookup_at(s, i);
    }
}

/// The pairs of `s` whose action is not `a`, in order.
pub open spec fn without_action(s: Seq<(Seq<KeyChord>, ActionId)>, a: ActionId) -> Seq<(Seq<KeyChord>, ActionId)>
    decreases s.len(),
{
    if s.len() == 0 {
        s
    } else {
        let r = without_action(s.drop_last(), a);
        if s.last().1 == a {
            r
        } else {
            r.push(s.last())
        }
    }
}

proof fn lemma_without_action(s: Seq<(Seq<KeyChord>, ActionId)>, a: ActionId)
    requires
        keys_distinct(s),
    ensures
        keys_distinct(without_action(s, a)),
        forall|x: (Seq<KeyChord>, ActionId)| without_action(s, a).contains(x) ==> s.contains(x) && x.1 != a,
        forall|k: Seq<KeyChord>| #[trigger] lookup(without_action(s, a), k) == (if lookup(s, k) == Some(a) { None } else { lookup(s, k) }),
    decreases s.len(),
{
    if s.len() > 0 {
        let p = s.drop_last();
        assert(keys_distinct(p));
        lemma_without_action(p, a);
        let r = without_action(p, a);
        assert forall|x: (Seq<KeyChord>, ActionId)| p.contains(x) implies s.contains(x) by {
            let i = choose|i: int| 0 <= i < p.len() && p[i] == x;
            assert(s[i] == x);
        }
        let last = s.last();
        assert(s[s.len() - 1] == last);
        assert forall|x: (Seq<KeyChord>, ActionId)| p.contains(x) implies x.0 != last.0 by {
            let i = choose|i: int| 0 <= i < p.len() && p[i] == x;
            assert(s[i] == x);
        }
        assert forall|k: Seq<KeyChord>| #[trigger] lookup(without_action(s, a), k) == (if lookup(s, k) == Some(a) { None } else { lookup(s, k) }) by {
            if last.0 == k {
                if last.1 == a {
                    lemma_lookup_absent(p, k);
                    if lookup(r, k) is Some {
                        lemma_lookup_found(r, k);
                        let i = choose|i: int| 0 <= i < r.len() && r[i].0 == k && lookup(r, k) == Some(r[i].1);
                        assert(r.contains(r[i]));
                    }
                } else {
                    assert(r.push(last).last() == last);
                }
            } else if last.1 != a {
                assert(r.push(last).drop_last() =~= r);
            }
        }
        assert forall|x: (Seq<KeyChord>, ActionId)| r.contains(x) implies s.contains(x) && x.1 != a by {
            assert(p.contains(x));
        }
        if last.1 != a {
            let w = r.push(last);
            assert forall|i: int, j: int| 0 <= i < j < w.len() implies w[i].0 != w[j].0 by {
                if j == w.len() - 1 {
                    assert(w[i] == r[i]);
                    assert(w[j] == last);
                    assert(r.contains(r[i]));
                    assert(p.contains(r[i]));
                } else {
                    assert(w[i] == r[i] && w[j] == r[j]);
                }
            }
            assert forall|x: (Seq<KeyChord>, ActionId)| w.contains(x) implies s.contains(x) && x.1 != a by {
                let i = choose|i: int| 0 <= i < w.len() && w[i] == x;
                if i < r.len() {
                    assert(w[i] == r[i]);
                    assert(r.contains(r[i]));
                } else {
                    assert(w[i] == last);
                    assert(s.contains(s[s.len() - 1]));
                }
            }
        }
    }
}

/// `m` with every binding that names `a` taken out.
pub open spec fn without(m: Map<Seq<KeyChord>, ActionId>, a: ActionId) -> Map<Seq<KeyChord>, ActionId> {
    Map::new(|k: Seq<KeyChord>| m.contains_key(k) && m[k] != a, |k: Seq<KeyChord>| m[k])
}

/// The bindings currently in force, and every (binding, action) insertion ever made, in order.
pub struct KeyMapView {
    pub bindings: Map<Seq<KeyChord>, ActionId>,
    pub insertions: Seq<(Seq<KeyChord>, ActionId)>,
}

/// A resolved binding table: one flat binding-to-action map (no per-context scoping), plus the
/// log of every insertion, defaults first, then overrides, which hints and conflict reports read.
#[derive(Debug)]
pub struct KeyMap {
    bindings: Vec<(KeyBinding, ActionId)>,
    insertions: Vec<(KeyBinding, ActionId)>,
}

impl View for KeyMap {
    type V = KeyMapView;

    closed spec fn view(&self) -> KeyMapView {
        KeyMapView { bindings: table_of(pairs_view(self.bindings@)), insertions: pairs_view(self.insertions@) }
    }
}

impl KeyMap {
    #[verifier::type_invariant]
    closed spec fn wf(&self) -> bool {
        keys_distinct(pairs_view(self.bindings@))
    }

    /// An empty table.
    pub fn new() -> (r: KeyMap)
        ensures
            r@.bindings == Map::<Seq<KeyChord>, ActionId>::empty(),
            r@.insertions == Seq::<(Seq<KeyChord>, ActionId)>::empty(),
    {
        let r = KeyMap { bindings: Vec::new(), insertions: Vec::new() };
        assert(r@.bindings =~= Map::<Seq<KeyChord>, ActionId>::empty());
        assert(r@.insertions =~= Seq::<(Seq<KeyChord>, ActionId)>::empty());
        r
    }

    /// Where `b` sits in the table, if it is bound.
    fn find(&self, b: &KeyBinding) -> (r: Option<usize>)
        ensures
            match r {
                Some(i) => i < self.bindings@.len() && binding_chords(self.bindings@[i as int].0) == binding_chords(*b),
                None => forall|i: int| 0 <= i < self.bindings@.len() ==> binding_chords(self.bindings@[i].0) != binding_chords(*b),
            },
    {
        let mut i: usize = 0;
        while i < self.bindings.len()
            invariant
                i <= self.bindings@.len(),
                forall|j: int| 0 <= j < i ==> binding_chords(self.bindings@[j].0) != binding_chords(*b),
            decreases self.bindings@.len() - i,
        {
            if binding_eq(&self.bindings[i].0, b) {
                return Some(i);
            }
            i = i + 1;
        }
        None
    }

    /// Binds `binding` to `action`, taking the slot from whatever it named before, and logs it.
    fn insert(&mut self, binding: KeyBinding, action: ActionId)
        ensures
            final(self)@.bindings == old(self)@.bindings.insert(binding_chords(binding), action),
            final(self)@.insertions == old(self)@.insertions.push((binding_chords(binding), action)),
    {
        proof {
            use_type_invariant(&*self);
        }
        let ghost k = binding_chords(binding);
        let ghost ob = self.bindings@;
        let ghost s = pairs_view(ob);
        let ghost ins = pairs_view(self.insertions@);
        let copy = binding.clone();
        let found = self.find(&binding);
        let mut v: Vec<(KeyBinding, ActionId)> = Vec::new();
        std::mem::swap(&mut v, &mut self.bindings);
        let mut log: Vec<(KeyBinding, ActionId)> = Vec::new();
        std::mem::swap(&mut log, &mut self.insertions);
        log.push((copy, action));
        assert(pairs_view(log@) =~= ins.push((k, action)));
        match found {
            Some(i) => {
                v.set(i, (binding, action));
                let ghost t = pairs_view(v@);
                assert(t =~= s.update(i as int, (k, action)));
                assert forall|j: int| 0 <= j < t.len() implies t[j].0 == s[j].0 by {}
                proof {
                    assert forall|kk: Seq<KeyChord>| #[trigger] lookup(t, kk) == (if kk == k { Some(action) } else { lookup(s, kk) }) by {
                        lemma_lookup_iff(s, kk);
                        lemma_lookup_iff(t, kk);
                        if kk == k {
                            assert(t[i as int].0 == kk);
                        } else if lookup(s, kk) is Some {
                            let j = choose|j: int| 0 <= j < s.len() && s[j].0 == kk;
                            assert(t[j].0 == kk);
                        } else if lookup(t, kk) is Some {
                            let j = choose|j: int| 0 <= j < t.len() && t[j].0 == kk;
                            assert(s[j].0 == kk);
                        }
                    }
                    assert(table_of(t) =~= table_of(s).insert(k, action));
                }
            },
            None => {
                v.push((binding, action));
                let ghost t = pairs_view(v@);
                assert(t =~= s.push((k, action)));
                assert(t.drop_last() =~= s);
                proof {
                    assert forall|j: int| 0 <= j < s.len() implies s[j].0 != k by {
                        assert(s[j].0 == binding_chords(ob[j].0));
                    }
                    assert forall|kk: Seq<KeyChord>| #[trigger] lookup(t, kk) == (if kk == k { Some(action) } else { lookup(s, kk) }) by {}
                    assert(table_of(t) =~= table_of(s).insert(k, action));
                }
            },
        }
        self.bindings = v;
        self.insertions = log;
    }

    /// Removes every binding that names `action`.
    pub fn remove_bindings_for(&mut self, action: ActionId)
        ensures
            final(self)@.bindings == without(old(self)@.bindings, action),
            final(self)@.insertions == old(self)@.insertions,
    {
        proof {
            use_type_invariant(&*self);
        }
        let ghost s = pairs_view(self.bindings@);
        let mut kept: Vec<(KeyBinding, ActionId)> = Vec::new();
        let mut i: usize = 0;
        while i < self.bindings.len()
            invariant
                i <= self.bindings@.len(),
                s == pairs_view(self.bindings@),
                pairs_view(kept@) == without_action(s.take(i as int), action),
            decreases self.bindings@.len() - i,
        {
            assert(s.take(i + 1).drop_last() =~= s.take(i as int));
            assert(s.take(i + 1).last() == s[i as int]);
            if self.bindings[i].1 != action {
                let b = self.bindings[i].0.clone();
                kept.push((b, self.bindings[i].1));
                assert(pairs_view(kept@) =~= without_action(s.take(i as int), action).push(s[i as int]));
            }
            i = i + 1;
        }
        assert(s.take(s.len() as int) =~= s);
        proof {
            lemma_without_action(s, action);
            assert(table_of(without_action(s, action)) =~= without(table_of(s), action));
        }
        self.bindings = kept;
    }

    /// The action `binding` fires in the normal context, if any.
    pub fn resolve_normal(&self, binding: &KeyBinding) -> (r: Option<ActionId>)
        ensures
            r == self@.bindings.get(binding_chords(*binding)),
    {
        proof {
            use_type_invariant(self);
            lemma_lookup_iff(pairs_view(self.bindings@), binding_chords(*binding));
        }
        match self.find(binding) {
            Some(i) => {
                assert(pairs_view(self.bindings@)[i as int].0 == binding_chords(*binding));
                Some(self.bindings[i].1)
            },
            None => {
                assert forall|i: int| 0 <= i < pairs_view(self.bindings@).len() implies pairs_view(self.bindings@)[i].0 != binding_chords(*binding) by {
                    assert(pairs_view(self.bindings@)[i].0 == binding_chords(self.bindings@[i].0));
                }
                None
            },
        }
    }
}


/// The hint for `a`: the earliest logged insertion from position `i` on that named `a` and still
/// holds its slot, rendered; `"unbound"` if there is none.
pub open spec fn hint_from(m: KeyMapView, a: ActionId, i: int) -> Seq<char>
    decreases m.insertions.len() - i,
{
    if i < 0 || i >= m.insertions.len() {
        "unbound"@
    } else if m.insertions[i].1 == a && m.bindings.get(m.insertions[i].0) == Some(a) {
        join_chords(m.insertions[i].0)
    } else {
        hint_from(m, a, i + 1)
    }
}

/// The display hint of `a` in `m`.
pub open spec fn hint(m: KeyMapView, a: ActionId) -> Seq<char> {
    hint_from(m, a, 0)
}

impl KeyMap {
    /// Whether some two-chord binding starts with `prefix`.
    pub fn has_binding_with_prefix(&self, prefix: &KeyChord) -> (r: bool)
        ensures
            r == exists|k: Seq<KeyChord>| #[trigger] self@.bindings.contains_key(k) && k.len() == 2 && k[0] == *prefix,
    {
        proof {
            use_type_invariant(self);
        }
        let ghost s = pairs_view(self.bindings@);
        let mut i: usize = 0;
        while i < self.bindings.len()
            invariant
                i <= self.bindings@.len(),
                s == pairs_view(self.bindings@),
                keys_distinct(s),
                forall|j: int| 0 <= j < i ==> !(s[j].0.len() == 2 && s[j].0[0] == *prefix),
            decreases self.bindings@.len() - i,
        {
            let v = binding_to_vec(&self.bindings[i].0);
            if v.len() == 2 && v[0] == *prefix {
                proof {
                    lemma_lookup_iff(s, s[i as int].0);
                    assert(self@.bindings.contains_key(s[i as int].0));
                }
                return true;
            }
            i = i + 1;
        }
        proof {
            assert forall|k: Seq<KeyChord>| #[trigger] self@.bindings.contains_key(k) implies !(k.len() == 2 && k[0] == *prefix) by {
                lemma_lookup_iff(s, k);
            }
        }
        false
    }

    /// The binding of `action` that sorts first, if it has any.
    pub fn binding_for(&self, action: ActionId) -> (r: Option<&KeyBinding>)
        ensures
            match r {
                Some(b) => {
                    &&& self@.bindings.get(binding_chords(*b)) == Some(action)
                    &&& forall|k: Seq<KeyChord>| #[trigger] self@.bindings.get(k) == Some(action) && k != binding_chords(*b)
                        ==> chords_lt(binding_chords(*b), k)
                },
                None => forall|k: Seq<KeyChord>| #[trigger] self@.bindings.get(k) != Some(action),
            },
    {
        proof {
            use_type_invariant(self);
        }
        let ghost s = pairs_view(self.bindings@);
        let mut best: Option<usize> = None;
        let mut i: usize = 0;
        while i < self.bindings.len()
            invariant
                i <= self.bindings@.len(),
                s == pairs_view(self.bindings@),
                keys_distinct(s),
                match best {
                    Some(b) => b < i && s[b as int].1 == action && forall|j: int| 0 <= j < i && s[j].1 == action && j != b ==> chords_lt(s[b as int].0, #[trigger] s[j].0),
                    None => forall|j: int| 0 <= j < i ==> #[trigger] s[j].1 != action,
                },
            decreases self.bindings@.len() - i,
        {
            if self.bindings[i].1 == action {
                match best {
                    None => {
                        best = Some(i);
                    },
                    Some(b) => {
                        if binding_lt(&self.bindings[i].0, &self.bindings[b].0) {
                            proof {
                                assert forall|j: int| 0 <= j < i + 1 && s[j].1 == action && j != i implies chords_lt(s[i as int].0, #[trigger] s[j].0) by {
                                    if j != b {
                                        lemma_chords_order(s[i as int].0, s[b as int].0, s[j].0);
                                    }
                                }
                            }
                            best = Some(i);
                        } else {
                            proof {
                                assert(s[i as int].0 != s[b as int].0);
                                lemma_chords_order(s[b as int].0, s[i as int].0, s[i as int].0);
                            }
                        }
                    },
                }
            }
            i = i + 1;
        }
        match best {
            Some(b) => {
                proof {
                    lemma_lookup_at(s, b as int);
                    assert forall|k: Seq<KeyChord>| #[trigger] self@.bindings.get(k) == Some(action) && k != s[b as int].0 implies chords_lt(s[b as int].0, k) by {
                        lemma_lookup_iff(s, k);
                        let j = choose|j: int| 0 <= j < s.len() && s[j].0 == k;
                        assert(s[j].1 == action);
                    }
                }
                Some(&self.bindings[b].0)
            },
            None => {
                proof {
                    assert forall|k: Seq<KeyChord>| #[trigger] self@.bindings.get(k) != Some(action) by {
                        lemma_lookup_iff(s, k);
                        if lookup(s, k) is Some {
                            let j = choose|j: int| 0 <= j < s.len() && s[j].0 == k;
                            assert(s[j].1 != action);
                        }
                    }
                }
                None
            },
        }
    }

    /// The stable display hint for `action` (e.g. `"ctrl+p"`), or `"unbound"` when it has no
    /// binding: of its bindings, the one inserted first that is still in force.
    pub fn hint_for(&self, action: ActionId) -> (r: String)
        ensures
            r@ == hint(self@, action),
    {
        let mut i: usize = 0;
        while i < self.insertions.len()
            invariant
                i <= self.insertions@.len(),
                hint(self@, action) == hint_from(self@, action, i as int),
            decreases self.insertions@.len() - i,
        {
            let ghost p = self@.insertions[i as int];
            assert(p == (binding_chords(self.insertions@[i as int].0), self.insertions@[i as int].1));
            if self.insertions[i].1 == action {
                let cur = self.resolve_normal(&self.insertions[i].0);
                if cur == Some(action) {
                    return render_binding(&self.insertions[i].0);
                }
            }
            i = i + 1;
        }
        "unbound".to_string()
    }

    /// Gives `action` the single binding `binding`: every binding it held before is dropped, and
    /// `binding` is taken from whatever action held it.
    pub fn rebind(&mut self, action: ActionId, binding: KeyBinding)
        ensures
            final(self)@.bindings == without(old(self)@.bindings, action).insert(binding_chords(binding), action),
            final(self)@.insertions == old(self)@.insertions.push((binding_chords(binding), action)),
    {
        self.remove_bindings_for(action);
        self.insert(binding, action);
    }

    /// Drops every binding `action` holds; its hint then reads `"unbound"`.
    pub fn unbind(&mut self, action: ActionId)
        ensures
            final(self)@.bindings == without(old(self)@.bindings, action),
            final(self)@.insertions == old(self)@.insertions,
    {
        self.remove_bindings_for(action);
    }
}

/// After `rebind(a, k)`: `k` fires `a`, `a` holds no other binding, and every binding that
/// neither sat on `k` nor named `a` fires what it fired before.
pub proof fn lemma_rebind_law(m: Map<Seq<KeyChord>, ActionId>, a: ActionId, k: Seq<KeyChord>, other: Seq<KeyChord>)
    ensures
        without(m, a).insert(k, a).get(k) == Some(a),
        without(m, a).insert(k, a).get(other) == Some(a) ==> other == k,
        other != k && m.get(other) != Some(a) ==> without(m, a).insert(k, a).get(other) == m.get(other),
{
}

proof fn lemma_hint_unbound_from(m: KeyMapView, a: ActionId, i: int)
    requires
        forall|k: Seq<KeyChord>| m.bindings.get(k) != Some(a),
    ensures
        hint_from(m, a, i) == "unbound"@,
    decreases m.insertions.len() - i,
{
    if 0 <= i < m.insertions.len() {
        lemma_hint_unbound_from(m, a, i + 1);
    }
}

/// After `unbind(a)` no binding fires `a`, and the hint for `a` reads `"unbound"`.
pub proof fn lemma_unbind_law(m: KeyMapView, a: ActionId, k: Seq<KeyChord>)
    ensures
        without(m.bindings, a).get(k) != Some(a),
        hint(KeyMapView { bindings: without(m.bindings, a), insertions: m.insertions }, a) == "unbound"@,
{
    let u = KeyMapView { bindings: without(m.bindings, a), insertions: m.insertions };
    assert forall|k2: Seq<KeyChord>| u.bindings.get(k2) != Some(a) by {}
    lemma_hint_unbound_from(u, a, 0);
}

// ------------------------------------------------------------------ conflicts

/// The actions the log attempted for `k`, in order.
pub open spec fn actions_for(ins: Seq<(Seq<KeyChord>, ActionId)>, k: Seq<KeyChord>) -> Seq<ActionId>
    decreases ins.len(),
{
    if ins.len() == 0 {
        Seq::empty()
    } else {
        let r = actions_for(ins.drop_last(), k);
        if ins.last().0 == k {
            r.push(ins.last().1)
        } else {
            r
        }
    }
}

/// `s` with every repeat after the first occurrence dropped.
pub open spec fn dedup(s: Seq<ActionId>) -> Seq<ActionId>
    decreases s.len(),
{
    if s.len() == 0 {
        s
    } else {
        let r = dedup(s.drop_last());
        if r.contains(s.last()) {
            r
        } else {
            r.push(s.last())
        }
    }
}

/// A binding attempted for more than one distinct action, with those actions in first-attempt
/// order. `context` is always `Normal`: only the one flat table is ever populated.
#[derive(Debug, Clone)]
pub struct KeyConflict {
    pub context: InputContext,
    pub binding: KeyBinding,
    pub actions: Vec<ActionId>,
}

/// A conflict as plain values.
pub struct KeyConflictView {
    pub context: InputContext,
    pub binding: Seq<KeyChord>,
    pub actions: Seq<ActionId>,
}

impl View for KeyConflict {
    type V = KeyConflictView;

    open spec fn view(&self) -> KeyConflictView {
        KeyConflictView { context: self.context, binding: binding_chords(self.binding), actions: self.actions@ }
    }
}

/// The conflicts among the first `n` logged insertions' bindings, each binding reported once, at
/// its first appearance.
pub open spec fn conflicts_upto(ins: Seq<(Seq<KeyChord>, ActionId)>, n: int) -> Seq<KeyConflictView>
    decreases n,
{
    if n <= 0 || n > ins.len() {
        Seq::empty()
    } else {
        let r = conflicts_upto(ins, n - 1);
        let k = ins[n - 1].0;
        let d = dedup(actions_for(ins, k));
        if exists|m: int| 0 <= m < n - 1 && ins[m].0 == k {
            r
        } else if d.len() > 1 {
            r.push(KeyConflictView { context: InputContext::Normal, binding: k, actions: d })
        } else {
            r
        }
    }
}

/// Every binding ever logged that was attempted for more than one distinct action.
pub open spec fn conflicts(ins: Seq<(Seq<KeyChord>, ActionId)>) -> Seq<KeyConflictView> {
    conflicts_upto(ins, ins.len() as int)
}

fn contains_action(v: &Vec<ActionId>, a: ActionId) -> (r: bool)
    ensures
        r == v@.contains(a),
{
    let mut i: usize = 0;
    while i < v.len()
        invariant
            i <= v@.len(),
            forall|j: int| 0 <= j < i ==> v@[j] != a,
        decreases v@.len() - i,
    {
        if v[i] == a {
            return true;
        }
        i = i + 1;
    }
    false
}

impl KeyMap {
    /// Every binding ever inserted (default or override) that was attempted for more than one
    /// distinct action, in order of its first insertion.
    pub fn validate(&self) -> (r: Vec<KeyConflict>)
        ensures
            r@.map_values(|c: KeyConflict| c@) == conflicts(self@.insertions),
    {
        let ghost ins = self@.insertions;
        let n = self.insertions.len();
        let mut out: Vec<KeyConflict> = Vec::new();
        let mut i: usize = 0;
        while i < n
            invariant
                n == self.insertions@.len(),
                ins == self@.insertions,
                ins.len() == n,
                i <= n,
                out@.map_values(|c: KeyConflict| c@) == conflicts_upto(ins, i as int),
            decreases n - i,
        {
            let b = &self.insertions[i].0;
            assert(ins[i as int].0 == binding_chords(*b));
            let mut seen = false;
            let mut m: usize = 0;
            while m < i
                invariant
                    i < n,
                    n == self.insertions@.len(),
                    ins == self@.insertions,
                    ins.len() == n,
                    m <= i,
                    b == &self.insertions@[i as int].0,
                    seen == exists|q: int| 0 <= q < m && ins[q].0 == ins[i as int].0,
                decreases i - m,
            {
                assert(ins[m as int].0 == binding_chords(self.insertions@[m as int].0));
                if binding_eq(&self.insertions[m].0, b) {
                    seen = true;
                }
                m = m + 1;
            }
            if !seen {
                let mut acts: Vec<ActionId> = Vec::new();
                let mut j: usize = 0;
                while j < n
                    invariant
                        i < n,
                        n == self.insertions@.len(),
                        ins == self@.insertions,
                        ins.len() == n,
                        j <= n,
                        b == &self.insertions@[i as int].0,
                        acts@ == dedup(actions_for(ins.take(j as int), ins[i as int].0)),
                    decreases n - j,
                {
                    let ghost t = ins.take(j + 1);
                    assert(t.drop_last() =~= ins.take(j as int));
                    assert(t.last() == ins[j as int]);
                    assert(ins[j as int].0 == binding_chords(self.insertions@[j as int].0));
                    let ghost k = ins[i as int].0;
                    let ghost x = actions_for(ins.take(j as int), k);
                    if binding_eq(&self.insertions[j].0, b) {
                        let a = self.insertions[j].1;
                        assert(actions_for(t, k) == x.push(a));
                        assert(x.push(a).drop_last() =~= x);
                        assert(x.push(a).last() == a);
                        if !contains_action(&acts, a) {
                            acts.push(a);
                        }
                    } else {
                        assert(actions_for(t, k) == x);
                    }
                    j = j + 1;
                }
                assert(ins.take(n as int) =~= ins);
                if acts.len() > 1 {
                    let c = KeyConflict { context: InputContext::Normal, binding: b.clone(), actions: acts };
                    let ghost before = out@;
                    out.push(c);
                    assert(out@.map_values(|c: KeyConflict| c@) =~= before.map_values(|c: KeyConflict| c@).push(c@));
                }
            }
            i = i + 1;
        }
        out
    }
}

// ------------------------------------------------------------------ the default table

/// How many rows the default table has.
pub open spec fn default_count() -> int {
    90
}

/// Row `i` of the normative default table: a binding string and the action it fires. Aliases
/// are rows of their own; an action's first row is the binding its hint advertises.
#[verifier::opaque]
pub open spec fn default_entry(i: int) -> (Seq<char>, ActionId) {
    if i == 0 {
        ("j"@, ActionId::MoveDown)
    } else if i == 1 {
        ("down"@, ActionId::MoveDown)
    } else if i == 2 {
        ("k"@, ActionId::MoveUp)
    } else if i == 3 {
        ("up"@, ActionId::MoveUp)
    } else if i == 4 {
        ("h"@, ActionId::NavLeft)
    } else if i == 5 {
        ("left"@, ActionId::NavLeft)
    } else if i == 6 {
        ("l"@, ActionId::NavRight)
    } else if i == 7 {
        ("right"@, ActionId::NavRight)
    } else if i == 8 {
        ("ctrl+u"@, ActionId::HalfPageUp)
    } else if i == 9 {
        ("pageup"@, ActionId::HalfPageUp)
    } else if i == 10 {
        ("ctrl+d"@, ActionId::HalfPageDown)
    } else if i == 11 {
        ("pagedown"@, ActionId::HalfPageDown)
    } else if i == 12 {
        ("g g"@, ActionId::GoToTop)
    } else if i == 13 {
        ("home"@, ActionId::GoToTop)
    } else if i == 14 {
        ("G"@, ActionId::GoToBottom)
    } else if i == 15 {
        ("end"@, ActionId::GoToBottom)
    } else if i == 16 {
        ("backspace"@, ActionId::PopColumn)
    } else if i == 17 {
        ("tab"@, ActionId::NextTab)
    } else if i == 18 {
        ("shift+tab"@, ActionId::PrevTab)
    } else if i == 19 {
        ("alt+1"@, ActionId::JumpTab1)
    } else if i == 20 {
        ("alt+2"@, ActionId::JumpTab2)
    } else if i == 21 {
        ("f2"@, ActionId::JumpTab2)
    } else if i == 22 {
        ("alt+3"@, ActionId::JumpTab3)
    } else if i == 23 {
        ("f3"@, ActionId::JumpTab3)
    } else if i == 24 {
        ("alt+4"@, ActionId::JumpTab4)
    } else if i == 25 {
        ("f4"@, ActionId::JumpTab4)
    } else if i == 26 {
        ("alt+5"@, ActionId::JumpTab5)
    } else if i == 27 {
        ("f5"@, ActionId::JumpTab5)
    } else if i == 28 {
        ("alt+6"@, ActionId::JumpTab6)
    } else if i == 29 {
        ("f6"@, ActionId::JumpTab6)
    } else if i == 30 {
        ("alt+7"@, ActionId::JumpTab7)
    } else if i == 31 {
        ("f7"@, ActionId::JumpTab7)
    } else if i == 32 {
        ("alt+8"@, ActionId::JumpTab8)
    } else if i == 33 {
        ("f8"@, ActionId::JumpTab8)
    } else if i == 34 {
        ("alt+9"@, ActionId::JumpTab9)
    } else if i == 35 {
        ("f9"@, ActionId::JumpTab9)
    } else if i == 36 {
        ("alt+0"@, ActionId::JumpTab10)
    } else if i == 37 {
        ("f10"@, ActionId::JumpTab10)
    } else if i == 38 {
        ("/"@, ActionId::OpenFilter)
    } else if i == 39 {
        ("g a"@, ActionId::GoToArtist)
    } else if i == 40 {
        ("g l"@, ActionId::GoToAlbum)
    } else if i == 41 {
        ("esc"@, ActionId::Cancel)
    } else if i == 42 {
        ("space"@, ActionId::PlayPause)
    } else if i == 43 {
        ("n"@, ActionId::NextTrack)
    } else if i == 44 {
        ("p"@, ActionId::PrevTrack)
    } else if i == 45 {
        ("S"@, ActionId::Stop)
    } else if i == 46 {
        ("["@, ActionId::SeekBack5)
    } else if i == 47 {
        ("]"@, ActionId::SeekForward5)
    } else if i == 48 {
        ("{"@, ActionId::SeekBack30)
    } else if i == 49 {
        ("}"@, ActionId::SeekForward30)
    } else if i == 50 {
        ("+"@, ActionId::VolumeUp)
    } else if i == 51 {
        ("="@, ActionId::VolumeUp)
    } else if i == 52 {
        ("-"@, ActionId::VolumeDown)
    } else if i == 53 {
        ("_"@, ActionId::VolumeDown)
    } else if i == 54 {
        ("M"@, ActionId::ToggleMute)
    } else if i == 55 {
        ("enter"@, ActionId::QueueArtistOnly)
    } else if i == 56 {
        ("a"@, ActionId::QueueArtistOnly)
    } else if i == 57 {
        ("A"@, ActionId::QueueFullContext)
    } else if i == 58 {
        ("shift+enter"@, ActionId::QueueFullContext)
    } else if i == 59 {
        ("i"@, ActionId::InsertNext)
    } else if i == 60 {
        ("m"@, ActionId::InstantMix)
    } else if i == 61 {
        ("s"@, ActionId::ToggleShuffle)
    } else if i == 62 {
        ("R"@, ActionId::CycleRepeat)
    } else if i == 63 {
        ("o"@, ActionId::OpenSortMenu)
    } else if i == 64 {
        ("x"@, ActionId::RemoveEntry)
    } else if i == 65 {
        ("v"@, ActionId::ToggleVisualSelect)
    } else if i == 66 {
        ("."@, ActionId::ToggleItem)
    } else if i == 67 {
        ("V"@, ActionId::SelectAll)
    } else if i == 68 {
        ("e"@, ActionId::ToggleEqualizer)
    } else if i == 69 {
        ("r"@, ActionId::CycleReplayGain)
    } else if i == 70 {
        ("q"@, ActionId::CycleQualityProfile)
    } else if i == 71 {
        ("O"@, ActionId::OpenDevicePicker)
    } else if i == 72 {
        ("T"@, ActionId::OpenSleepTimer)
    } else if i == 73 {
        ("f"@, ActionId::ToggleFavorite)
    } else if i == 74 {
        ("d"@, ActionId::ToggleDownload)
    } else if i == 75 {
        ("P"@, ActionId::SaveQueueAsPlaylist)
    } else if i == 76 {
        ("ctrl+p"@, ActionId::AddToPlaylist)
    } else if i == 77 {
        ("X"@, ActionId::DeletePlaylist)
    } else if i == 78 {
        ("ctrl+up"@, ActionId::MoveTrackUp)
    } else if i == 79 {
        ("ctrl+down"@, ActionId::MoveTrackDown)
    } else if i == 80 {
        ("z"@, ActionId::ToggleZenMode)
    } else if i == 81 {
        ("H"@, ActionId::ToggleHistory)
    } else if i == 82 {
        ("L"@, ActionId::ToggleLyrics)
    } else if i == 83 {
        ("K"@, ActionId::LyricsScrollUp)
    } else if i == 84 {
        ("J"@, ActionId::LyricsScrollDown)
    } else if i == 85 {
        ("?"@, ActionId::ToggleHelp)
    } else if i == 86 {
        ("f1"@, ActionId::ToggleHelp)
    } else if i == 87 {
        ("ctrl+q"@, ActionId::Quit)
    } else if i == 88 {
        ("ctrl+c"@, ActionId::Quit)
    } else {
        ("ctrl+r"@, ActionId::Refresh)
    }
}

fn default_entry_exec(i: usize) -> (r: (&'static str, ActionId))
    requires
        i < 90,
    ensures
        (r.0@, r.1) == default_entry(i as int),
{
    proof {
        reveal(default_entry);
    }
    match i {
        0 => ("j", ActionId::MoveDown),
        1 => ("down", ActionId::MoveDown),
        2 => ("k", ActionId::MoveUp),
        3 => ("up", ActionId::MoveUp),
        4 => ("h", ActionId::NavLeft),
        5 => ("left", ActionId::NavLeft),
        6 => ("l", ActionId::NavRight),
        7 => ("right", ActionId::NavRight),
        8 => ("ctrl+u", ActionId::HalfPageUp),
        9 => ("pageup", ActionId::HalfPageUp),
        10 => ("ctrl+d", ActionId::HalfPageDown),
        11 => ("pagedown", ActionId::HalfPageDown),
        12 => ("g g", ActionId::GoToTop),
        13 => ("home", ActionId::GoToTop),
        14 => ("G", ActionId::GoToBottom),
        15 => ("end", ActionId::GoToBottom),
        16 => ("backspace", ActionId::PopColumn),
        17 => ("tab", ActionId::NextTab),
        18 => ("shift+tab", ActionId::PrevTab),
        19 => ("alt+1", ActionId::JumpTab1),
        20 => ("alt+2", ActionId::JumpTab2),
        21 => ("f2", ActionId::JumpTab2),
        22 => ("alt+3", ActionId::JumpTab3),
        23 => ("f3", ActionId::JumpTab3),
        24 => ("alt+4", ActionId::JumpTab4),
        25 => ("f4", ActionId::JumpTab4),
        26 => ("alt+5", ActionId::JumpTab5),
        27 => ("f5", ActionId::JumpTab5),
        28 => ("alt+6", ActionId::JumpTab6),
        29 => ("f6", ActionId::JumpTab6),
        30 => ("alt+7", ActionId::JumpTab7),
        31 => ("f7", ActionId::JumpTab7),
        32 => ("alt+8", ActionId::JumpTab8),
        33 => ("f8", ActionId::JumpTab8),
        34 => ("alt+9", ActionId::JumpTab9),
        35 => ("f9", ActionId::JumpTab9),
        36 => ("alt+0", ActionId::JumpTab10),
        37 => ("f10", ActionId::JumpTab10),
        38 => ("/", ActionId::OpenFilter),
        39 => ("g a", ActionId::GoToArtist),
        40 => ("g l", ActionId::GoToAlbum),
        41 => ("esc", ActionId::Cancel),
        42 => ("space", ActionId::PlayPause),
        43 => ("n", ActionId::NextTrack),
        44 => ("p", ActionId::PrevTrack),
        45 => ("S", ActionId::Stop),
        46 => ("[", ActionId::SeekBack5),
        47 => ("]", ActionId::SeekForward5),
        48 => ("{", ActionId::SeekBack30),
        49 => ("}", ActionId::SeekForward30),
        50 => ("+", ActionId::VolumeUp),
        51 => ("=", ActionId::VolumeUp),
        52 => ("-", ActionId::VolumeDown),
        53 => ("_", ActionId::VolumeDown),
        54 => ("M", ActionId::ToggleMute),
        55 => ("enter", ActionId::QueueArtistOnly),
        56 => ("a", ActionId::QueueArtistOnly),
        57 => ("A", ActionId::QueueFullContext),
        58 => ("shift+enter", ActionId::QueueFullContext),
        59 => ("i", ActionId::InsertNext),
        60 => ("m", ActionId::InstantMix),
        61 => ("s", ActionId::ToggleShuffle),
        62 => ("R", ActionId::CycleRepeat),
        63 => ("o", ActionId::OpenSortMenu),
        64 => ("x", ActionId::RemoveEntry),
        65 => ("v", ActionId::ToggleVisualSelect),
        66 => (".", ActionId::ToggleItem),
        67 => ("V", ActionId::SelectAll),
        68 => ("e", ActionId::ToggleEqualizer),
        69 => ("r", ActionId::CycleReplayGain),
        70 => ("q", ActionId::CycleQualityProfile),
        71 => ("O", ActionId::OpenDevicePicker),
        72 => ("T", ActionId::OpenSleepTimer),
        73 => ("f", ActionId::ToggleFavorite),
        74 => ("d", ActionId::ToggleDownload),
        75 => ("P", ActionId::SaveQueueAsPlaylist),
        76 => ("ctrl+p", ActionId::AddToPlaylist),
        77 => ("X", ActionId::DeletePlaylist),
        78 => ("ctrl+up", ActionId::MoveTrackUp),
        79 => ("ctrl+down", ActionId::MoveTrackDown),
        80 => ("z", ActionId::ToggleZenMode),
        81 => ("H", ActionId::ToggleHistory),
        82 => ("L", ActionId::ToggleLyrics),
        83 => ("K", ActionId::LyricsScrollUp),
        84 => ("J", ActionId::LyricsScrollDown),
        85 => ("?", ActionId::ToggleHelp),
        86 => ("f1", ActionId::ToggleHelp),
        87 => ("ctrl+q", ActionId::Quit),
        88 => ("ctrl+c", ActionId::Quit),
        _ => ("ctrl+r", ActionId::Refresh),
    }
}

/// `m` after one row of a table: the binding, when it parses, goes to the row's action.
pub open spec fn apply_default(m: KeyMapView, e: (Seq<char>, ActionId)) -> KeyMapView {
    match spec_parse_binding(e.0) {
        Ok(k) => KeyMapView { bindings: m.bindings.insert(k, e.1), insertions: m.insertions.push((k, e.1)) },
        Err(_) => m,
    }
}

/// The table after the first `n` default rows.
pub open spec fn defaults_upto(n: int) -> KeyMapView
    decreases n,
{
    if n <= 0 {
        KeyMapView { bindings: Map::empty(), insertions: Seq::empty() }
    } else {
        apply_default(defaults_upto(n - 1), default_entry(n - 1))
    }
}

/// The default table.
pub open spec fn default_map() -> KeyMapView {
    defaults_upto(default_count())
}

// ------------------------------------------------------------------ user overrides

/// The warning for an override whose binding string does not parse.
pub open spec fn invalid_binding_view(a: ActionId, value: Seq<char>) -> ConfigWarningView {
    ConfigWarningView {
        field: "keybindings."@ + action_name(a),
        message: "keybinding for "@ + action_name(a) + " is invalid (\""@ + value + "\"); using the default"@,
        severity: Severity::Warning,
    }
}

/// The warning for an override that takes a binding from another action.
pub open spec fn conflict_view(k: Seq<KeyChord>, loser: ActionId, winner: ActionId) -> ConfigWarningView {
    ConfigWarningView {
        field: "keybindings."@ + action_name(winner),
        message: "key "@ + join_chords(k) + " is bound to both "@ + action_name(loser) + " and "@
            + action_name(winner) + "; using "@ + action_name(winner),
        severity: Severity::Warning,
    }
}

/// The value that asks for an action to be left with no binding at all: `none`, in any case,
/// with surrounding whitespace.
pub open spec fn is_none_sentinel(value: Seq<char>) -> bool {
    ascii_lower_seq(trim(value)) == "none"@
}

/// One override (action name, binding string) applied to a table and the warnings so far. An
/// unknown action name is ignored; the sentinel unbinds; a binding that parses replaces every
/// binding the action held and takes its slot from any other action (with a warning); one that
/// does not parse leaves the table as it was, with a warning.
pub open spec fn apply_override(st: (KeyMapView, Seq<ConfigWarningView>), e: (Seq<char>, Seq<char>)) -> (KeyMapView, Seq<ConfigWarningView>) {
    let m = st.0;
    let w = st.1;
    match action_from_name(e.0) {
        None => st,
        Some(a) => if is_none_sentinel(e.1) {
            (KeyMapView { bindings: without(m.bindings, a), insertions: m.insertions }, w)
        } else {
            match spec_parse_binding(e.1) {
                Ok(k) => {
                    let w2 = if m.bindings.contains_key(k) && m.bindings[k] != a {
                        w.push(conflict_view(k, m.bindings[k], a))
                    } else {
                        w
                    };
                    (KeyMapView { bindings: without(m.bindings, a).insert(k, a), insertions: m.insertions.push((k, a)) }, w2)
                },
                Err(_) => (m, w.push(invalid_binding_view(a, e.1))),
            }
        },
    }
}

/// The default table with the first `n` overrides applied in order, and their warnings.
pub open spec fn overrides_upto(ovs: Seq<(Seq<char>, Seq<char>)>, n: int) -> (KeyMapView, Seq<ConfigWarningView>)
    decreases n,
{
    if n <= 0 {
        (default_map(), Seq::empty())
    } else {
        apply_override(overrides_upto(ovs, n - 1), ovs[n - 1])
    }
}

/// The overrides as plain text pairs.
pub open spec fn overrides_view(v: Seq<(String, String)>) -> Seq<(Seq<char>, Seq<char>)> {
    v.map_values(|p: (String, String)| (p.0@, p.1@))
}

fn push_str(out: &mut Vec<char>, s: &str)
    ensures
        final(out)@ == old(out)@ + s@,
{
    let c = chars_of(s);
    append_chars(out, &c);
}

impl ConfigWarning {
    /// The warning for an override of `action` whose binding string `value` does not parse.
    pub fn invalid_binding(action: ActionId, value: &str) -> (r: ConfigWarning)
        ensures
            r@ == invalid_binding_view(action, value@),
    {
        let name = action.name();
        let mut field: Vec<char> = Vec::new();
        push_str(&mut field, "keybindings.");
        push_str(&mut field, name);
        let mut msg: Vec<char> = Vec::new();
        push_str(&mut msg, "keybinding for ");
        push_str(&mut msg, name);
        push_str(&mut msg, " is invalid (\"");
        push_str(&mut msg, value);
        push_str(&mut msg, "\"); using the default");
        let f = string_from_chars(&field);
        ConfigWarning::new(f.as_str(), string_from_chars(&msg), Severity::Warning)
    }

    /// The warning for an override that gives `winner` the binding `binding`, which `loser`
    /// held.
    pub fn conflict(binding: &KeyBinding, loser: ActionId, winner: ActionId) -> (r: ConfigWarning)
        ensures
            r@ == conflict_view(binding_chords(*binding), loser, winner),
    {
        let w = winner.name();
        let l = loser.name();
        let rendered = render_binding(binding);
        let mut field: Vec<char> = Vec::new();
        push_str(&mut field, "keybindings.");
        push_str(&mut field, w);
        let mut msg: Vec<char> = Vec::new();
        push_str(&mut msg, "key ");
        push_str(&mut msg, rendered.as_str());
        push_str(&mut msg, " is bound to both ");
        push_str(&mut msg, l);
        push_str(&mut msg, " and ");
        push_str(&mut msg, w);
        push_str(&mut msg, "; using ");
        push_str(&mut msg, w);
        let f = string_from_chars(&field);
        ConfigWarning::new(f.as_str(), string_from_chars(&msg), Severity::Warning)
    }
}

impl KeyMap {
    /// The normative default table. Every row's binding string parses, so every row is in it.
    pub fn defaults() -> (r: KeyMap)
        ensures
            r@ == default_map(),
    {
        let mut map = KeyMap::new();
        assert(map@ == defaults_upto(0));
        let mut i: usize = 0;
        while i < 90
            invariant
                i <= 90,
                default_count() == 90,
                map@ == defaults_upto(i as int),
            decreases 90 - i,
        {
            let (text, action) = default_entry_exec(i);
            match parse_binding(text) {
                Ok(b) => {
                    map.insert(b, action);
                },
                Err(_) => {},
            }
            i = i + 1;
        }
        map
    }

    /// Builds on [`KeyMap::defaults`], applying `overrides` (action snake_case name, binding
    /// string) in order, the last one winning on conflict. The overrides are the configuration's
    /// key table: ordered by action name, no name twice. An override replaces every binding the
    /// action held. A parse failure or a conflict gives a warning, never an error.
    pub fn from_config(overrides: &Vec<(String, String)>) -> (r: (KeyMap, Vec<ConfigWarning>))
        requires
            forall|i: int, j: int| 0 <= i < j < overrides@.len()
                ==> text_order(#[trigger] overrides@[i].0@, #[trigger] overrides@[j].0@, 0) < 0,
        ensures
            (r.0@, r.1@.map_values(|w: ConfigWarning| w@)) == overrides_upto(overrides_view(overrides@), overrides@.len() as int),
    {
        let ghost ovs = overrides_view(overrides@);
        let mut map = KeyMap::defaults();
        let mut warnings: Vec<ConfigWarning> = Vec::new();
        assert(warnings@.map_values(|w: ConfigWarning| w@) =~= Seq::<ConfigWarningView>::empty());
        let mut i: usize = 0;
        while i < overrides.len()
            invariant
                i <= overrides@.len(),
                ovs == overrides_view(overrides@),
                (map@, warnings@.map_values(|w: ConfigWarning| w@)) == overrides_upto(ovs, i as int),
            decreases overrides@.len() - i,
        {
            let name = &overrides[i].0;
            let value = &overrides[i].1;
            assert(ovs[i as int] == (name@, value@));
            let ghost before = warnings@.map_values(|w: ConfigWarning| w@);
            match ActionId::from_name(name.as_str()) {
                None => {},
                Some(action) => {
                    let vc = chars_of(value.as_str());
                    let trimmed = trim_chars(&vc);
                    let lower = to_ascii_lower_chars(&trimmed);
                    if eq_str(&lower, "none") {
                        map.remove_bindings_for(action);
                    } else {
                        match parse_binding(value.as_str()) {
                            Ok(binding) => {
                                match map.resolve_normal(&binding) {
                                    Some(existing) => {
                                        if existing != action {
                                            let w = ConfigWarning::conflict(&binding, existing, action);
                                            warnings.push(w);
                                            assert(warnings@.map_values(|w: ConfigWarning| w@) =~= before.push(w@));
                                        }
                                    },
                                    None => {},
                                }
                                map.remove_bindings_for(action);
                                map.insert(binding, action);
                            },
                            Err(_) => {
                                let w = ConfigWarning::invalid_binding(action, value.as_str());
                                warnings.push(w);
                                assert(warnings@.map_values(|w: ConfigWarning| w@) =~= before.push(w@));
                            },
                        }
                    }
                },
            }
            i = i + 1;
        }
        (map, warnings)
    }
}

impl Default for KeyMap {
    /// An empty table.
    fn default() -> (r: KeyMap)
        ensures
            r@.bindings == Map::<Seq<KeyChord>, ActionId>::empty(),
            r@.insertions == Seq::<(Seq<KeyChord>, ActionId)>::empty(),
    {
        KeyMap::new()
    }
}

} // verus!
