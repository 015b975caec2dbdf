//! The digit-aware, case-insensitive text order used to sort by names: lower case, a leading
//! article dropped, then runs of digits compared as numbers and other runs as text.
use crate::text::{append_chars, chars_of, decimal_value, has_prefix, is_digit, parse_digits_u64, slice_vec, starts_with_str};
use std::cmp::Ordering;
use vstd::prelude::*;

verus! {

/// What `str::to_lowercase` returns for `s` (full Unicode case mapping).
pub uninterp spec fn unicode_lower(s: Seq<char>) -> Seq<char>;

/// `str::to_lowercase`.
#[verifier::external_body]
fn to_lowercase(s: &str) -> (r: String)
    ensures
        r@ == unicode_lower(s@),
{
    s.to_lowercase()
}

/// Lower case, without a leading `the `, `a ` or `an `: otherwise every band beginning with
/// "The" would cluster under T.
pub open spec fn spec_normalize(s: Seq<char>) -> Seq<char> {
    let l = unicode_lower(s);
    if has_prefix(l, "the "@) {
        l.skip(4)
    } else if has_prefix(l, "a "@) {
        l.skip(2)
    } else if has_prefix(l, "an "@) {
        l.skip(3)
    } else {
        l
    }
}

pub fn normalize(s: &str) -> (r: Vec<char>)
    ensures
        r@ == spec_normalize(s@),
{
    let lower = to_lowercase(s);
    let v = chars_of(lower.as_str());
    proof {
        reveal_strlit("the ");
        reveal_strlit("a ");
        reveal_strlit("an ");
    }
    if starts_with_str(&v, "the ") {
        slice_vec(&v, 4, v.len())
    } else if starts_with_str(&v, "a ") {
        slice_vec(&v, 2, v.len())
    } else if starts_with_str(&v, "an ") {
        slice_vec(&v, 3, v.len())
    } else {
        v
    }
}

/// One piece of a natural sort key: a run of digits as its number (0 if it does not fit in 64
/// bits), or a run of other characters as text.
#[derive(Debug, Clone, PartialEq, Eq)]
pub enum Chunk {
    Num(u64),
    Text(String),
}

pub enum ChunkView {
    Num(nat),
    Text(Seq<char>),
}

impl View for Chunk {
    type V = ChunkView;

    open spec fn view(&self) -> ChunkView {
        match self {
            Chunk::Num(n) => ChunkView::Num(*n as nat),
            Chunk::Text(s) => ChunkView::Text(s@),
        }
    }
}

/// The maximal runs of `s` that are all digits or all other characters, in order, each with
/// whether it is a digit run.
pub open spec fn runs(s: Seq<char>) -> Seq<(Seq<char>, bool)>
    decreases s.len(),
{
    if s.len() == 0 {
        Seq::empty()
    } else {
        let r = runs(s.drop_last());
        let c = s.last();
        if r.len() > 0 && r.last().1 == is_digit(c) {
            r.update(r.len() - 1, (r.last().0.push(c), is_digit(c)))
        } else {
            r.push((seq![c], is_digit(c)))
        }
    }
}

/// A run as a chunk.
pub open spec fn chunk_of(run: (Seq<char>, bool)) -> ChunkView {
    if run.1 {
        ChunkView::Num(if decimal_value(run.0) <= u64::MAX { decimal_value(run.0) } else { 0 })
    } else {
        ChunkView::Text(run.0)
    }
}

/// The natural sort key of `s`.
pub open spec fn spec_natural_key(s: Seq<char>) -> Seq<ChunkView> {
    runs(s).map_values(|r: (Seq<char>, bool)| chunk_of(r))
}

pub fn finish_chunk(s: &Vec<char>, digits: bool) -> (r: Chunk)
    requires
        digits ==> crate::text::all_digits(s@),
        s@.len() > 0,
    ensures
        r@ == chunk_of((s@, digits)),
{
    if digits {
        match parse_digits_u64(s) {
            Some(n) => Chunk::Num(n),
            None => Chunk::Num(0),
        }
    } else {
        Chunk::Text(crate::text::string_from_chars(s))
    }
}

pub fn natural_key(s: &[char]) -> (r: Vec<Chunk>)
    ensures
        r@.map_values(|c: Chunk| c@) == spec_natural_key(s@),
{
    let mut chunks: Vec<Chunk> = Vec::new();
    let mut cur: Vec<char> = Vec::new();
    let mut cur_digit = false;
    let ghost mut done: Seq<(Seq<char>, bool)> = Seq::empty();
    let mut i: usize = 0;
    while i < s.len()
        invariant
            i <= s@.len(),
            chunks@.map_values(|c: Chunk| c@) == done.map_values(|r: (Seq<char>, bool)| chunk_of(r)),
            i == 0 ==> cur@.len() == 0 && done.len() == 0,
            i > 0 ==> cur@.len() > 0 && runs(s@.take(i as int)) == done.push((cur@, cur_digit)),
            forall|k: int| 0 <= k < cur@.len() ==> is_digit(#[trigger] cur@[k]) == cur_digit,
            forall|j: int| 0 <= j < done.len() ==> (#[trigger] done[j]).0.len() > 0 && (done[j].1 ==> crate::text::all_digits(done[j].0)),
        decreases s@.len() - i,
    {
        let c = s[i];
        let d = '0' <= c && c <= '9';
        let ghost t = s@.take(i + 1);
        assert(t.drop_last() =~= s@.take(i as int));
        assert(t.last() == c);
        if i > 0 && d != cur_digit {
            let ghost r = runs(s@.take(i as int));
            let ghost old_done = done;
            let ghost old_cur = cur@;
            let ghost old_digit = cur_digit;
            proof {
                assert(r.last() == (old_cur, old_digit));
                assert(runs(t) == r.push((seq![c], d)));
            }
            let ch = finish_chunk(&cur, cur_digit);
            let ghost before = chunks@;
            chunks.push(ch);
            proof {
                assert(chunks@.map_values(|c: Chunk| c@) =~= before.map_values(|c: Chunk| c@).push(chunk_of((cur@, cur_digit))));
                done = done.push((cur@, cur_digit));
                assert(done.map_values(|r: (Seq<char>, bool)| chunk_of(r)) =~= before.map_values(|c: Chunk| c@).push(chunk_of((cur@, cur_digit))));
            }
            cur = Vec::new();
            cur.push(c);
            cur_digit = d;
            proof {
                assert(cur@ =~= seq![c]);
                assert(runs(t) =~= done.push((cur@, cur_digit)));
            }
        } else {
            let ghost old_cur = cur@;
            cur.push(c);
            cur_digit = d;
            proof {
                if i > 0 {
                    let r = runs(s@.take(i as int));
                    assert(r.last() == (old_cur, d));
                    assert(r.update(r.len() - 1, (old_cur.push(c), d)) =~= done.push((cur@, cur_digit)));
                } else {
                    assert(s@.take(0) =~= Seq::<char>::empty());
                    assert(cur@ =~= seq![c]);
                    assert(t.drop_last().len() == 0);
                    assert(runs(t.drop_last()).len() == 0);
                    assert(runs(t) == Seq::<(Seq<char>, bool)>::empty().push((seq![c], d)));
                    assert(Seq::<(Seq<char>, bool)>::empty().push((seq![c], d)) =~= done.push((cur@, cur_digit)));
                }
            }
        }
        i = i + 1;
    }
    if cur.len() > 0 {
        let ch = finish_chunk(&cur, cur_digit);
        let ghost before = chunks@;
        chunks.push(ch);
        proof {
            assert(chunks@.map_values(|c: Chunk| c@) =~= before.map_values(|c: Chunk| c@).push(chunk_of((cur@, cur_digit))));
            done = done.push((cur@, cur_digit));
            assert(done.map_values(|r: (Seq<char>, bool)| chunk_of(r)) =~= before.map_values(|c: Chunk| c@).push(chunk_of((cur@, cur_digit))));
        }
    }
    assert(s@.take(s@.len() as int) =~= s@);
    chunks
}

// ------------------------------------------------------------------ the order

/// An index as an integer.
pub open spec fn ix(i: usize) -> int {
    i as int
}

/// -1, 0 or 1 as the three outcomes of a comparison.
pub open spec fn ordering_from(x: int) -> Ordering {
    if x < 0 {
        Ordering::Less
    } else if x > 0 {
        Ordering::Greater
    } else {
        Ordering::Equal
    }
}

/// Lexicographic order of two texts by character (a proper prefix first) from position `i`:
/// -1, 0 or 1. Characters compare by code point, as the UTF-8 bytes of a `String` do.
pub open spec fn text_order(a: Seq<char>, b: Seq<char>, i: int) -> int
    decreases a.len() - i,
{
    if i < 0 || i >= a.len() {
        if i >= 0 && i < b.len() { -1 } else { 0 }
    } else if i >= b.len() {
        1
    } else if a[i] < b[i] {
        -1
    } else if a[i] > b[i] {
        1
    } else {
        text_order(a, b, i + 1)
    }
}

/// Order of two chunks: any number before any text, numbers by value, texts by `text_order`.
pub open spec fn chunk_order(a: ChunkView, b: ChunkView) -> int {
    match (a, b) {
        (ChunkView::Num(x), ChunkView::Num(y)) => if x < y { -1 } else if x > y { 1 } else { 0 },
        (ChunkView::Num(_), ChunkView::Text(_)) => -1,
        (ChunkView::Text(_), ChunkView::Num(_)) => 1,
        (ChunkView::Text(x), ChunkView::Text(y)) => text_order(x, y, 0),
    }
}

/// Lexicographic order of two keys chunk by chunk, from position `i`.
pub open spec fn key_order(a: Seq<ChunkView>, b: Seq<ChunkView>, i: int) -> int
    decreases a.len() - i,
{
    if i < 0 || i >= a.len() {
        if i >= 0 && i < b.len() { -1 } else { 0 }
    } else if i >= b.len() {
        1
    } else if chunk_order(a[i], b[i]) != 0 {
        chunk_order(a[i], b[i])
    } else {
        key_order(a, b, i + 1)
    }
}

/// The natural order of two texts.
pub open spec fn natural_order(a: Seq<char>, b: Seq<char>) -> int {
    key_order(spec_natural_key(spec_normalize(a)), spec_natural_key(spec_normalize(b)), 0)
}

pub fn text_ordering(a: &[char], b: &[char]) -> (r: Ordering)
    ensures
        r == ordering_from(text_order(a@, b@, 0)),
{
    let mut i: usize = 0;
    while i < a.len() && i < b.len()
        invariant
            i <= a@.len(),
            i <= b@.len(),
            text_order(a@, b@, 0) == text_order(a@, b@, ix(i)),
        decreases a@.len() - i,
    {
        if a[i] < b[i] {
            return Ordering::Less;
        }
        if a[i] > b[i] {
            return Ordering::Greater;
        }
        i = i + 1;
    }
    if i < b.len() {
        Ordering::Less
    } else if i < a.len() {
        Ordering::Greater
    } else {
        Ordering::Equal
    }
}

/// Whether `a` comes no later than `b` in text order.
pub fn text_order_le(a: &[char], b: &[char]) -> (r: bool)
    ensures
        r == (text_order(a@, b@, 0) <= 0),
{
    match text_ordering(a, b) {
        Ordering::Greater => false,
        _ => true,
    }
}

pub fn chunk_ordering(a: &Chunk, b: &Chunk) -> (r: Ordering)
    ensures
        r == ordering_from(chunk_order(a@, b@)),
{
    match (a, b) {
        (Chunk::Num(x), Chunk::Num(y)) => if *x < *y {
            Ordering::Less
        } else if *x > *y {
            Ordering::Greater
        } else {
            Ordering::Equal
        },
        (Chunk::Num(_), Chunk::Text(_)) => Ordering::Less,
        (Chunk::Text(_), Chunk::Num(_)) => Ordering::Greater,
        (Chunk::Text(x), Chunk::Text(y)) => {
            let xs = chars_of(x.as_str());
            let ys = chars_of(y.as_str());
            text_ordering(&xs, &ys)
        },
    }
}

pub fn key_ordering(a: &Vec<Chunk>, b: &Vec<Chunk>) -> (r: Ordering)
    ensures
        r == ordering_from(key_order(a@.map_values(|c: Chunk| c@), b@.map_values(|c: Chunk| c@), 0)),
{
    let ghost av = a@.map_values(|c: Chunk| c@);
    let ghost bv = b@.map_values(|c: Chunk| c@);
    let mut i: usize = 0;
    while i < a.len() && i < b.len()
        invariant
            i <= a@.len(),
            i <= b@.len(),
            av == a@.map_values(|c: Chunk| c@),
            bv == b@.map_values(|c: Chunk| c@),
            key_order(av, bv, 0) == key_order(av, bv, ix(i)),
        decreases a@.len() - i,
    {
        let o = chunk_ordering(&a[i], &b[i]);
        assert(av[ix(i)] == a@[ix(i)]@);
        assert(bv[ix(i)] == b@[ix(i)]@);
        match o {
            Ordering::Equal => {},
            _ => {
                return o;
            },
        }
        i = i + 1;
    }
    if i < b.len() {
        Ordering::Less
    } else if i < a.len() {
        Ordering::Greater
    } else {
        Ordering::Equal
    }
}

/// The digit-aware, case-insensitive order, standalone: what makes `track2` sort before
/// `track10`.
pub fn natural_cmp(a: &str, b: &str) -> (r: Ordering)
    ensures
        r == ordering_from(natural_order(a@, b@)),
{
    let na = normalize(a);
    let nb = normalize(b);
    let ka = natural_key(&na);
    let kb = natural_key(&nb);
    key_ordering(&ka, &kb)
}


/// Text order from any position is antisymmetric.
pub proof fn lemma_text_order_antisym(a: Seq<char>, b: Seq<char>, i: int)
    requires
        i >= 0,
    ensures
        text_order(a, b, i) == -text_order(b, a, i),
    decreases a.len() - i,
{
    if i < a.len() && i < b.len() && a[i] == b[i] {
        lemma_text_order_antisym(a, b, i + 1);
    }
}

/// Text order from any position chains.
pub proof fn lemma_text_order_trans(a: Seq<char>, b: Seq<char>, c: Seq<char>, i: int)
    requires
        i >= 0,
        text_order(a, b, i) <= 0,
        text_order(b, c, i) <= 0,
    ensures
        text_order(a, c, i) <= 0,
    decreases a.len() - i,
{
    if i < a.len() && i < b.len() && i < c.len() && a[i] == b[i] && b[i] == c[i] {
        lemma_text_order_trans(a, b, c, i + 1);
    }
}

proof fn lemma_chunk_order_antisym(a: ChunkView, b: ChunkView)
    ensures
        chunk_order(a, b) == -chunk_order(b, a),
{
    match (a, b) {
        (ChunkView::Text(x), ChunkView::Text(y)) => lemma_text_order_antisym(x, y, 0),
        _ => {},
    }
}

proof fn lemma_chunk_order_trans(a: ChunkView, b: ChunkView, c: ChunkView)
    requires
        chunk_order(a, b) <= 0,
        chunk_order(b, c) <= 0,
    ensures
        chunk_order(a, c) <= 0,
{
    match (a, b, c) {
        (ChunkView::Text(x), ChunkView::Text(y), ChunkView::Text(z)) => lemma_text_order_trans(x, y, z, 0),
        _ => {},
    }
}

proof fn lemma_key_order_antisym(a: Seq<ChunkView>, b: Seq<ChunkView>, i: int)
    requires
        i >= 0,
    ensures
        key_order(a, b, i) == -key_order(b, a, i),
    decreases a.len() - i,
{
    if i < a.len() && i < b.len() {
        lemma_chunk_order_antisym(a[i], b[i]);
        if chunk_order(a[i], b[i]) == 0 {
            lemma_key_order_antisym(a, b, i + 1);
        }
    }
}

proof fn lemma_key_order_trans(a: Seq<ChunkView>, b: Seq<ChunkView>, c: Seq<ChunkView>, i: int)
    requires
        i >= 0,
        key_order(a, b, i) <= 0,
        key_order(b, c, i) <= 0,
    ensures
        key_order(a, c, i) <= 0,
    decreases a.len() - i,
{
    if i < a.len() && i < b.len() && i < c.len() {
        let (x, y, z) = (a[i], b[i], c[i]);
        lemma_chunk_order_antisym(x, y);
        lemma_chunk_order_antisym(y, z);
        lemma_chunk_order_antisym(x, z);
        lemma_chunk_order_trans(x, y, z);
        if chunk_order(x, z) == 0 {
            lemma_chunk_order_trans(z, x, y);
            lemma_chunk_order_trans(y, z, x);
            assert(chunk_order(x, y) == 0 && chunk_order(y, z) == 0);
            lemma_key_order_trans(a, b, c, i + 1);
        }
    }
}

/// The natural order never contradicts itself: swapping the texts flips it, and it chains.
pub proof fn lemma_natural_order_laws(a: Seq<char>, b: Seq<char>, c: Seq<char>)
    ensures
        natural_order(a, b) == -natural_order(b, a),
        natural_order(a, b) <= 0 && natural_order(b, c) <= 0 ==> natural_order(a, c) <= 0,
{
    let ka = spec_natural_key(spec_normalize(a));
    let kb = spec_natural_key(spec_normalize(b));
    let kc = spec_natural_key(spec_normalize(c));
    lemma_key_order_antisym(ka, kb, 0);
    if natural_order(a, b) <= 0 && natural_order(b, c) <= 0 {
        lemma_key_order_trans(ka, kb, kc, 0);
    }
}

} // verus!
