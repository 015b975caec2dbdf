//! The rolling cache's index: one row per cached file, keyed by `CacheKey`, with the rules for
//! read-only mode and for when the index is due to be written out. Reading, writing and locking
//! the index file are the caller's.
use crate::cache::layout::{CacheKey, CacheKeyView};
use crate::clock::{duration_as_nanos, duration_nanos};
use jiff::Timestamp;
use std::path::PathBuf;
use std::time::Duration;
use vstd::prelude::*;

verus! {

/// One cached file.
#[derive(Debug, Clone)]
pub struct ManifestEntry {
    pub key: CacheKey,
    pub path: PathBuf,
    pub bytes: u64,
    pub created_at: Timestamp,
    pub last_access: Timestamp,
    pub complete: bool,
    pub duration_secs: Option<u64>,
}

/// No two rows share a key.
pub open spec fn keys_distinct(rows: Seq<ManifestEntry>) -> bool {
    forall|i: int, j: int|
        0 <= i < rows.len() && 0 <= j < rows.len() && i != j ==> #[trigger] rows[i].key@ != #[trigger] rows[j].key@
}

/// Where the row for `k` sits, if there is one.
pub open spec fn key_index(rows: Seq<ManifestEntry>, k: CacheKeyView) -> Option<int> {
    if exists|i: int| 0 <= i < rows.len() && #[trigger] rows[i].key@ == k {
        Some(choose|i: int| 0 <= i < rows.len() && #[trigger] rows[i].key@ == k)
    } else {
        None
    }
}

/// The rows after writing `e`: it replaces the row with its key, or joins the end.
pub open spec fn upsert(rows: Seq<ManifestEntry>, e: ManifestEntry) -> Seq<ManifestEntry> {
    match key_index(rows, e.key@) {
        Some(i) => rows.update(i, e),
        None => rows.push(e),
    }
}

/// The rows after dropping the one for `k`, if any.
pub open spec fn without_key(rows: Seq<ManifestEntry>, k: CacheKeyView) -> Seq<ManifestEntry> {
    match key_index(rows, k) {
        Some(i) => rows.remove(i),
        None => rows,
    }
}

/// The rows after writing each of `input` in turn.
pub open spec fn upsert_all(input: Seq<ManifestEntry>) -> Seq<ManifestEntry>
    decreases input.len(),
{
    if input.len() == 0 {
        Seq::empty()
    } else {
        upsert(upsert_all(input.drop_last()), input.last())
    }
}

/// The bytes of all rows together.
pub open spec fn sum_bytes(rows: Seq<ManifestEntry>) -> nat
    decreases rows.len(),
{
    if rows.len() == 0 {
        0
    } else {
        sum_bytes(rows.drop_last()) + rows.last().bytes as nat
    }
}

/// The rows after an access to `k` at `now`: its `last_access` moves to `now`.
pub open spec fn touched(rows: Seq<ManifestEntry>, k: CacheKeyView, now: Timestamp) -> Seq<ManifestEntry> {
    match key_index(rows, k) {
        Some(i) => rows.update(i, ManifestEntry { last_access: now, ..rows[i] }),
        None => rows,
    }
}

/// The rows after the fetch of `k` finished with `bytes` at `now`.
pub open spec fn completed(rows: Seq<ManifestEntry>, k: CacheKeyView, bytes: u64, now: Timestamp) -> Seq<ManifestEntry> {
    match key_index(rows, k) {
        Some(i) => rows.update(i, ManifestEntry { complete: true, bytes: bytes, last_access: now, ..rows[i] }),
        None => rows,
    }
}

/// The rows whose flag in `present` is set, in order.
pub open spec fn keep_where(rows: Seq<ManifestEntry>, present: Seq<bool>) -> Seq<ManifestEntry>
    decreases rows.len(),
{
    if rows.len() == 0 || present.len() == 0 {
        Seq::empty()
    } else if present.last() {
        keep_where(rows.drop_last(), present.drop_last()).push(rows.last())
    } else {
        keep_where(rows.drop_last(), present.drop_last())
    }
}

/// How many flags are clear.
pub open spec fn count_false(flags: Seq<bool>) -> nat
    decreases flags.len(),
{
    if flags.len() == 0 {
        0
    } else {
        count_false(flags.drop_last()) + if flags.last() { 0nat } else { 1nat }
    }
}

/// The manifest as plain values.
pub struct ManifestView {
    pub rows: Seq<ManifestEntry>,
    pub read_only: bool,
    pub dirty: bool,
}

/// The index of the rolling cache. In read-only mode (another instance holds the lock) it
/// changes nothing.
pub struct Manifest {
    entries: Vec<ManifestEntry>,
    read_only: bool,
    dirty: bool,
}

impl View for Manifest {
    type V = ManifestView;

    closed spec fn view(&self) -> ManifestView {
        ManifestView { rows: self.entries@, read_only: self.read_only, dirty: self.dirty }
    }
}

proof fn lemma_key_index_at(rows: Seq<ManifestEntry>, i: int)
    requires
        keys_distinct(rows),
        0 <= i < rows.len(),
    ensures
        key_index(rows, rows[i].key@) == Some(i),
{
    let k = rows[i].key@;
    assert(rows[i].key@ == k);
    let j = choose|j: int| 0 <= j < rows.len() && #[trigger] rows[j].key@ == k;
    if j != i {
        assert(rows[i].key@ != rows[j].key@);
    }
}

proof fn lemma_upsert_distinct(rows: Seq<ManifestEntry>, e: ManifestEntry)
    requires
        keys_distinct(rows),
    ensures
        keys_distinct(upsert(rows, e)),
        key_index(upsert(rows, e), e.key@) is Some,
{
    let r = upsert(rows, e);
    match key_index(rows, e.key@) {
        Some(i) => {
            assert forall|a: int, b: int| 0 <= a < r.len() && 0 <= b < r.len() && a != b
                implies #[trigger] r[a].key@ != #[trigger] r[b].key@ by {
                if a == i {
                    assert(rows[b].key@ != rows[i].key@);
                } else if b == i {
                    assert(rows[a].key@ != rows[i].key@);
                } else {
                    assert(rows[a].key@ != rows[b].key@);
                }
            }
            assert(r[i].key@ == e.key@);
        },
        None => {
            assert forall|a: int, b: int| 0 <= a < r.len() && 0 <= b < r.len() && a != b
                implies #[trigger] r[a].key@ != #[trigger] r[b].key@ by {
                if a == rows.len() {
                    assert(rows[b].key@ != e.key@);
                } else if b == rows.len() {
                    assert(rows[a].key@ != e.key@);
                } else {
                    assert(rows[a].key@ != rows[b].key@);
                }
            }
            assert(r[rows.len() as int].key@ == e.key@);
        },
    }
}

proof fn lemma_remove_distinct(rows: Seq<ManifestEntry>, i: int)
    requires
        keys_distinct(rows),
        0 <= i < rows.len(),
    ensures
        keys_distinct(rows.remove(i)),
{
    let r = rows.remove(i);
    assert forall|a: int, b: int| 0 <= a < r.len() && 0 <= b < r.len() && a != b
        implies #[trigger] r[a].key@ != #[trigger] r[b].key@ by {
        let a2 = if a < i { a } else { a + 1 };
        let b2 = if b < i { b } else { b + 1 };
        assert(r[a] == rows[a2]);
        assert(r[b] == rows[b2]);
        assert(rows[a2].key@ != rows[b2].key@);
    }
}

proof fn lemma_update_same_key_distinct(rows: Seq<ManifestEntry>, i: int, e: ManifestEntry)
    requires
        keys_distinct(rows),
        0 <= i < rows.len(),
        e.key == rows[i].key,
    ensures
        keys_distinct(rows.update(i, e)),
{
    let r = rows.update(i, e);
    assert forall|a: int, b: int| 0 <= a < r.len() && 0 <= b < r.len() && a != b
        implies #[trigger] r[a].key@ != #[trigger] r[b].key@ by {
        assert(rows[a].key@ != rows[b].key@);
    }
}

impl Manifest {
    #[verifier::type_invariant]
    spec fn wf(self) -> bool {
        keys_distinct(self.entries@)
    }

    /// An index holding `rows` as read from disk (a later row for a key replaces an earlier
    /// one), clean, read-only when another instance holds the lock.
    pub fn from_rows(rows: Vec<ManifestEntry>, read_only: bool) -> (m: Manifest)
        ensures
            m@ == (ManifestView { rows: upsert_all(rows@), read_only: read_only, dirty: false }),
    {
        let mut m = Manifest { entries: Vec::new(), read_only: false, dirty: false };
        let mut rest = rows;
        let ghost input = rest@;
        let n = rest.len();
        // `pop` takes rows from the end; reverse them first so they are inserted in order.
        let mut reversed: Vec<ManifestEntry> = Vec::new();
        while rest.len() > 0
            invariant
                reversed@.len() + rest@.len() == input.len(),
                rest@ == input.take(rest@.len() as int),
                forall|k: int| 0 <= k < reversed@.len() ==> #[trigger] reversed@[k] == input[input.len() - 1 - k],
            decreases rest.len(),
        {
            let e = rest.pop().unwrap();
            reversed.push(e);
            assert(rest@ =~= input.take(rest@.len() as int));
        }
        let mut i: usize = 0;
        while i < n
            invariant
                n == input.len(),
                i <= n,
                reversed@.len() + i == n,
                forall|k: int| 0 <= k < reversed@.len() ==> #[trigger] reversed@[k] == input[input.len() - 1 - k],
                !m@.read_only,
                m@.rows == upsert_all(input.take(i as int)),
            decreases n - i,
        {
            let e = reversed.pop().unwrap();
            assert(e == input[i as int]);
            m.insert(e);
            proof {
                assert(input.take(i as int + 1).drop_last() =~= input.take(i as int));
            }
            i = i + 1;
        }
        proof {
            assert(input.take(n as int) =~= input);
            use_type_invariant(&m);
        }
        m.read_only = read_only;
        m.dirty = false;
        m
    }

    /// Whether another instance holds the lock, so that this one writes nothing.
    pub fn is_read_only(&self) -> (r: bool)
        ensures
            r == self@.read_only,
    {
        self.read_only
    }

    /// The row for `key`, if any.
    pub fn get(&self, key: &CacheKey) -> (r: Option<&ManifestEntry>)
        ensures
            match key_index(self@.rows, key@) {
                Some(i) => r == Some(&self@.rows[i]),
                None => r is None,
            },
    {
        proof { use_type_invariant(self); }
        let mut i: usize = 0;
        while i < self.entries.len()
            invariant
                i <= self.entries@.len(),
                keys_distinct(self.entries@),
                forall|j: int| 0 <= j < i ==> #[trigger] self.entries@[j].key@ != key@,
            decreases self.entries@.len() - i,
        {
            if self.entries[i].key.same(key) {
                proof { lemma_key_index_at(self.entries@, i as int); }
                return Some(&self.entries[i]);
            }
            i = i + 1;
        }
        None
    }

    /// Every row, in the index's own order.
    pub fn entries(&self) -> (r: &Vec<ManifestEntry>)
        ensures
            r@ == self@.rows,
    {
        &self.entries
    }

    /// The bytes of all rows together.
    pub fn total_bytes(&self) -> (r: u64)
        requires
            sum_bytes(self@.rows) <= u64::MAX,
        ensures
            r == sum_bytes(self@.rows),
    {
        let mut total: u64 = 0;
        let mut i: usize = 0;
        proof { lemma_sum_prefix_bound(self.entries@, 0); }
        while i < self.entries.len()
            invariant
                i <= self.entries@.len(),
                total == sum_bytes(self.entries@.take(i as int)),
                sum_bytes(self.entries@) <= u64::MAX,
            decreases self.entries@.len() - i,
        {
            proof {
                lemma_sum_prefix_bound(self.entries@, i as int + 1);
                assert(self.entries@.take(i as int + 1).drop_last() =~= self.entries@.take(i as int));
            }
            total = total + self.entries[i].bytes;
            i = i + 1;
        }
        proof { assert(self.entries@.take(i as int) =~= self.entries@); }
        total
    }

    fn position(&self, key: &CacheKey) -> (r: Option<usize>)
        ensures
            r matches Some(i) ==> key_index(self@.rows, key@) == Some(i as int) && i < self@.rows.len(),
            r is None ==> key_index(self@.rows, key@) is None,
    {
        proof { use_type_invariant(self); }
        let mut i: usize = 0;
        while i < self.entries.len()
            invariant
                i <= self.entries@.len(),
                keys_distinct(self.entries@),
                forall|j: int| 0 <= j < i ==> #[trigger] self.entries@[j].key@ != key@,
            decreases self.entries@.len() - i,
        {
            if self.entries[i].key.same(key) {
                proof { lemma_key_index_at(self.entries@, i as int); }
                return Some(i);
            }
            i = i + 1;
        }
        None
    }

    /// Writes `entry` over the row with its key, or adds it; nothing in read-only mode.
    pub fn insert(&mut self, entry: ManifestEntry)
        ensures
            old(self)@.read_only ==> final(self)@ == old(self)@,
            !old(self)@.read_only ==> final(self)@ == (ManifestView {
                rows: upsert(old(self)@.rows, entry),
                read_only: false,
                dirty: true,
            }),
    {
        proof { use_type_invariant(&*self); }
        if self.read_only {
            return;
        }
        let ghost before = self.entries@;
        proof { lemma_upsert_distinct(before, entry); }
        match self.position(&entry.key) {
            Some(i) => {
                let mut entries = Vec::new();
                std::mem::swap(&mut entries, &mut self.entries);
                entries.set(i, entry);
                assert(key_index(before, entry.key@) == Some(i as int));
                assert(entries@ =~= before.update(i as int, entry));
                self.entries = entries;
            },
            None => {
                assert(key_index(before, entry.key@) is None);
                let mut entries = Vec::new();
                std::mem::swap(&mut entries, &mut self.entries);
                entries.push(entry);
                self.entries = entries;
            },
        }
        self.dirty = true;
    }

    /// Drops the row for `key` and hands it back; nothing (and `None`) in read-only mode.
    pub fn remove(&mut self, key: &CacheKey) -> (r: Option<ManifestEntry>)
        ensures
            old(self)@.read_only ==> final(self)@ == old(self)@ && r is None,
            !old(self)@.read_only ==> final(self)@ == (ManifestView {
                rows: without_key(old(self)@.rows, key@),
                read_only: false,
                dirty: old(self)@.dirty || key_index(old(self)@.rows, key@) is Some,
            }),
            !old(self)@.read_only ==> match key_index(old(self)@.rows, key@) {
                Some(i) => r == Some(old(self)@.rows[i]),
                None => r is None,
            },
    {
        proof { use_type_invariant(&*self); }
        if self.read_only {
            return None;
        }
        match self.position(key) {
            Some(i) => {
                let ghost before = self.entries@;
                proof { lemma_remove_distinct(before, i as int); }
                let mut entries = Vec::new();
                std::mem::swap(&mut entries, &mut self.entries);
                let e = entries.remove(i);
                assert(entries@ =~= before.remove(i as int));
                self.entries = entries;
                self.dirty = true;
                Some(e)
            },
            None => None,
        }
    }

    /// Records an access to `key` at `now`. Outside read-only mode the index counts as changed
    /// even when `key` has no row.
    pub fn touch(&mut self, key: &CacheKey, now: Timestamp)
        ensures
            old(self)@.read_only ==> final(self)@ == old(self)@,
            !old(self)@.read_only ==> final(self)@ == (ManifestView {
                rows: touched(old(self)@.rows, key@, now),
                read_only: false,
                dirty: true,
            }),
    {
        proof { use_type_invariant(&*self); }
        if self.read_only {
            return;
        }
        self.dirty = true;
        let ghost before = self.entries@;
        match self.position(key) {
            Some(i) => {
                let mut entries = Vec::new();
                std::mem::swap(&mut entries, &mut self.entries);
                let mut e = entries.remove(i);
                e.last_access = now;
                entries.insert(i, e);
                proof {
                    lemma_update_same_key_distinct(before, i as int, e);
                    assert(key_index(before, key@) == Some(i as int));
                    assert(entries@ =~= before.update(i as int, e));
                }
                self.entries = entries;
            },
            None => {},
        }
    }

    /// Records that the fetch of `key` finished with `bytes` at `now`. Outside read-only mode
    /// the index counts as changed even when `key` has no row.
    pub fn mark_complete(&mut self, key: &CacheKey, bytes: u64, now: Timestamp)
        ensures
            old(self)@.read_only ==> final(self)@ == old(self)@,
            !old(self)@.read_only ==> final(self)@ == (ManifestView {
                rows: completed(old(self)@.rows, key@, bytes, now),
                read_only: false,
                dirty: true,
            }),
    {
        proof { use_type_invariant(&*self); }
        if self.read_only {
            return;
        }
        self.dirty = true;
        let ghost before = self.entries@;
        match self.position(key) {
            Some(i) => {
                let mut entries = Vec::new();
                std::mem::swap(&mut entries, &mut self.entries);
                let mut e = entries.remove(i);
                e.complete = true;
                e.bytes = bytes;
                e.last_access = now;
                entries.insert(i, e);
                proof {
                    lemma_update_same_key_distinct(before, i as int, e);
                    assert(key_index(before, key@) == Some(i as int));
                    assert(entries@ =~= before.update(i as int, e));
                }
                self.entries = entries;
            },
            None => {},
        }
    }

    /// Drops every row whose file is gone (`present` holds, row by row, whether it is still
    /// there) and counts them; in read-only mode the rows stay, though they are still counted.
    pub fn drop_missing(&mut self, present: &Vec<bool>) -> (dropped: usize)
        requires
            present@.len() == old(self)@.rows.len(),
        ensures
            dropped == count_false(present@),
            old(self)@.read_only ==> final(self)@ == old(self)@,
            !old(self)@.read_only ==> final(self)@ == (ManifestView {
                rows: keep_where(old(self)@.rows, present@),
                read_only: false,
                dirty: old(self)@.dirty || dropped > 0,
            }),
    {
        proof { use_type_invariant(&*self); }
        if self.read_only {
            return count_missing(present);
        }
        let mut kept: Vec<ManifestEntry> = Vec::new();
        let mut dropped: usize = 0;
        let mut rows = Vec::new();
        std::mem::swap(&mut rows, &mut self.entries);
        let ghost all = rows@;
        let mut reversed: Vec<ManifestEntry> = Vec::new();
        while rows.len() > 0
            invariant
                reversed@.len() + rows@.len() == all.len(),
                rows@ == all.take(rows@.len() as int),
                forall|k: int| 0 <= k < reversed@.len() ==> #[trigger] reversed@[k] == all[all.len() - 1 - k],
            decreases rows.len(),
        {
            let e = rows.pop().unwrap();
            reversed.push(e);
            assert(rows@ =~= all.take(rows@.len() as int));
        }
        let n = present.len();
        let mut i: usize = 0;
        while i < n
            invariant
                n == all.len(),
                n == present@.len(),
                i <= n,
                reversed@.len() + i == n,
                forall|k: int| 0 <= k < reversed@.len() ==> #[trigger] reversed@[k] == all[all.len() - 1 - k],
                kept@ == keep_where(all.take(i as int), present@.take(i as int)),
                dropped == count_false(present@.take(i as int)),
            decreases n - i,
        {
            let e = reversed.pop().unwrap();
            proof {
                assert(all.take(i as int + 1).drop_last() =~= all.take(i as int));
                assert(present@.take(i as int + 1).drop_last() =~= present@.take(i as int));
                lemma_count_false_bound(present@.take(i as int));
            }
            if present[i] {
                kept.push(e);
            } else {
                dropped = dropped + 1;
            }
            i = i + 1;
        }
        proof {
            assert(all.take(n as int) =~= all);
            assert(present@.take(n as int) =~= present@);
            lemma_keep_where_distinct(all, present@);
        }
        self.entries = kept;
        if dropped > 0 {
            self.dirty = true;
        }
        dropped
    }

    /// Whether a write of the index is owed now: something changed and this instance may
    /// write.
    pub fn needs_flush(&self) -> (r: bool)
        ensures
            r == (!self@.read_only && self@.dirty),
    {
        !self.read_only && self.dirty
    }

    /// Whether the debounced write is due: a write is owed, and the last one (if any) was at
    /// least a second ago.
    pub fn flush_due(&self, since_last_write: Option<Duration>) -> (r: bool)
        ensures
            r == (!self@.read_only && self@.dirty && match since_last_write {
                Some(d) => duration_nanos(d) >= 1_000_000_000,
                None => true,
            }),
    {
        if !self.dirty || self.read_only {
            return false;
        }
        match since_last_write {
            Some(d) => duration_as_nanos(&d) >= 1_000_000_000,
            None => true,
        }
    }

    /// Records that the index was written: nothing is owed any more.
    pub fn mark_flushed(&mut self)
        ensures
            final(self)@ == (ManifestView { dirty: false, ..old(self)@ }),
    {
        proof { use_type_invariant(&*self); }
        self.dirty = false;
    }
}

proof fn lemma_count_false_bound(flags: Seq<bool>)
    ensures
        count_false(flags) <= flags.len(),
    decreases flags.len(),
{
    if flags.len() > 0 {
        lemma_count_false_bound(flags.drop_last());
    }
}

/// How many of the flags are clear.
fn count_missing(present: &Vec<bool>) -> (n: usize)
    ensures
        n == count_false(present@),
{
    let mut n: usize = 0;
    let mut i: usize = 0;
    while i < present.len()
        invariant
            i <= present@.len(),
            n == count_false(present@.take(i as int)),
        decreases present@.len() - i,
    {
        proof {
            assert(present@.take(i as int + 1).drop_last() =~= present@.take(i as int));
            lemma_count_false_bound(present@.take(i as int));
        }
        if !present[i] {
            n = n + 1;
        }
        i = i + 1;
    }
    proof { assert(present@.take(i as int) =~= present@); }
    n
}

proof fn lemma_keep_where_from(rows: Seq<ManifestEntry>, present: Seq<bool>, j: int)
    requires
        rows.len() == present.len(),
        0 <= j < keep_where(rows, present).len(),
    ensures
        exists|i: int| 0 <= i < rows.len() && #[trigger] rows[i] == keep_where(rows, present)[j],
    decreases rows.len(),
{
    let k = keep_where(rows.drop_last(), present.drop_last());
    if present.last() && j == k.len() {
        assert(rows[rows.len() - 1] == keep_where(rows, present)[j]);
    } else {
        lemma_keep_where_from(rows.drop_last(), present.drop_last(), j);
        let i = choose|i: int| 0 <= i < rows.drop_last().len() && #[trigger] rows.drop_last()[i] == k[j];
        assert(rows[i] == keep_where(rows, present)[j]);
    }
}

proof fn lemma_keep_where_distinct(rows: Seq<ManifestEntry>, present: Seq<bool>)
    requires
        keys_distinct(rows),
        rows.len() == present.len(),
    ensures
        keys_distinct(keep_where(rows, present)),
    decreases rows.len(),
{
    if rows.len() > 0 {
        let pre = rows.drop_last();
        assert forall|a: int, b: int| 0 <= a < pre.len() && 0 <= b < pre.len() && a != b
            implies #[trigger] pre[a].key@ != #[trigger] pre[b].key@ by {
            assert(rows[a].key@ != rows[b].key@);
        }
        lemma_keep_where_distinct(pre, present.drop_last());
        let k = keep_where(pre, present.drop_last());
        if present.last() {
            let r = keep_where(rows, present);
            assert forall|a: int, b: int| 0 <= a < r.len() && 0 <= b < r.len() && a != b
                implies #[trigger] r[a].key@ != #[trigger] r[b].key@ by {
                if a == k.len() {
                    lemma_keep_where_from(pre, present.drop_last(), b);
                    let i = choose|i: int| 0 <= i < pre.len() && #[trigger] pre[i] == k[b];
                    assert(rows[i].key@ != rows[rows.len() - 1].key@);
                } else if b == k.len() {
                    lemma_keep_where_from(pre, present.drop_last(), a);
                    let i = choose|i: int| 0 <= i < pre.len() && #[trigger] pre[i] == k[a];
                    assert(rows[i].key@ != rows[rows.len() - 1].key@);
                } else {
                    assert(k[a].key@ != k[b].key@);
                }
            }
        }
    }
}

/// A prefix of the rows never holds more bytes than all of them.
pub proof fn lemma_sum_prefix_bound(rows: Seq<ManifestEntry>, i: int)
    requires
        0 <= i <= rows.len(),
    ensures
        sum_bytes(rows.take(i)) <= sum_bytes(rows),
    decreases rows.len(),
{
    if i < rows.len() {
        assert(rows.drop_last().take(i) =~= rows.take(i));
        lemma_sum_prefix_bound(rows.drop_last(), i);
    } else {
        assert(rows.take(i) =~= rows);
    }
}


/// The row a lookup of `k` finds, if any.
pub open spec fn row_for(rows: Seq<ManifestEntry>, k: CacheKeyView) -> Option<ManifestEntry> {
    match key_index(rows, k) {
        Some(i) => Some(rows[i]),
        None => None,
    }
}

/// Writing `e` and then looking up its key gives `e` back; a lookup of any other key finds what
/// it found before; keys stay unique.
pub proof fn lemma_read_after_write(rows: Seq<ManifestEntry>, e: ManifestEntry, k: CacheKeyView)
    requires
        keys_distinct(rows),
    ensures
        keys_distinct(upsert(rows, e)),
        row_for(upsert(rows, e), e.key@) == Some(e),
        k != e.key@ ==> row_for(upsert(rows, e), k) == row_for(rows, k),
{
    lemma_upsert_distinct(rows, e);
    let r = upsert(rows, e);
    let at = match key_index(rows, e.key@) {
        Some(i) => i,
        None => rows.len() as int,
    };
    assert(r[at] == e);
    lemma_key_index_at(r, at);
    if k != e.key@ {
        match key_index(rows, k) {
            Some(j) => {
                assert(rows[j].key@ == k);
                assert(j != at);
                assert(r[j] == rows[j]);
                lemma_key_index_at(r, j);
            },
            None => {
                assert forall|j: int| 0 <= j < r.len() implies #[trigger] r[j].key@ != k by {
                    if j != at {
                        assert(r[j] == rows[j]);
                    }
                }
            },
        }
    }
}

/// After the row for `k` is removed a lookup of `k` finds nothing, and a lookup of any other
/// key finds what it found before.
pub proof fn lemma_read_after_remove(rows: Seq<ManifestEntry>, k: CacheKeyView, other: CacheKeyView)
    requires
        keys_distinct(rows),
    ensures
        row_for(without_key(rows, k), k) is None,
        other != k ==> row_for(without_key(rows, k), other) == row_for(rows, other),
{
    let r = without_key(rows, k);
    match key_index(rows, k) {
        Some(i) => {
            lemma_remove_distinct(rows, i);
            assert forall|j: int| 0 <= j < r.len() implies #[trigger] r[j].key@ != k by {
                let j2 = if j < i { j } else { j + 1 };
                assert(r[j] == rows[j2]);
                assert(rows[j2].key@ != rows[i].key@);
            }
            if other != k {
                match key_index(rows, other) {
                    Some(j) => {
                        assert(rows[j].key@ == other);
                        let j1 = if j < i { j } else { j - 1 };
                        assert(r[j1] == rows[j]);
                        lemma_key_index_at(r, j1);
                    },
                    None => {
                        assert forall|j: int| 0 <= j < r.len() implies #[trigger] r[j].key@ != other by {
                            let j2 = if j < i { j } else { j + 1 };
                            assert(r[j] == rows[j2]);
                        }
                    },
                }
            }
        },
        None => {},
    }
}

} // verus!
