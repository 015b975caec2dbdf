//! The rolling cache's decisions: which entry a play is served from, where a new fetch goes,
//! which entries eviction removes, and what reconciliation drops. The filesystem work around
//! them (existence checks, deletions, walking `tracks/`) is the caller's.
use crate::cache::layout::{CacheKey, CacheKeyView};
use crate::cache::manifest::{
    count_false, keep_where, key_index, sum_bytes, touched, completed, upsert, without_key, Manifest,
    ManifestEntry, ManifestView,
};
use crate::clock::{duration_as_nanos, duration_nanos, timestamp_as_nanosecond, timestamp_nanos};
use crate::fspath::{
    file_name_of, file_name_text, join_str, joined, path_join, paths_equal, same_path, spec_suffixed,
    suffixed,
};
use crate::msort::{
    iota, is_permutation, lemma_msort_permutation, msort_by, skey_le, sort_indices_by_signed_keys,
};
use crate::text::{chars_of, decimal_string};
use jiff::Timestamp;
use std::path::PathBuf;
use std::time::Duration;
use vstd::prelude::*;

verus! {

/// What reconciliation did.
#[derive(Debug, Clone, Copy, Default, PartialEq, Eq, Structural)]
pub struct ReconcileReport {
    pub dropped_rows: usize,
    pub deleted_orphan_files: usize,
    pub deleted_stale_parts: usize,
    pub reclaimed_bytes: u64,
}

/// What reconciliation does with one file found under `tracks/`.
#[derive(Debug, Clone, Copy, PartialEq, Eq, Structural)]
pub enum FileVerdict {
    /// Leave it: an in-progress download, or a file the index knows.
    Keep,
    /// A `.part` older than a day: an abandoned download, deleted.
    StalePart,
    /// A file no row points at, deleted.
    Orphan,
}

impl ReconcileReport {
    /// Counts one file's verdict, and its size when it is deleted.
    pub fn record(&mut self, verdict: FileVerdict, bytes: u64)
        requires
            old(self).deleted_stale_parts < usize::MAX,
            old(self).deleted_orphan_files < usize::MAX,
            old(self).reclaimed_bytes + bytes <= u64::MAX,
        ensures
            *final(self) == match verdict {
                FileVerdict::Keep => *old(self),
                FileVerdict::StalePart => ReconcileReport {
                    deleted_stale_parts: (old(self).deleted_stale_parts + 1) as usize,
                    reclaimed_bytes: (old(self).reclaimed_bytes + bytes) as u64,
                    ..*old(self)
                },
                FileVerdict::Orphan => ReconcileReport {
                    deleted_orphan_files: (old(self).deleted_orphan_files + 1) as usize,
                    reclaimed_bytes: (old(self).reclaimed_bytes + bytes) as u64,
                    ..*old(self)
                },
            },
    {
        match verdict {
            FileVerdict::Keep => {},
            FileVerdict::StalePart => {
                self.deleted_stale_parts = self.deleted_stale_parts + 1;
                self.reclaimed_bytes = self.reclaimed_bytes + bytes;
            },
            FileVerdict::Orphan => {
                self.deleted_orphan_files = self.deleted_orphan_files + 1;
                self.reclaimed_bytes = self.reclaimed_bytes + bytes;
            },
        }
    }
}

/// What a manifest becomes after an access to `k` at `now` (nothing changes in read-only mode).
pub open spec fn after_touch(m: ManifestView, k: CacheKeyView, now: Timestamp) -> ManifestView {
    if m.read_only {
        m
    } else {
        ManifestView { rows: touched(m.rows, k, now), read_only: false, dirty: true }
    }
}

/// What a manifest becomes after writing `e`.
pub open spec fn after_insert(m: ManifestView, e: ManifestEntry) -> ManifestView {
    if m.read_only {
        m
    } else {
        ManifestView { rows: upsert(m.rows, e), read_only: false, dirty: true }
    }
}

/// What a manifest becomes after dropping the row for `k`.
pub open spec fn after_remove(m: ManifestView, k: CacheKeyView) -> ManifestView {
    if m.read_only {
        m
    } else {
        ManifestView {
            rows: without_key(m.rows, k),
            read_only: false,
            dirty: m.dirty || key_index(m.rows, k) is Some,
        }
    }
}

/// What a manifest becomes after the fetch of `k` finished with `bytes` at `now`.
pub open spec fn after_complete(m: ManifestView, k: CacheKeyView, bytes: u64, now: Timestamp) -> ManifestView {
    if m.read_only {
        m
    } else {
        ManifestView { rows: completed(m.rows, k, bytes, now), read_only: false, dirty: true }
    }
}

/// `e` is the row a new fetch of `k` into `p` starts with at `now`.
pub open spec fn pending_row(e: ManifestEntry, k: CacheKeyView, p: PathBuf, now: Timestamp) -> bool {
    &&& e.key@ == k
    &&& e.path == p
    &&& e.bytes == 0
    &&& e.created_at == now
    &&& e.last_access == now
    &&& !e.complete
    &&& e.duration_secs is None
}

/// Some other key's row already points at `p`.
pub open spec fn taken_by_other(rows: Seq<ManifestEntry>, k: CacheKeyView, p: PathBuf) -> bool {
    exists|i: int| 0 <= i < rows.len() && same_path(#[trigger] rows[i].path, p) && rows[i].key@ != k
}

/// The first of `proposed (n)`, `proposed (n + 1)`, .. `proposed (99)` no other key's row
/// points at; `proposed` itself when every one is taken.
pub open spec fn first_free_suffix(rows: Seq<ManifestEntry>, k: CacheKeyView, proposed: PathBuf, n: int) -> PathBuf
    decreases 100 - n,
{
    if n > 99 || n < 2 {
        proposed
    } else if !taken_by_other(rows, k, spec_suffixed(proposed, decimal_string(n as nat))) {
        spec_suffixed(proposed, decimal_string(n as nat))
    } else {
        first_free_suffix(rows, k, proposed, n + 1)
    }
}

/// Where a new fetch of `k` goes when `proposed` is the path it would like.
pub open spec fn fetch_path(rows: Seq<ManifestEntry>, k: CacheKeyView, proposed: PathBuf) -> PathBuf {
    if taken_by_other(rows, k, proposed) {
        first_free_suffix(rows, k, proposed, 2)
    } else {
        proposed
    }
}

proof fn lemma_first_free_suffix(rows: Seq<ManifestEntry>, k: CacheKeyView, proposed: PathBuf, n: int)
    requires
        2 <= n <= 100,
    ensures
        !taken_by_other(rows, k, first_free_suffix(rows, k, proposed, n))
            || (first_free_suffix(rows, k, proposed, n) == proposed && forall|m: int| n <= m <= 99
                ==> taken_by_other(rows, k, #[trigger] spec_suffixed(proposed, decimal_string(m as nat)))),
    decreases 100 - n,
{
    if n <= 99 && taken_by_other(rows, k, spec_suffixed(proposed, decimal_string(n as nat))) {
        lemma_first_free_suffix(rows, k, proposed, n + 1);
        let r = first_free_suffix(rows, k, proposed, n + 1);
        if taken_by_other(rows, k, r) {
            assert forall|m: int| n <= m <= 99 implies taken_by_other(rows, k, #[trigger] spec_suffixed(proposed, decimal_string(m as nat))) by {
                if m > n {
                    assert(n + 1 <= m <= 99);
                }
            }
        }
    }
}

/// A new fetch never lands on a path another key's row holds, unless `proposed` and every one
/// of its numbered variants ` (2)` .. ` (99)` are all taken, when it falls back to `proposed`.
pub proof fn lemma_fetch_path_free(rows: Seq<ManifestEntry>, k: CacheKeyView, proposed: PathBuf)
    ensures
        !taken_by_other(rows, k, fetch_path(rows, k, proposed))
            || (fetch_path(rows, k, proposed) == proposed && taken_by_other(rows, k, proposed)
                && forall|m: int| 2 <= m <= 99
                ==> taken_by_other(rows, k, #[trigger] spec_suffixed(proposed, decimal_string(m as nat)))),
{
    if taken_by_other(rows, k, proposed) {
        lemma_first_free_suffix(rows, k, proposed, 2);
    }
}

/// The signed sort keys of the rows: their last access, in nanoseconds.
pub open spec fn access_keys(rows: Seq<ManifestEntry>) -> Seq<i128> {
    Seq::new(rows.len(), |i: int| timestamp_nanos(rows[i].last_access) as i128)
}

/// The rows' indices, least recently accessed first (ties keep the index order).
pub open spec fn lru_order(rows: Seq<ManifestEntry>) -> Seq<usize> {
    msort_by(iota(rows.len()), skey_le(access_keys(rows)))
}

/// `k` is one of the protected keys (the playing and preloaded tracks).
pub open spec fn is_protected(protected: Seq<CacheKey>, k: CacheKeyView) -> bool {
    exists|j: int| 0 <= j < protected.len() && #[trigger] protected[j]@ == k
}

/// Row `i` may be evicted: it is complete and not protected.
pub open spec fn evictable(rows: Seq<ManifestEntry>, protected: Seq<CacheKey>, i: int) -> bool {
    rows[i].complete && !is_protected(protected, rows[i].key@)
}

/// Walking `order` with `remaining` bytes still cached: stop once at or under `target`;
/// skip rows that may not go or whose path escapes the tracks root; take the rest.
pub open spec fn evict_walk(
    rows: Seq<ManifestEntry>,
    protected: Seq<CacheKey>,
    escapes: Seq<bool>,
    order: Seq<usize>,
    remaining: int,
    target: int,
) -> Seq<usize>
    decreases order.len(),
{
    if order.len() == 0 || remaining <= target {
        Seq::empty()
    } else {
        let c = order[0] as int;
        if !evictable(rows, protected, c) || escapes[c] {
            evict_walk(rows, protected, escapes, order.drop_first(), remaining, target)
        } else {
            let left = if remaining >= rows[c].bytes { remaining - rows[c].bytes } else { 0 };
            seq![order[0]] + evict_walk(rows, protected, escapes, order.drop_first(), left, target)
        }
    }
}

/// The rows eviction removes, in order: none when the cache is within `limit`; otherwise the
/// least recently accessed complete, unprotected rows until at most `target` bytes remain.
pub open spec fn eviction_victims(
    rows: Seq<ManifestEntry>,
    protected: Seq<CacheKey>,
    escapes: Seq<bool>,
    limit: u64,
    target: u64,
) -> Seq<usize> {
    if sum_bytes(rows) <= limit {
        Seq::empty()
    } else {
        evict_walk(rows, protected, escapes, lru_order(rows), sum_bytes(rows) as int, target as int)
    }
}

/// The bytes of the rows at `idx`.
pub open spec fn bytes_at(rows: Seq<ManifestEntry>, idx: Seq<usize>) -> nat
    decreases idx.len(),
{
    if idx.len() == 0 {
        0
    } else {
        bytes_at(rows, idx.drop_last()) + rows[idx.last() as int].bytes as nat
    }
}

/// The bytes of the rows whose mask flag is set.
pub open spec fn sum_masked(rows: Seq<ManifestEntry>, mask: Seq<bool>) -> nat
    decreases rows.len(),
{
    if rows.len() == 0 {
        0
    } else {
        sum_masked(rows.drop_last(), mask.take(rows.len() - 1))
            + if mask[rows.len() - 1] { rows.last().bytes as nat } else { 0nat }
    }
}

proof fn lemma_sum_masked_le(rows: Seq<ManifestEntry>, mask: Seq<bool>)
    requires
        mask.len() == rows.len(),
    ensures
        sum_masked(rows, mask) <= sum_bytes(rows),
    decreases rows.len(),
{
    if rows.len() > 0 {
        lemma_sum_masked_le(rows.drop_last(), mask.take(rows.len() - 1));
    }
}

proof fn lemma_sum_masked_set(rows: Seq<ManifestEntry>, mask: Seq<bool>, c: int)
    requires
        mask.len() == rows.len(),
        0 <= c < rows.len(),
        !mask[c],
    ensures
        sum_masked(rows, mask.update(c, true)) == sum_masked(rows, mask) + rows[c].bytes,
    decreases rows.len(),
{
    let n = rows.len();
    let m2 = mask.update(c, true);
    if c == n - 1 {
        assert(m2.take(n - 1) =~= mask.take(n - 1));
    } else {
        assert(m2.take(n - 1) =~= mask.take(n - 1).update(c, true));
        lemma_sum_masked_set(rows.drop_last(), mask.take(n - 1), c);
    }
}

proof fn lemma_sum_masked_none(rows: Seq<ManifestEntry>, n: nat)
    requires
        n == rows.len(),
    ensures
        sum_masked(rows, Seq::new(n, |i: int| false)) == 0,
    decreases rows.len(),
{
    if rows.len() > 0 {
        assert(Seq::new(n, |i: int| false).take(n - 1) =~= Seq::new((n - 1) as nat, |i: int| false));
        lemma_sum_masked_none(rows.drop_last(), (n - 1) as nat);
    }
}

/// What eviction is to do.
pub struct EvictionPlan {
    /// Whether the cache is over its limit at all; if not, nothing happens, not even a write
    /// of the index.
    pub over_limit: bool,
    /// The rows to delete, by index into the manifest's rows, in order.
    pub victims: Vec<usize>,
    /// Their bytes together.
    pub reclaimed: u64,
}

/// The rolling cache as plain values.
pub struct RollingCacheView {
    pub manifest: ManifestView,
    pub tracks_root: PathBuf,
}

/// The `tracks/` tier: its index and its root directory.
pub struct RollingCache {
    manifest: Manifest,
    tracks_root: PathBuf,
}

impl View for RollingCache {
    type V = RollingCacheView;

    closed spec fn view(&self) -> RollingCacheView {
        RollingCacheView { manifest: self.manifest@, tracks_root: self.tracks_root }
    }
}

/// The text ends with `.part`.
pub open spec fn is_part_name(name: Seq<char>) -> bool {
    name.len() >= 5 && name.subrange(name.len() - 5, name.len() as int) == ".part"@
}

/// A day, in nanoseconds: a `.part` older than this is an abandoned download.
pub open spec fn stale_part_nanos() -> nat {
    86_400_000_000_000
}

/// What reconciliation does with the file at `path`, `age` old.
pub open spec fn file_verdict(rows: Seq<ManifestEntry>, path: PathBuf, age: Duration) -> FileVerdict {
    let name = match file_name_of(path) {
        Some(n) => n,
        None => Seq::empty(),
    };
    if is_part_name(name) {
        if duration_nanos(age) > stale_part_nanos() {
            FileVerdict::StalePart
        } else {
            FileVerdict::Keep
        }
    } else if exists|i: int| 0 <= i < rows.len() && same_path(#[trigger] rows[i].path, path) {
        FileVerdict::Keep
    } else {
        FileVerdict::Orphan
    }
}

fn ends_with_part(name: &str) -> (r: bool)
    ensures
        r == is_part_name(name@),
{
    let c = chars_of(name);
    let n = c.len();
    if n < 5 {
        return false;
    }
    let suffix = chars_of(".part");
    proof { reveal_strlit(".part"); }
    let mut i: usize = 0;
    while i < 5
        invariant
            i <= 5,
            n == c@.len(),
            c@ == name@,
            n >= 5,
            suffix@ == ".part"@,
            suffix@.len() == 5,
            forall|j: int| 0 <= j < i ==> c@[n - 5 + j] == suffix@[j],
        decreases 5 - i,
    {
        if c[n - 5 + i] != suffix[i] {
            assert(c@.subrange(n - 5, n as int)[i as int] != ".part"@[i as int]);
            assert(c@.subrange(n - 5, n as int) != ".part"@);
            return false;
        }
        i = i + 1;
    }
    assert(c@.subrange(n - 5, n as int) =~= ".part"@);
    true
}

impl RollingCache {
    /// The cache over `manifest`, with its files under `tracks_root`.
    pub fn new(manifest: Manifest, tracks_root: PathBuf) -> (c: RollingCache)
        ensures
            c@ == (RollingCacheView { manifest: manifest@, tracks_root: tracks_root }),
    {
        RollingCache { manifest, tracks_root }
    }

    /// The index.
    pub fn manifest(&self) -> (r: &Manifest)
        ensures
            r@ == self@.manifest,
    {
        &self.manifest
    }

    /// Where the cached files live.
    pub fn tracks_root(&self) -> (r: &PathBuf)
        ensures
            *r == self@.tracks_root,
    {
        &self.tracks_root
    }

    /// The bytes of every cached file together.
    pub fn total_bytes(&self) -> (r: u64)
        requires
            sum_bytes(self@.manifest.rows) <= u64::MAX,
        ensures
            r == sum_bytes(self@.manifest.rows),
    {
        self.manifest.total_bytes()
    }

    /// Where a file at `relative` (below the tracks root) would live.
    pub fn path_for(&self, relative: &PathBuf) -> (p: PathBuf)
        ensures
            p == joined(self@.tracks_root, *relative),
    {
        path_join(&self.tracks_root, relative)
    }

    /// The play-time decision: the file for `key` when its row is complete and the file is
    /// still there (`present`, which the caller checked at the row's path), touching its last
    /// access; otherwise nothing, and nothing changes.
    pub fn resolve(&mut self, key: &CacheKey, present: bool, now: Timestamp) -> (r: Option<PathBuf>)
        ensures
            final(self)@.tracks_root == old(self)@.tracks_root,
            match key_index(old(self)@.manifest.rows, key@) {
                Some(i) => if old(self)@.manifest.rows[i].complete && present {
                    r == Some(old(self)@.manifest.rows[i].path)
                        && final(self)@.manifest == after_touch(old(self)@.manifest, key@, now)
                } else {
                    r is None && final(self)@ == old(self)@
                },
                None => r is None && final(self)@ == old(self)@,
            },
    {
        let path = match self.manifest.get(key) {
            Some(e) => if e.complete && present {
                e.path.clone()
            } else {
                return None;
            },
            None => {
                return None;
            },
        };
        self.manifest.touch(key, now);
        Some(path)
    }

    /// Registers a fetch of `key` that wants the file at `relative` below the tracks root: an
    /// incomplete row at a path no other key's row holds (` (2)` .. ` (99)` added when needed).
    /// A key that already has a row keeps it and its path.
    pub fn begin_fetch(&mut self, key: &CacheKey, relative: &PathBuf, now: Timestamp) -> (p: PathBuf)
        ensures
            final(self)@.tracks_root == old(self)@.tracks_root,
            match key_index(old(self)@.manifest.rows, key@) {
                Some(i) => p == old(self)@.manifest.rows[i].path && final(self)@ == old(self)@,
                None => {
                    &&& p == fetch_path(old(self)@.manifest.rows, key@, joined(old(self)@.tracks_root, *relative))
                    &&& exists|e: ManifestEntry| pending_row(e, key@, p, now)
                        && final(self)@.manifest == after_insert(old(self)@.manifest, e)
                },
            },
    {
        match self.manifest.get(key) {
            Some(e) => {
                return e.path.clone();
            },
            None => {},
        }
        let proposed = self.path_for(relative);
        let path = if self.taken_by_other(key, &proposed) {
            let mut n: u32 = 2;
            let mut found: Option<PathBuf> = None;
            while n <= 99 && found.is_none()
                invariant
                    2 <= n <= 100,
                    taken_by_other(self@.manifest.rows, key@, proposed),
                    found is None ==> first_free_suffix(self@.manifest.rows, key@, proposed, 2)
                        == first_free_suffix(self@.manifest.rows, key@, proposed, n as int),
                    found matches Some(f) ==> f == first_free_suffix(self@.manifest.rows, key@, proposed, 2),
                decreases 100 - n + (if found is None { 1int } else { 0int }),
            {
                let candidate = suffixed(&proposed, n);
                if !self.taken_by_other(key, &candidate) {
                    assert(first_free_suffix(self@.manifest.rows, key@, proposed, n as int) == candidate);
                    found = Some(candidate);
                } else {
                    n = n + 1;
                }
            }
            match found {
                Some(f) => f,
                None => proposed,
            }
        } else {
            proposed
        };
        let entry = ManifestEntry {
            key: key.duplicate(),
            path: path.clone(),
            bytes: 0,
            created_at: now,
            last_access: now,
            complete: false,
            duration_secs: None,
        };
        assert(pending_row(entry, key@, path, now));
        self.manifest.insert(entry);
        path
    }

    fn taken_by_other(&self, key: &CacheKey, candidate: &PathBuf) -> (r: bool)
        ensures
            r == taken_by_other(self@.manifest.rows, key@, *candidate),
    {
        let rows = self.manifest.entries();
        let mut i: usize = 0;
        while i < rows.len()
            invariant
                i <= rows@.len(),
                rows@ == self@.manifest.rows,
                forall|j: int| 0 <= j < i ==> !(same_path(#[trigger] rows@[j].path, *candidate) && rows@[j].key@ != key@),
            decreases rows@.len() - i,
        {
            if paths_equal(&rows[i].path, candidate) && !rows[i].key.same(key) {
                return true;
            }
            i = i + 1;
        }
        false
    }

    /// The fetch of `key` finished with `bytes`: its row becomes complete. (Whether the index
    /// is then due to be written is `Manifest::flush_due`.)
    pub fn complete_fetch(&mut self, key: &CacheKey, bytes: u64, now: Timestamp)
        ensures
            final(self)@.tracks_root == old(self)@.tracks_root,
            final(self)@.manifest == after_complete(old(self)@.manifest, key@, bytes, now),
    {
        self.manifest.mark_complete(key, bytes, now);
    }

    /// The fetch of `key` failed or was cancelled: its row goes (its `.part` stays on disk for a
    /// later resume).
    pub fn abandon_fetch(&mut self, key: &CacheKey)
        ensures
            final(self)@.tracks_root == old(self)@.tracks_root,
            final(self)@.manifest == after_remove(old(self)@.manifest, key@),
    {
        let _ = self.manifest.remove(key);
    }

    /// Which rows eviction removes to bring the cache from over `limit` down to `target`
    /// bytes: complete, unprotected rows, least recently accessed first, skipping any whose
    /// path escapes the tracks root (`escapes`, row by row, as the caller checked it).
    pub fn eviction_plan(&self, limit: u64, target: u64, protected: &Vec<CacheKey>, escapes: &Vec<bool>) -> (plan: EvictionPlan)
        requires
            escapes@.len() == self@.manifest.rows.len(),
            sum_bytes(self@.manifest.rows) <= u64::MAX,
        ensures
            plan.over_limit == (sum_bytes(self@.manifest.rows) > limit),
            plan.victims@ == eviction_victims(self@.manifest.rows, protected@, escapes@, limit, target),
            plan.reclaimed == bytes_at(self@.manifest.rows, plan.victims@),
    {
        let rows = self.manifest.entries();
        let total = self.manifest.total_bytes();
        if total <= limit {
            return EvictionPlan { over_limit: false, victims: Vec::new(), reclaimed: 0 };
        }
        let n = rows.len();
        let mut keys: Vec<i128> = Vec::new();
        let mut i: usize = 0;
        while i < n
            invariant
                n == rows@.len(),
                i <= n,
                keys@ =~= access_keys(rows@).take(i as int),
            decreases n - i,
        {
            let k = timestamp_as_nanosecond(&rows[i].last_access);
            keys.push(k);
            i = i + 1;
        }
        proof { assert(keys@ =~= access_keys(rows@)); }
        let order = sort_indices_by_signed_keys(&keys);
        proof { lemma_msort_permutation(n as nat, skey_le(access_keys(rows@))); }
        let ghost full = order@;
        let mut victims: Vec<usize> = Vec::new();
        let mut remaining: u64 = total;
        let mut reclaimed: u64 = 0;
        let ghost mut used: Seq<bool> = Seq::new(n as nat, |i: int| false);
        proof { lemma_sum_masked_none(rows@, n as nat); }
        let mut pos: usize = 0;
        proof { assert(full.skip(0) =~= full); }
        while pos < n && remaining > target
            invariant
                n == rows@.len(),
                n == escapes@.len(),
                full == lru_order(rows@),
                full == order@,
                is_permutation(full, n as nat),
                pos <= n,
                total == sum_bytes(rows@),
                used.len() == n,
                reclaimed == sum_masked(rows@, used),
                remaining == total - reclaimed,
                forall|x: int| 0 <= x < n && #[trigger] used[x] ==> exists|q: int| 0 <= q < pos && full[q] == x,
                victims@ + evict_walk(rows@, protected@, escapes@, full.skip(pos as int), remaining as int, target as int)
                    == evict_walk(rows@, protected@, escapes@, full, total as int, target as int),
                reclaimed == bytes_at(rows@, victims@),
            decreases n - pos,
        {
            let c = order[pos];
            let ghost old_v = victims@;
            proof {
                assert(full.skip(pos as int)[0] == c);
                assert(full.skip(pos as int).drop_first() =~= full.skip(pos as int + 1));
            }
            let e = &rows[c];
            let mut guarded = false;
            let mut j: usize = 0;
            while j < protected.len() && !guarded
                invariant
                    j <= protected@.len(),
                    !guarded ==> forall|q: int| 0 <= q < j ==> #[trigger] protected@[q]@ != e.key@,
                    guarded ==> is_protected(protected@, e.key@),
                decreases protected@.len() - j + (if guarded { 0int } else { 1int }),
            {
                if protected[j].same(&e.key) {
                    guarded = true;
                } else {
                    j = j + 1;
                }
            }
            proof {
                if !guarded {
                    assert(!is_protected(protected@, e.key@)) by {
                        if is_protected(protected@, e.key@) {
                            let q = choose|q: int| 0 <= q < protected@.len() && #[trigger] protected@[q]@ == e.key@;
                            assert(protected@[q]@ != e.key@);
                        }
                    }
                }
            }
            if !e.complete || guarded || escapes[c] {
                pos = pos + 1;
            } else {
                proof {
                    // `c` has not been taken yet: the order never repeats an index.
                    if used[c as int] {
                        let q = choose|q: int| 0 <= q < pos && full[q] == c as int;
                        assert(full[q] != full[pos as int]);
                    }
                    lemma_sum_masked_set(rows@, used, c as int);
                    lemma_sum_masked_le(rows@, used.update(c as int, true));
                }
                let b = e.bytes;
                remaining = remaining - b;
                reclaimed = reclaimed + b;
                victims.push(c);
                proof {
                    used = used.update(c as int, true);
                    assert(victims@.drop_last() =~= old_v);
                    assert(victims@.last() == c);
                    let w = evict_walk(rows@, protected@, escapes@, full.skip(pos as int + 1), remaining as int, target as int);
                    assert(old_v + (seq![c] + w) =~= victims@ + w);
                    assert forall|x: int| 0 <= x < n && #[trigger] used[x] implies exists|q: int| 0 <= q < pos + 1 && full[q] == x by {
                        if x == c as int {
                            assert(full[pos as int] == x);
                        }
                    }
                }
                pos = pos + 1;
            }
        }
        proof {
            if pos == n {
                assert(full.skip(pos as int).len() == 0);
            }
            assert(victims@ =~= victims@ + Seq::<usize>::empty());
            assert(keys@ =~= access_keys(rows@));
        }
        EvictionPlan { over_limit: true, victims, reclaimed }
    }

    /// Drops the rows whose files are gone (`present`, row by row, as the caller checked) and
    /// counts them.
    pub fn drop_missing(&mut self, present: &Vec<bool>) -> (dropped: usize)
        requires
            present@.len() == old(self)@.manifest.rows.len(),
        ensures
            final(self)@.tracks_root == old(self)@.tracks_root,
            dropped == count_false(present@),
            old(self)@.manifest.read_only ==> final(self)@.manifest == old(self)@.manifest,
            !old(self)@.manifest.read_only ==> final(self)@.manifest == (ManifestView {
                rows: keep_where(old(self)@.manifest.rows, present@),
                read_only: false,
                dirty: old(self)@.manifest.dirty || dropped > 0,
            }),
    {
        self.manifest.drop_missing(present)
    }

    /// What reconciliation does with the file at `path`, found under `tracks/`, `age` old.
    pub fn classify_file(&self, path: &PathBuf, age: Duration) -> (v: FileVerdict)
        ensures
            v == file_verdict(self@.manifest.rows, *path, age),
    {
        let name = match file_name_text(path) {
            Some(n) => n,
            None => String::new(),
        };
        assert(name@ == match file_name_of(*path) { Some(n) => n, None => Seq::<char>::empty() });
        if ends_with_part(name.as_str()) {
            if duration_as_nanos(&age) > 86_400_000_000_000 {
                return FileVerdict::StalePart;
            }
            return FileVerdict::Keep;
        }
        let rows = self.manifest.entries();
        let mut i: usize = 0;
        while i < rows.len()
            invariant
                i <= rows@.len(),
                rows@ == self@.manifest.rows,
                name@ == match file_name_of(*path) { Some(n) => n, None => Seq::<char>::empty() },
                !is_part_name(name@),
                forall|j: int| 0 <= j < i ==> !same_path(#[trigger] rows@[j].path, *path),
            decreases rows@.len() - i,
        {
            if paths_equal(&rows[i].path, path) {
                assert(same_path(rows@[i as int].path, *path));
                assert(exists|k: int| 0 <= k < self@.manifest.rows.len() && same_path(#[trigger] self@.manifest.rows[k].path, *path));
                return FileVerdict::Keep;
            }
            i = i + 1;
        }
        FileVerdict::Orphan
    }

    /// Records that the index was written.
    pub fn mark_flushed(&mut self)
        ensures
            final(self)@.tracks_root == old(self)@.tracks_root,
            final(self)@.manifest == (ManifestView { dirty: false, ..old(self)@.manifest }),
    {
        self.manifest.mark_flushed();
    }
}


proof fn lemma_walk_safe(
    rows: Seq<ManifestEntry>,
    protected: Seq<CacheKey>,
    escapes: Seq<bool>,
    order: Seq<usize>,
    remaining: int,
    target: int,
)
    requires
        escapes.len() == rows.len(),
        forall|j: int| 0 <= j < order.len() ==> (#[trigger] order[j]) < rows.len(),
        forall|i: int, j: int| 0 <= i < j < order.len() ==> order[i] != order[j],
    ensures
        forall|k: int| 0 <= k < evict_walk(rows, protected, escapes, order, remaining, target).len() ==> {
            let w = #[trigger] evict_walk(rows, protected, escapes, order, remaining, target)[k];
            &&& order.contains(w)
            &&& w < rows.len()
            &&& evictable(rows, protected, w as int)
            &&& !escapes[w as int]
        },
        forall|i: int, j: int| 0 <= i < j < evict_walk(rows, protected, escapes, order, remaining, target).len()
            ==> evict_walk(rows, protected, escapes, order, remaining, target)[i] != evict_walk(rows, protected, escapes, order, remaining, target)[j],
    decreases order.len(),
{
    if order.len() == 0 || remaining <= target {
    } else {
        let c = order[0] as int;
        let rest = order.drop_first();
        let left = if remaining >= rows[c].bytes { remaining - rows[c].bytes } else { 0 };
        assert forall|j: int| 0 <= j < rest.len() implies (#[trigger] rest[j]) < rows.len() by {
            assert(rest[j] == order[j + 1]);
        }
        assert forall|i: int, j: int| 0 <= i < j < rest.len() implies rest[i] != rest[j] by {
            assert(rest[i] == order[i + 1] && rest[j] == order[j + 1]);
        }
        if !evictable(rows, protected, c) || escapes[c] {
            lemma_walk_safe(rows, protected, escapes, rest, remaining, target);
            let w = evict_walk(rows, protected, escapes, rest, remaining, target);
            assert forall|k: int| 0 <= k < w.len() implies order.contains(#[trigger] w[k]) by {
                let j = choose|j: int| 0 <= j < rest.len() && rest[j] == w[k];
                assert(order[j + 1] == w[k]);
            }
        } else {
            lemma_walk_safe(rows, protected, escapes, rest, left, target);
            let w = evict_walk(rows, protected, escapes, rest, left, target);
            let full = evict_walk(rows, protected, escapes, order, remaining, target);
            assert(full =~= seq![order[0]] + w);
            assert forall|k: int| 0 <= k < w.len() implies order.contains(#[trigger] w[k]) && w[k] != order[0] by {
                let j = choose|j: int| 0 <= j < rest.len() && rest[j] == w[k];
                assert(order[j + 1] == w[k]);
            }
            assert(order[0] == order[0]);
            assert forall|k: int| 0 <= k < full.len() implies order.contains(#[trigger] full[k]) by {
                if k == 0 {
                    assert(order[0] == full[0]);
                } else {
                    assert(full[k] == w[k - 1]);
                }
            }
            assert forall|i: int, j: int| 0 <= i < j < full.len() implies full[i] != full[j] by {
                if i == 0 {
                    assert(full[j] == w[j - 1]);
                } else {
                    assert(full[i] == w[i - 1] && full[j] == w[j - 1]);
                }
            }
        }
    }
}

/// Eviction takes nothing while the cache is within `limit`; otherwise it takes only complete,
/// unprotected rows whose path stays under the tracks root, each at most once.
pub proof fn lemma_eviction_safe(
    rows: Seq<ManifestEntry>,
    protected: Seq<CacheKey>,
    escapes: Seq<bool>,
    limit: u64,
    target: u64,
    k: int,
)
    requires
        escapes.len() == rows.len(),
        rows.len() <= usize::MAX,
    ensures
        sum_bytes(rows) <= limit ==> eviction_victims(rows, protected, escapes, limit, target).len() == 0,
        0 <= k < eviction_victims(rows, protected, escapes, limit, target).len() ==> {
            let v = eviction_victims(rows, protected, escapes, limit, target)[k] as int;
            &&& v < rows.len()
            &&& evictable(rows, protected, v)
            &&& !escapes[v]
        },
        forall|i: int, j: int| 0 <= i < j < eviction_victims(rows, protected, escapes, limit, target).len()
            ==> eviction_victims(rows, protected, escapes, limit, target)[i] != eviction_victims(rows, protected, escapes, limit, target)[j],
{
    if sum_bytes(rows) > limit {
        let n = rows.len();
        lemma_msort_permutation(n, skey_le(access_keys(rows)));
        let order = lru_order(rows);
        lemma_walk_safe(rows, protected, escapes, order, sum_bytes(rows) as int, target as int);
        let w = eviction_victims(rows, protected, escapes, limit, target);
        if 0 <= k < w.len() {
            assert(w[k] == evict_walk(rows, protected, escapes, order, sum_bytes(rows) as int, target as int)[k]);
        }
    }
}

} // verus!
