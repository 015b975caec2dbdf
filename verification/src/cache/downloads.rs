//! Permanent downloads: the index of pinned tracks, and the decisions around a batch of
//! fetches (what each outcome does to the index, which album directories get a cover, when the
//! user is told the disk is full). The fetching, the files and the index file are the caller's.
use crate::config::schema::QualityProfile;
use crate::fspath::{
    extension_of, file_name_of, file_name_text, has_prefix, path_starts_with, paths_equal, same_path,
};
use crate::model::ids::ItemId;
use crate::text::{chars_of, str_eq};
use jiff::Timestamp;
use std::path::PathBuf;
use vstd::prelude::*;

verus! {

/// One pinned track: where its audio and its sidecar live, and whether its fetch finished.
#[derive(Debug)]
pub struct DownloadEntry {
    pub item: ItemId,
    pub path: PathBuf,
    pub profile: QualityProfile,
    pub bytes: u64,
    pub downloaded_at: Option<Timestamp>,
    pub sidecar: PathBuf,
    pub complete: bool,
}

/// No two rows are for the same item.
pub open spec fn items_distinct(rows: Seq<DownloadEntry>) -> bool {
    forall|i: int, j: int|
        0 <= i < rows.len() && 0 <= j < rows.len() && i != j ==> #[trigger] rows[i].item@ != #[trigger] rows[j].item@
}

/// Where the row for `item` sits, if there is one.
pub open spec fn item_index(rows: Seq<DownloadEntry>, item: Seq<char>) -> Option<int> {
    if exists|i: int| 0 <= i < rows.len() && #[trigger] rows[i].item@ == item {
        Some(choose|i: int| 0 <= i < rows.len() && #[trigger] rows[i].item@ == item)
    } else {
        None
    }
}

/// The rows after writing `e` over the row for its item, or adding it at the end.
pub open spec fn put_row(rows: Seq<DownloadEntry>, e: DownloadEntry) -> Seq<DownloadEntry> {
    match item_index(rows, e.item@) {
        Some(i) => rows.update(i, e),
        None => rows.push(e),
    }
}

/// The rows after writing each of `input` in turn.
pub open spec fn put_all(input: Seq<DownloadEntry>) -> Seq<DownloadEntry>
    decreases input.len(),
{
    if input.len() == 0 {
        Seq::empty()
    } else {
        put_row(put_all(input.drop_last()), input.last())
    }
}

/// The bytes of all rows together.
pub open spec fn download_bytes(rows: Seq<DownloadEntry>) -> nat
    decreases rows.len(),
{
    if rows.len() == 0 {
        0
    } else {
        download_bytes(rows.drop_last()) + rows.last().bytes as nat
    }
}

/// The row a track starts with when it is queued for download.
pub open spec fn queued_row(e: DownloadEntry, item: Seq<char>, path: PathBuf, sidecar: PathBuf, profile: QualityProfile) -> bool {
    &&& e.item@ == item
    &&& e.path == path
    &&& e.sidecar == sidecar
    &&& e.profile == profile
    &&& e.bytes == 0
    &&& e.downloaded_at is None
    &&& !e.complete
}

/// The rows after the fetch of `item` finished with `bytes` at `now`.
pub open spec fn finished(rows: Seq<DownloadEntry>, item: Seq<char>, bytes: u64, now: Timestamp) -> Seq<DownloadEntry> {
    match item_index(rows, item) {
        Some(i) => rows.update(i, DownloadEntry { bytes: bytes, complete: true, downloaded_at: Some(now), ..rows[i] }),
        None => rows,
    }
}

proof fn lemma_item_index_at(rows: Seq<DownloadEntry>, i: int)
    requires
        items_distinct(rows),
        0 <= i < rows.len(),
    ensures
        item_index(rows, rows[i].item@) == Some(i),
{
    let k = rows[i].item@;
    assert(rows[i].item@ == k);
    let j = choose|j: int| 0 <= j < rows.len() && #[trigger] rows[j].item@ == k;
    if j != i {
        assert(rows[i].item@ != rows[j].item@);
    }
}

proof fn lemma_put_distinct(rows: Seq<DownloadEntry>, e: DownloadEntry)
    requires
        items_distinct(rows),
    ensures
        items_distinct(put_row(rows, e)),
{
    let r = put_row(rows, e);
    match item_index(rows, e.item@) {
        Some(i) => {
            assert forall|a: int, b: int| 0 <= a < r.len() && 0 <= b < r.len() && a != b
                implies #[trigger] r[a].item@ != #[trigger] r[b].item@ by {
                if a == i {
                    assert(rows[b].item@ != rows[i].item@);
                } else if b == i {
                    assert(rows[a].item@ != rows[i].item@);
                } else {
                    assert(rows[a].item@ != rows[b].item@);
                }
            }
        },
        None => {
            assert forall|a: int, b: int| 0 <= a < r.len() && 0 <= b < r.len() && a != b
                implies #[trigger] r[a].item@ != #[trigger] r[b].item@ by {
                if a == rows.len() {
                    assert(rows[b].item@ != e.item@);
                } else if b == rows.len() {
                    assert(rows[a].item@ != e.item@);
                } else {
                    assert(rows[a].item@ != rows[b].item@);
                }
            }
        },
    }
}

proof fn lemma_remove_item_distinct(rows: Seq<DownloadEntry>, i: int)
    requires
        items_distinct(rows),
        0 <= i < rows.len(),
    ensures
        items_distinct(rows.remove(i)),
{
    let r = rows.remove(i);
    assert forall|a: int, b: int| 0 <= a < r.len() && 0 <= b < r.len() && a != b
        implies #[trigger] r[a].item@ != #[trigger] r[b].item@ by {
        let a2 = if a < i { a } else { a + 1 };
        let b2 = if b < i { b } else { b + 1 };
        assert(rows[a2].item@ != rows[b2].item@);
    }
}

proof fn lemma_update_item_distinct(rows: Seq<DownloadEntry>, i: int, e: DownloadEntry)
    requires
        items_distinct(rows),
        0 <= i < rows.len(),
        e.item == rows[i].item,
    ensures
        items_distinct(rows.update(i, e)),
{
    let r = rows.update(i, e);
    assert forall|a: int, b: int| 0 <= a < r.len() && 0 <= b < r.len() && a != b
        implies #[trigger] r[a].item@ != #[trigger] r[b].item@ by {
        assert(rows[a].item@ != rows[b].item@);
    }
}

proof fn lemma_download_prefix_bound(rows: Seq<DownloadEntry>, i: int)
    requires
        0 <= i <= rows.len(),
    ensures
        download_bytes(rows.take(i)) <= download_bytes(rows),
    decreases rows.len(),
{
    if i < rows.len() {
        assert(rows.drop_last().take(i) =~= rows.take(i));
        lemma_download_prefix_bound(rows.drop_last(), i);
    } else {
        assert(rows.take(i) =~= rows);
    }
}

/// The bytes of the rows together, and how many there are: the numbers shown for the
/// downloads tier.
pub fn stats_of(rows: &Vec<DownloadEntry>) -> (r: (u64, usize))
    requires
        download_bytes(rows@) <= u64::MAX,
    ensures
        r.0 == download_bytes(rows@),
        r.1 == rows@.len(),
{
    let mut total: u64 = 0;
    let mut i: usize = 0;
    while i < rows.len()
        invariant
            i <= rows@.len(),
            total == download_bytes(rows@.take(i as int)),
            download_bytes(rows@) <= u64::MAX,
        decreases rows@.len() - i,
    {
        proof {
            lemma_download_prefix_bound(rows@, i as int + 1);
            assert(rows@.take(i as int + 1).drop_last() =~= rows@.take(i as int));
        }
        total = total + rows[i].bytes;
        i = i + 1;
    }
    proof { assert(rows@.take(i as int) =~= rows@); }
    (total, rows.len())
}

/// The index of pinned tracks. Nothing here is ever evicted.
pub struct DownloadIndex {
    rows: Vec<DownloadEntry>,
}

impl View for DownloadIndex {
    type V = Seq<DownloadEntry>;

    closed spec fn view(&self) -> Seq<DownloadEntry> {
        self.rows@
    }
}

impl DownloadIndex {
    #[verifier::type_invariant]
    spec fn wf(self) -> bool {
        items_distinct(self.rows@)
    }

    /// The index holding `rows` as read from disk; a later row for an item replaces an earlier
    /// one.
    pub fn from_rows(rows: Vec<DownloadEntry>) -> (d: DownloadIndex)
        ensures
            d@ == put_all(rows@),
    {
        let mut d = DownloadIndex { rows: Vec::new() };
        let mut rest = rows;
        let ghost input = rest@;
        let n = rest.len();
        let mut reversed: Vec<DownloadEntry> = Vec::new();
        while rest.len() > 0
            invariant
                reversed@.len() + rest@.len() == input.len(),
                rest@ == input.take(rest@.len() as int),
                forall|k: int| 0 <= k < reversed@.len() ==> #[trigger] reversed@[k] == input[input.len() - 1 - k],
            decreases rest.len(),
        {
            let e = rest.pop().unwrap();
            reversed.push(e);
            assert(rest@ =~= input.take(rest@.len() as int));
        }
        let mut i: usize = 0;
        while i < n
            invariant
                n == input.len(),
                i <= n,
                reversed@.len() + i == n,
                forall|k: int| 0 <= k < reversed@.len() ==> #[trigger] reversed@[k] == input[input.len() - 1 - k],
                d@ == put_all(input.take(i as int)),
            decreases n - i,
        {
            let e = reversed.pop().unwrap();
            assert(e == input[i as int]);
            d.put(e);
            proof {
                assert(input.take(i as int + 1).drop_last() =~= input.take(i as int));
            }
            i = i + 1;
        }
        proof { assert(input.take(n as int) =~= input); }
        d
    }

    /// Every row.
    pub fn entries(&self) -> (r: &Vec<DownloadEntry>)
        ensures
            r@ == self@,
    {
        &self.rows
    }

    /// The bytes of every pinned track together.
    pub fn total_bytes(&self) -> (r: u64)
        requires
            download_bytes(self@) <= u64::MAX,
        ensures
            r == download_bytes(self@),
    {
        stats_of(&self.rows).0
    }

    fn position(&self, item: &ItemId) -> (r: Option<usize>)
        ensures
            r matches Some(i) ==> item_index(self@, item@) == Some(i as int) && i < self@.len(),
            r is None ==> item_index(self@, item@) is None,
    {
        proof { use_type_invariant(self); }
        let mut i: usize = 0;
        while i < self.rows.len()
            invariant
                i <= self.rows@.len(),
                items_distinct(self.rows@),
                forall|j: int| 0 <= j < i ==> #[trigger] self.rows@[j].item@ != item@,
            decreases self.rows@.len() - i,
        {
            if self.rows[i].item.same(item) {
                proof { lemma_item_index_at(self.rows@, i as int); }
                return Some(i);
            }
            i = i + 1;
        }
        None
    }

    /// The row for `item`, if it is pinned.
    pub fn get(&self, item: &ItemId) -> (r: Option<&DownloadEntry>)
        ensures
            match item_index(self@, item@) {
                Some(i) => r == Some(&self@[i]),
                None => r is None,
            },
    {
        match self.position(item) {
            Some(i) => Some(&self.rows[i]),
            None => None,
        }
    }

    /// Writes `e` over the row for its item, or adds it.
    pub fn put(&mut self, e: DownloadEntry)
        ensures
            final(self)@ == put_row(old(self)@, e),
    {
        proof { use_type_invariant(&*self); }
        let ghost before = self.rows@;
        proof { lemma_put_distinct(before, e); }
        match self.position(&e.item) {
            Some(i) => {
                let mut rows = Vec::new();
                std::mem::swap(&mut rows, &mut self.rows);
                rows.set(i, e);
                assert(rows@ =~= before.update(i as int, e));
                self.rows = rows;
            },
            None => {
                let mut rows = Vec::new();
                std::mem::swap(&mut rows, &mut self.rows);
                rows.push(e);
                self.rows = rows;
            },
        }
    }

    /// Queues `item` for download into `path` (with its sidecar at `sidecar`): a fresh,
    /// incomplete row, replacing any earlier one.
    pub fn queue(&mut self, item: &ItemId, path: PathBuf, sidecar: PathBuf, profile: QualityProfile)
        ensures
            exists|e: DownloadEntry| queued_row(e, item@, path, sidecar, profile) && final(self)@ == put_row(old(self)@, e),
    {
        let e = DownloadEntry {
            item: ItemId::from_str(item.as_str()),
            path,
            profile,
            bytes: 0,
            downloaded_at: None,
            sidecar,
            complete: false,
        };
        assert(queued_row(e, item@, path, sidecar, profile));
        self.put(e);
    }

    /// Records that the fetch of `item` finished with `bytes` at `now`.
    pub fn record_done(&mut self, item: &ItemId, bytes: u64, now: Timestamp)
        ensures
            final(self)@ == finished(old(self)@, item@, bytes, now),
    {
        proof { use_type_invariant(&*self); }
        let ghost before = self.rows@;
        match self.position(item) {
            Some(i) => {
                let mut rows = Vec::new();
                std::mem::swap(&mut rows, &mut self.rows);
                let mut e = rows.remove(i);
                e.bytes = bytes;
                e.complete = true;
                e.downloaded_at = Some(now);
                rows.insert(i, e);
                proof {
                    lemma_update_item_distinct(before, i as int, e);
                    assert(rows@ =~= before.update(i as int, e));
                }
                self.rows = rows;
            },
            None => {},
        }
    }

    /// Unpins `item`: its row goes and is handed back.
    pub fn remove(&mut self, item: &ItemId) -> (r: Option<DownloadEntry>)
        ensures
            match item_index(old(self)@, item@) {
                Some(i) => r == Some(old(self)@[i]) && final(self)@ == old(self)@.remove(i),
                None => r is None && final(self)@ == old(self)@,
            },
    {
        proof { use_type_invariant(&*self); }
        match self.position(item) {
            Some(i) => {
                let ghost before = self.rows@;
                proof { lemma_remove_item_distinct(before, i as int); }
                let mut rows = Vec::new();
                std::mem::swap(&mut rows, &mut self.rows);
                let e = rows.remove(i);
                self.rows = rows;
                Some(e)
            },
            None => None,
        }
    }

    /// The rows a previous run left unfinished, by index: what a resume fetches again.
    pub fn incomplete(&self) -> (r: Vec<usize>)
        ensures
            forall|k: int| 0 <= k < r@.len() ==> r@[k] < self@.len() && !self@[r@[k] as int].complete,
            forall|i: int| 0 <= i < self@.len() && !self@[i].complete ==> r@.contains(i as usize),
            forall|a: int, b: int| 0 <= a < b < r@.len() ==> r@[a] < r@[b],
    {
        let mut r: Vec<usize> = Vec::new();
        let mut i: usize = 0;
        while i < self.rows.len()
            invariant
                i <= self.rows@.len(),
                forall|k: int| 0 <= k < r@.len() ==> r@[k] < i && !self.rows@[r@[k] as int].complete,
                forall|j: int| 0 <= j < i && !self.rows@[j].complete ==> r@.contains(j as usize),
                forall|a: int, b: int| 0 <= a < b < r@.len() ==> r@[a] < r@[b],
            decreases self.rows@.len() - i,
        {
            let ghost old_r = r@;
            if !self.rows[i].complete {
                r.push(i);
                assert(r@[r@.len() - 1] == i);
            }
            proof {
                assert forall|j: int| 0 <= j < i + 1 && !self.rows@[j].complete implies r@.contains(j as usize) by {
                    if j < i {
                        let w = choose|w: int| 0 <= w < old_r.len() && old_r[w] == j as usize;
                        assert(r@[w] == j as usize);
                    } else {
                        assert(r@[r@.len() - 1] == i);
                    }
                }
            }
            i = i + 1;
        }
        r
    }
}

/// What one track's fetch came to.
#[derive(Debug, Clone, Copy, PartialEq, Eq, Structural)]
pub enum FetchOutcome {
    /// Fetched and moved into place: this many bytes.
    Done(u64),
    /// Never tried: the batch had already stopped.
    Skipped,
    /// Failed; `storage_full` when the disk is full, which stops the batch.
    Failed { storage_full: bool },
}

/// One track of a batch, as the caller reports it back.
pub struct FetchReport {
    pub item: ItemId,
    /// The directory the track's file went to.
    pub dir: Option<PathBuf>,
    /// The track's album, if it has one.
    pub album: Option<ItemId>,
    pub outcome: FetchOutcome,
}

/// Whether a batch may start its next fetch, given whether a full disk was already seen and
/// how the fetch just finished: once the disk is found full, every later fetch of the batch is
/// skipped (and left queued for a later resume).
pub fn next_fetch_allowed(disk_full_seen: bool, outcome: &FetchOutcome) -> (r: bool)
    ensures
        r == !(disk_full_seen || *outcome == (FetchOutcome::Failed { storage_full: true })),
{
    if disk_full_seen {
        return false;
    }
    match outcome {
        FetchOutcome::Failed { storage_full } => !*storage_full,
        _ => true,
    }
}

/// Report `k` is the first finished one in its directory.
pub open spec fn first_done_in_dir(reports: Seq<FetchReport>, k: int) -> bool {
    &&& reports[k].outcome is Done
    &&& reports[k].dir is Some
    &&& forall|j: int| 0 <= j < k && (#[trigger] reports[j]).outcome is Done && reports[j].dir is Some
        ==> !same_path(reports[j].dir->0, reports[k].dir->0)
}

/// Report `k` calls for its album's cover: the first finished track in its directory, with an
/// album.
pub open spec fn wants_cover(reports: Seq<FetchReport>, k: int) -> bool {
    first_done_in_dir(reports, k) && reports[k].album is Some
}

/// The index after applying each finished report in turn.
pub open spec fn settle_rows(rows: Seq<DownloadEntry>, reports: Seq<FetchReport>, now: Timestamp) -> Seq<DownloadEntry>
    decreases reports.len(),
{
    if reports.len() == 0 {
        rows
    } else {
        let pre = settle_rows(rows, reports.drop_last(), now);
        match reports.last().outcome {
            FetchOutcome::Done(b) => finished(pre, reports.last().item@, b, now),
            _ => pre,
        }
    }
}

/// What is left to do once a batch is in.
pub struct Settlement {
    /// The reports (by index) whose album cover is to be fetched, unless already on disk.
    pub covers: Vec<usize>,
    /// The disk filled up: the user is told once that the download paused.
    pub disk_full: bool,
}

impl DownloadIndex {
    /// Applies a batch's outcomes: each finished track's row becomes complete; the first
    /// finished track of each directory that has an album calls for that album's cover; a full
    /// disk is reported once.
    pub fn settle(&mut self, reports: &Vec<FetchReport>, now: Timestamp) -> (s: Settlement)
        ensures
            final(self)@ == settle_rows(old(self)@, reports@, now),
            forall|k: int| 0 <= k < reports@.len() ==> (#[trigger] wants_cover(reports@, k) <==> s.covers@.contains(k as usize)),
            forall|a: int, b: int| 0 <= a < b < s.covers@.len() ==> s.covers@[a] < s.covers@[b],
            s.disk_full == exists|k: int| 0 <= k < reports@.len()
                && (#[trigger] reports@[k]).outcome == (FetchOutcome::Failed { storage_full: true }),
    {
        let mut covers: Vec<usize> = Vec::new();
        let mut disk_full = false;
        let mut k: usize = 0;
        let ghost start = self@;
        while k < reports.len()
            invariant
                k <= reports@.len(),
                self@ == settle_rows(start, reports@.take(k as int), now),
                forall|q: int| 0 <= q < k ==> (#[trigger] wants_cover(reports@, q) <==> covers@.contains(q as usize)),
                forall|q: int| 0 <= q < covers@.len() ==> covers@[q] < k,
                forall|a: int, b: int| 0 <= a < b < covers@.len() ==> covers@[a] < covers@[b],
                disk_full == exists|q: int| 0 <= q < k
                    && (#[trigger] reports@[q]).outcome == (FetchOutcome::Failed { storage_full: true }),
            decreases reports@.len() - k,
        {
            let r = &reports[k];
            let ghost old_c = covers@;
            let ghost mut pushed = false;
            proof {
                assert(reports@.take(k as int + 1).drop_last() =~= reports@.take(k as int));
            }
            match r.outcome {
                FetchOutcome::Done(b) => {
                    self.record_done(&r.item, b, now);
                    match &r.dir {
                        Some(d) => {
                            let mut seen = false;
                            let mut q: usize = 0;
                            while q < k && !seen
                                invariant
                                    q <= k,
                                    k < reports@.len(),
                                    reports@[k as int].dir == Some(*d),
                                    !seen ==> forall|x: int| 0 <= x < q && (#[trigger] reports@[x]).outcome is Done
                                        && reports@[x].dir is Some ==> !same_path(reports@[x].dir->0, *d),
                                    seen ==> exists|x: int| 0 <= x < k && (#[trigger] reports@[x]).outcome is Done
                                        && reports@[x].dir is Some && same_path(reports@[x].dir->0, *d),
                                decreases k - q + (if seen { 0int } else { 1int }),
                            {
                                let other = &reports[q];
                                let done = match other.outcome {
                                    FetchOutcome::Done(_) => true,
                                    _ => false,
                                };
                                match &other.dir {
                                    Some(od) => {
                                        if done && paths_equal(od, d) {
                                            seen = true;
                                        } else {
                                            q = q + 1;
                                        }
                                    },
                                    None => {
                                        q = q + 1;
                                    },
                                }
                            }
                            proof {
                                if seen {
                                    let x = choose|x: int| 0 <= x < k && (#[trigger] reports@[x]).outcome is Done
                                        && reports@[x].dir is Some && same_path(reports@[x].dir->0, *d);
                                    assert(!first_done_in_dir(reports@, k as int));
                                } else {
                                    assert(first_done_in_dir(reports@, k as int));
                                }
                            }
                            if !seen {
                                if r.album.is_some() {
                                    covers.push(k);
                                    proof { pushed = true; }
                                }
                            }
                            assert(wants_cover(reports@, k as int) == pushed);
                        },
                        None => {
                            assert(!wants_cover(reports@, k as int));
                        },
                    }
                },
                FetchOutcome::Skipped => {
                    assert(!wants_cover(reports@, k as int));
                },
                FetchOutcome::Failed { storage_full } => {
                    assert(!wants_cover(reports@, k as int));
                    if storage_full {
                        disk_full = true;
                    }
                },
            }
            proof {
                assert(wants_cover(reports@, k as int) == pushed);
                assert(pushed ==> covers@ == old_c.push(k));
                assert(!pushed ==> covers@ == old_c);
                assert forall|q: int| 0 <= q < k + 1 implies (#[trigger] wants_cover(reports@, q) <==> covers@.contains(q as usize)) by {
                    if q < k {
                        if covers@.contains(q as usize) {
                            let w = choose|w: int| 0 <= w < covers@.len() && covers@[w] == q as usize;
                            if w < old_c.len() {
                                assert(old_c[w] == q as usize);
                            }
                        }
                        if old_c.contains(q as usize) {
                            let w = choose|w: int| 0 <= w < old_c.len() && old_c[w] == q as usize;
                            assert(covers@[w] == q as usize);
                        }
                    } else {
                        if pushed {
                            assert(covers@[covers@.len() - 1] == k);
                        } else {
                            if covers@.contains(k) {
                                let w = choose|w: int| 0 <= w < covers@.len() && covers@[w] == k;
                                assert(old_c[w] < k);
                            }
                        }
                    }
                }
            }
            k = k + 1;
        }
        proof { assert(reports@.take(k as int) =~= reports@); }
        Settlement { covers, disk_full }
    }
}

/// A directory that `prune_upward` may remove: it holds nothing, or only `cover.jpg`.
pub open spec fn only_covers(names: Seq<Option<Seq<char>>>) -> bool {
    forall|i: int| 0 <= i < names.len() ==> #[trigger] names[i] == Some("cover.jpg"@)
}

/// Whether a directory whose entries carry `names` (each entry's file name, if it has one)
/// may be pruned: it is empty or holds only the album cover.
pub fn prunable(names: &Vec<Option<String>>) -> (r: bool)
    ensures
        r == only_covers(names@.map_values(|n: Option<String>| match n { Some(s) => Some(s@), None => None })),
{
    let ghost view = names@.map_values(|n: Option<String>| match n { Some(s) => Some(s@), None => None });
    let mut i: usize = 0;
    while i < names.len()
        invariant
            i <= names@.len(),
            view == names@.map_values(|n: Option<String>| match n { Some(s) => Some(s@), None => None }),
            forall|j: int| 0 <= j < i ==> #[trigger] view[j] == Some("cover.jpg"@),
        decreases names@.len() - i,
    {
        let ok = match &names[i] {
            Some(s) => str_eq(s.as_str(), "cover.jpg"),
            None => false,
        };
        if !ok {
            assert(view[i as int] != Some("cover.jpg"@));
            return false;
        }
        i = i + 1;
    }
    true
}

/// Whether pruning climbs on to `dir`: it lies inside `root` and is not `root` itself.
pub fn prune_continues(root: &PathBuf, dir: &PathBuf) -> (r: bool)
    ensures
        r == (has_prefix(*dir, *root) && !same_path(*dir, *root)),
{
    path_starts_with(dir, root) && !paths_equal(dir, root)
}

} // verus!
