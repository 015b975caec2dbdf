//! The offline playback-report queue: reports buffered while offline, capped without ever
//! losing a `Played`, and replayed on reconnect collapsed to the latest per
//! `(item, session, kind)`. Reading and writing `scrobbles.json`, and sending, are the caller's.
use crate::clock::{timestamp_as_nanosecond, timestamp_nanos};
use crate::model::ids::{ItemId, PlaySessionId, ServerId};
use crate::model::playback::PlaybackReport;
use crate::msort::{
    iota, is_permutation, lemma_msort_permutation, lemma_msort_sorted, lemma_skey_le_total, msort_by, skey_le,
    sort_indices_by_signed_keys,
};
use jiff::Timestamp;
use vstd::prelude::*;

verus! {

/// Past this many records the buffer trims itself.
pub const MAX_RECORDS: usize = 5000;

/// One buffered report: which server it is for and when it happened.
pub struct ScrobbleRecord {
    pub server: ServerId,
    pub occurred_at: Timestamp,
    pub report: PlaybackReport,
}

/// The four kinds of report.
#[derive(Debug, Clone, Copy, PartialEq, Eq, Structural)]
pub enum ReportKind {
    Start,
    Progress,
    Stopped,
    Played,
}

/// What reports are grouped by: the item, the session (a `Played` has none), the kind.
pub open spec fn report_key(r: PlaybackReport) -> (Seq<char>, Option<Seq<char>>, ReportKind) {
    match r {
        PlaybackReport::Start { item, session } => (item@, Some(session@), ReportKind::Start),
        PlaybackReport::Progress { item, session, .. } => (item@, Some(session@), ReportKind::Progress),
        PlaybackReport::Stopped { item, session, .. } => (item@, Some(session@), ReportKind::Stopped),
        PlaybackReport::Played { item } => (item@, None, ReportKind::Played),
    }
}

/// The grouping key of record `i`.
pub open spec fn key_at(recs: Seq<ScrobbleRecord>, i: int) -> (Seq<char>, Option<Seq<char>>, ReportKind) {
    report_key(recs[i].report)
}

fn kind_of(r: &PlaybackReport) -> (k: ReportKind)
    ensures
        k == report_key(*r).2,
{
    match r {
        PlaybackReport::Start { .. } => ReportKind::Start,
        PlaybackReport::Progress { .. } => ReportKind::Progress,
        PlaybackReport::Stopped { .. } => ReportKind::Stopped,
        PlaybackReport::Played { .. } => ReportKind::Played,
    }
}

fn item_of(r: &PlaybackReport) -> (i: &ItemId)
    ensures
        i@ == report_key(*r).0,
{
    match r {
        PlaybackReport::Start { item, .. } => item,
        PlaybackReport::Progress { item, .. } => item,
        PlaybackReport::Stopped { item, .. } => item,
        PlaybackReport::Played { item } => item,
    }
}

fn session_of(r: &PlaybackReport) -> (s: Option<&PlaySessionId>)
    ensures
        match s {
            Some(x) => report_key(*r).1 == Some(x@),
            None => report_key(*r).1 is None,
        },
{
    match r {
        PlaybackReport::Start { session, .. } => Some(session),
        PlaybackReport::Progress { session, .. } => Some(session),
        PlaybackReport::Stopped { session, .. } => Some(session),
        PlaybackReport::Played { .. } => None,
    }
}

/// Whether two reports share a grouping key.
fn same_key(a: &PlaybackReport, b: &PlaybackReport) -> (r: bool)
    ensures
        r == (report_key(*a) == report_key(*b)),
{
    if kind_of(a) != kind_of(b) {
        return false;
    }
    if !item_of(a).same(item_of(b)) {
        return false;
    }
    match (session_of(a), session_of(b)) {
        (Some(x), Some(y)) => x.same(y),
        (None, None) => true,
        _ => false,
    }
}

/// The first `Progress` record, if any.
pub open spec fn first_progress(recs: Seq<ScrobbleRecord>) -> Option<int> {
    if exists|i: int| 0 <= i < recs.len() && #[trigger] key_at(recs, i).2 == ReportKind::Progress {
        Some(choose|i: int| 0 <= i < recs.len() && #[trigger] key_at(recs, i).2 == ReportKind::Progress
            && forall|j: int| 0 <= j < i ==> #[trigger] key_at(recs, j).2 != ReportKind::Progress)
    } else {
        None
    }
}

/// The first record that is not a `Played`, if any.
pub open spec fn first_unplayed(recs: Seq<ScrobbleRecord>) -> Option<int> {
    if exists|i: int| 0 <= i < recs.len() && #[trigger] key_at(recs, i).2 != ReportKind::Played {
        Some(choose|i: int| 0 <= i < recs.len() && #[trigger] key_at(recs, i).2 != ReportKind::Played
            && forall|j: int| 0 <= j < i ==> #[trigger] key_at(recs, j).2 == ReportKind::Played)
    } else {
        None
    }
}

/// Which record trimming drops next: the oldest `Progress`, else the oldest non-`Played`.
pub open spec fn next_to_drop(recs: Seq<ScrobbleRecord>) -> Option<int> {
    match first_progress(recs) {
        Some(i) => Some(i),
        None => first_unplayed(recs),
    }
}

/// The records trimmed to the cap, dropping the oldest `Progress` first, then the oldest
/// non-`Played`, and never a `Played` (so an all-`Played` buffer may stay over the cap).
pub open spec fn capped(recs: Seq<ScrobbleRecord>) -> Seq<ScrobbleRecord>
    decreases recs.len(),
{
    if recs.len() <= MAX_RECORDS {
        recs
    } else {
        match next_to_drop(recs) {
            Some(i) => if 0 <= i < recs.len() { capped(recs.remove(i)) } else { recs },
            None => recs,
        }
    }
}

/// The records that are `Played` reports.
pub open spec fn played_pred() -> spec_fn(ScrobbleRecord) -> bool {
    |r: ScrobbleRecord| r.report is Played
}

proof fn lemma_first_kind_progress(recs: Seq<ScrobbleRecord>, k: int)
    requires
        0 <= k < recs.len(),
        key_at(recs, k).2 == ReportKind::Progress,
    ensures
        exists|i: int| 0 <= i < recs.len() && #[trigger] key_at(recs, i).2 == ReportKind::Progress
            && forall|j: int| 0 <= j < i ==> #[trigger] key_at(recs, j).2 != ReportKind::Progress,
    decreases k,
{
    if exists|j: int| 0 <= j < k && #[trigger] key_at(recs, j).2 == ReportKind::Progress {
        let j = choose|j: int| 0 <= j < k && #[trigger] key_at(recs, j).2 == ReportKind::Progress;
        lemma_first_kind_progress(recs, j);
    }
}

proof fn lemma_first_kind_unplayed(recs: Seq<ScrobbleRecord>, k: int)
    requires
        0 <= k < recs.len(),
        key_at(recs, k).2 != ReportKind::Played,
    ensures
        exists|i: int| 0 <= i < recs.len() && #[trigger] key_at(recs, i).2 != ReportKind::Played
            && forall|j: int| 0 <= j < i ==> #[trigger] key_at(recs, j).2 == ReportKind::Played,
    decreases k,
{
    if exists|j: int| 0 <= j < k && #[trigger] key_at(recs, j).2 != ReportKind::Played {
        let j = choose|j: int| 0 <= j < k && #[trigger] key_at(recs, j).2 != ReportKind::Played;
        lemma_first_kind_unplayed(recs, j);
    }
}

proof fn lemma_first_progress_at(recs: Seq<ScrobbleRecord>, i: int)
    requires
        0 <= i < recs.len(),
        key_at(recs, i).2 == ReportKind::Progress,
        forall|j: int| 0 <= j < i ==> #[trigger] key_at(recs, j).2 != ReportKind::Progress,
    ensures
        first_progress(recs) == Some(i),
{
    let k = choose|k: int| 0 <= k < recs.len() && #[trigger] key_at(recs, k).2 == ReportKind::Progress
        && forall|j: int| 0 <= j < k ==> #[trigger] key_at(recs, j).2 != ReportKind::Progress;
    if k < i { assert(key_at(recs, k).2 != ReportKind::Progress); }
    if k > i { assert(key_at(recs, i).2 != ReportKind::Progress); }
}

proof fn lemma_first_unplayed_at(recs: Seq<ScrobbleRecord>, u: int)
    requires
        0 <= u < recs.len(),
        key_at(recs, u).2 != ReportKind::Played,
        forall|j: int| 0 <= j < u ==> #[trigger] key_at(recs, j).2 == ReportKind::Played,
    ensures
        first_unplayed(recs) == Some(u),
{
    let k = choose|k: int| 0 <= k < recs.len() && #[trigger] key_at(recs, k).2 != ReportKind::Played
        && forall|j: int| 0 <= j < k ==> #[trigger] key_at(recs, j).2 == ReportKind::Played;
    if k < u { assert(key_at(recs, k).2 == ReportKind::Played); }
    if k > u { assert(key_at(recs, u).2 == ReportKind::Played); }
}

/// The record trimming picks is in range and is never a `Played`; there is none only when
/// every record is a `Played`.
proof fn lemma_next_to_drop(recs: Seq<ScrobbleRecord>)
    ensures
        match next_to_drop(recs) {
            Some(i) => 0 <= i < recs.len() && key_at(recs, i).2 != ReportKind::Played,
            None => forall|i: int| 0 <= i < recs.len() ==> #[trigger] key_at(recs, i).2 == ReportKind::Played,
        },
{
    if exists|i: int| 0 <= i < recs.len() && #[trigger] key_at(recs, i).2 == ReportKind::Progress {
        let k = choose|i: int| 0 <= i < recs.len() && #[trigger] key_at(recs, i).2 == ReportKind::Progress;
        lemma_first_kind_progress(recs, k);
    } else if exists|i: int| 0 <= i < recs.len() && #[trigger] key_at(recs, i).2 != ReportKind::Played {
        let k = choose|i: int| 0 <= i < recs.len() && #[trigger] key_at(recs, i).2 != ReportKind::Played;
        lemma_first_kind_unplayed(recs, k);
    }
}

proof fn lemma_remove_unplayed_filter(s: Seq<ScrobbleRecord>, i: int)
    requires
        0 <= i < s.len(),
        !(played_pred())(s[i]),
    ensures
        s.remove(i).filter(played_pred()) == s.filter(played_pred()),
{
    let p = played_pred();
    assert(s =~= s.take(i).push(s[i]) + s.skip(i + 1));
    assert(s.remove(i) =~= s.take(i) + s.skip(i + 1));
    Seq::filter_distributes_over_add(s.take(i).push(s[i]), s.skip(i + 1), p);
    Seq::filter_distributes_over_add(s.take(i), s.skip(i + 1), p);
    s.take(i).lemma_filter_push(s[i], p);
}

/// Trimming never drops a `Played` report (they all stay, in order), and leaves at most
/// `MAX_RECORDS` records unless every record left is a `Played`.
pub proof fn lemma_capped_law(recs: Seq<ScrobbleRecord>)
    ensures
        capped(recs).filter(played_pred()) == recs.filter(played_pred()),
        capped(recs).len() <= MAX_RECORDS
            || forall|i: int| 0 <= i < capped(recs).len() ==> #[trigger] key_at(capped(recs), i).2 == ReportKind::Played,
    decreases recs.len(),
{
    if recs.len() > MAX_RECORDS {
        lemma_next_to_drop(recs);
        match next_to_drop(recs) {
            Some(i) => {
                assert(!(played_pred())(recs[i]));
                lemma_remove_unplayed_filter(recs, i);
                lemma_capped_law(recs.remove(i));
            },
            None => {},
        }
    }
}

/// Record `i` is the newest of its key: no record with the same key is later in time, nor
/// equally late and further on.
pub open spec fn is_latest(recs: Seq<ScrobbleRecord>, i: int) -> bool {
    forall|j: int| 0 <= j < recs.len() && #[trigger] key_at(recs, j) == key_at(recs, i) ==>
        timestamp_nanos(recs[j].occurred_at) < timestamp_nanos(recs[i].occurred_at)
        || (timestamp_nanos(recs[j].occurred_at) == timestamp_nanos(recs[i].occurred_at) && j <= i)
}

/// The newest record of each key, in buffer order.
pub open spec fn latest_indices(recs: Seq<ScrobbleRecord>, n: int) -> Seq<usize>
    decreases n,
{
    if n <= 0 {
        Seq::empty()
    } else if is_latest(recs, n - 1) {
        latest_indices(recs, n - 1).push((n - 1) as usize)
    } else {
        latest_indices(recs, n - 1)
    }
}

/// The replay order: the newest record of each key, oldest first (ties in buffer order).
pub open spec fn replay_order(recs: Seq<ScrobbleRecord>) -> Seq<usize> {
    let c = latest_indices(recs, recs.len() as int);
    let keys = Seq::new(c.len(), |k: int| timestamp_nanos(recs[c[k] as int].occurred_at) as i128);
    let p = msort_by(iota(c.len()), skey_le(keys));
    Seq::new(c.len(), |k: int| c[p[k] as int])
}

proof fn lemma_latest_indices(recs: Seq<ScrobbleRecord>, n: int)
    requires
        n <= recs.len(),
        recs.len() <= usize::MAX,
    ensures
        forall|k: int| 0 <= k < latest_indices(recs, n).len() ==> {
            let c = #[trigger] latest_indices(recs, n)[k];
            &&& c < n
            &&& is_latest(recs, c as int)
        },
        forall|a: int, b: int| 0 <= a < b < latest_indices(recs, n).len()
            ==> latest_indices(recs, n)[a] < latest_indices(recs, n)[b],
        latest_indices(recs, n).len() <= if n < 0 { 0 } else { n },
    decreases n,
{
    if n > 0 {
        lemma_latest_indices(recs, n - 1);
        let prev = latest_indices(recs, n - 1);
        let cur = latest_indices(recs, n);
        if is_latest(recs, n - 1) {
            assert(cur == prev.push((n - 1) as usize));
            assert forall|k: int| 0 <= k < cur.len() implies (#[trigger] cur[k]) < n && is_latest(recs, cur[k] as int) by {
                if k < prev.len() {
                    assert(cur[k] == prev[k]);
                }
            }
            assert forall|a: int, b: int| 0 <= a < b < cur.len() implies cur[a] < cur[b] by {
                assert(cur[a] == prev[a]);
                if b < prev.len() {
                    assert(cur[b] == prev[b]);
                }
            }
        }
    }
}

/// Replay sends the newest record of each key and nothing else, oldest first: every record it
/// names is the newest of its key, no two share a key, and their times never go back.
pub proof fn lemma_replay_one_per_key(recs: Seq<ScrobbleRecord>, a: int, b: int)
    requires
        recs.len() <= usize::MAX,
    ensures
        0 <= a < replay_order(recs).len() ==> replay_order(recs)[a] < recs.len()
            && is_latest(recs, replay_order(recs)[a] as int),
        0 <= a < b < replay_order(recs).len() ==> key_at(recs, replay_order(recs)[a] as int)
            != key_at(recs, replay_order(recs)[b] as int),
        0 <= a < b < replay_order(recs).len() ==> timestamp_nanos(recs[replay_order(recs)[a] as int].occurred_at) as i128
            <= timestamp_nanos(recs[replay_order(recs)[b] as int].occurred_at) as i128,
{
    let c = latest_indices(recs, recs.len() as int);
    lemma_latest_indices(recs, recs.len() as int);
    let keys = Seq::new(c.len(), |k: int| timestamp_nanos(recs[c[k] as int].occurred_at) as i128);
    let p = msort_by(iota(c.len()), skey_le(keys));
    assert(c.len() <= recs.len());
    lemma_msort_permutation(c.len(), skey_le(keys));
    lemma_skey_le_total(keys);
    lemma_msort_sorted(iota(c.len()), skey_le(keys));
    let r = replay_order(recs);
    if 0 <= a < r.len() {
        assert(r[a] == c[p[a] as int]);
        assert(p[a] < c.len());
    }
    if 0 <= a < b < r.len() {
        assert(skey_le(keys)(p[a], p[b]));
        assert(keys[p[a] as int] <= keys[p[b] as int]);
    }
    if 0 <= a < b < r.len() {
        let x = c[p[a] as int] as int;
        let y = c[p[b] as int] as int;
        assert(r[a] == x && r[b] == y);
        assert(p[a] != p[b]);
        if p[a] < p[b] {
            assert(c[p[a] as int] < c[p[b] as int]);
        } else {
            assert(c[p[b] as int] < c[p[a] as int]);
        }
        assert(x != y);
        if key_at(recs, x) == key_at(recs, y) {
            assert(is_latest(recs, x) && is_latest(recs, y));
            assert(key_at(recs, y) == key_at(recs, x));
            assert(key_at(recs, x) == key_at(recs, y));
        }
    }
}

/// The keys of the first `sent` records of `order`: those delivered.
pub open spec fn delivered_keys(recs: Seq<ScrobbleRecord>, order: Seq<usize>, sent: int) -> Seq<(Seq<char>, Option<Seq<char>>, ReportKind)> {
    Seq::new(sent as nat, |k: int| key_at(recs, order[k] as int))
}

/// The records whose key is none of `keys`, in order.
pub open spec fn undelivered(recs: Seq<ScrobbleRecord>, keys: Seq<(Seq<char>, Option<Seq<char>>, ReportKind)>) -> Seq<ScrobbleRecord>
    decreases recs.len(),
{
    if recs.len() == 0 {
        recs
    } else if keys.contains(report_key(recs.last().report)) {
        undelivered(recs.drop_last(), keys)
    } else {
        undelivered(recs.drop_last(), keys).push(recs.last())
    }
}

/// `rec` records `report` for `server` at `at`.
pub open spec fn record_of(rec: ScrobbleRecord, server: Seq<char>, at: Timestamp, report: PlaybackReport) -> bool {
    rec.server@ == server && rec.occurred_at == at && rec.report == report
}

/// How the file follows an append.
#[derive(Debug, Clone, Copy, PartialEq, Eq, Structural)]
pub enum Persist {
    /// Append the new record as one line.
    AppendLast,
    /// Trimming dropped records: write the whole buffer afresh.
    RewriteAll,
}

/// The buffered reports for one server.
pub struct ScrobbleBuffer {
    server: ServerId,
    records: Vec<ScrobbleRecord>,
}

impl View for ScrobbleBuffer {
    type V = Seq<ScrobbleRecord>;

    closed spec fn view(&self) -> Seq<ScrobbleRecord> {
        self.records@
    }
}

impl ScrobbleBuffer {
    /// The server the buffer is for.
    pub closed spec fn server_view(&self) -> Seq<char> {
        self.server@
    }

    /// A buffer for `server` holding the records read back from disk.
    pub fn new(server: ServerId, records: Vec<ScrobbleRecord>) -> (b: ScrobbleBuffer)
        ensures
            b@ == records@,
            b.server_view() == server@,
    {
        ScrobbleBuffer { server, records }
    }

    /// How many reports wait to be sent.
    pub fn pending(&self) -> (n: usize)
        ensures
            n == self@.len(),
    {
        self.records.len()
    }

    /// The buffered records.
    pub fn records(&self) -> (r: &Vec<ScrobbleRecord>)
        ensures
            r@ == self@,
    {
        &self.records
    }

    /// Buffers `report`, which happened `at`, then trims to the cap; says how the file is to
    /// follow.
    pub fn append(&mut self, report: PlaybackReport, at: Timestamp) -> (p: Persist)
        ensures
            final(self).server_view() == old(self).server_view(),
            exists|rec: ScrobbleRecord| record_of(rec, old(self).server_view(), at, report)
                && final(self)@ == capped(old(self)@.push(rec)),
            p == (if old(self)@.len() + 1 > MAX_RECORDS { Persist::RewriteAll } else { Persist::AppendLast }),
    {
        let rec = ScrobbleRecord { server: ServerId::from_str(self.server.as_str()), occurred_at: at, report };
        let ghost g = rec;
        assert(record_of(g, self.server@, at, report));
        self.records.push(rec);
        assert(self@ == old(self)@.push(g));
        if self.records.len() > MAX_RECORDS {
            self.enforce_cap();
            assert(record_of(g, old(self).server_view(), at, report) && self@ == capped(old(self)@.push(g)));
            return Persist::RewriteAll;
        }
        assert(capped(self@) == self@);
        assert(record_of(g, old(self).server_view(), at, report) && self@ == capped(old(self)@.push(g)));
        Persist::AppendLast
    }

    /// Which record trimming drops next.
    fn drop_index(&self) -> (r: Option<usize>)
        ensures
            match next_to_drop(self@) {
                Some(i) => r == Some(i as usize) && 0 <= i < self@.len(),
                None => r is None,
            },
    {
        let n = self.records.len();
        let mut i: usize = 0;
        while i < n && kind_of(&self.records[i].report) != ReportKind::Progress
            invariant
                n == self@.len(),
                i <= n,
                forall|j: int| 0 <= j < i ==> #[trigger] key_at(self@, j).2 != ReportKind::Progress,
            decreases n - i,
        {
            i = i + 1;
        }
        if i < n {
            proof { lemma_first_progress_at(self@, i as int); }
            return Some(i);
        }
        proof { assert(first_progress(self@) is None); }
        let mut u: usize = 0;
        while u < n && kind_of(&self.records[u].report) == ReportKind::Played
            invariant
                n == self@.len(),
                u <= n,
                forall|j: int| 0 <= j < u ==> #[trigger] key_at(self@, j).2 == ReportKind::Played,
            decreases n - u,
        {
            u = u + 1;
        }
        if u == n {
            return None;
        }
        proof { lemma_first_unplayed_at(self@, u as int); }
        Some(u)
    }

    fn enforce_cap(&mut self)
        ensures
            final(self).server_view() == old(self).server_view(),
            final(self)@ == capped(old(self)@),
    {
        let ghost start = self@;
        loop
            invariant
                self.server_view() == old(self).server_view(),
                start == old(self)@,
                capped(self@) == capped(start),
            decreases self@.len(),
        {
            if self.records.len() <= MAX_RECORDS {
                assert(capped(self@) == self@);
                return;
            }
            match self.drop_index() {
                None => {
                    assert(capped(self@) == self@);
                    return;
                },
                Some(i) => {
                    let ghost before = self@;
                    self.records.remove(i);
                    assert(capped(before) == capped(before.remove(i as int)));
                },
            }
        }
    }

    /// The order in which the buffered reports are replayed: the newest of each key, oldest
    /// first. Indices into the buffer.
    pub fn replay_order(&self) -> (order: Vec<usize>)
        ensures
            order@ == replay_order(self@),
            forall|k: int| 0 <= k < order@.len() ==> order@[k] < self@.len(),
    {
        let recs = &self.records;
        let n = recs.len();
        let mut stamps: Vec<i128> = Vec::new();
        let mut i: usize = 0;
        while i < n
            invariant
                n == recs@.len(),
                i <= n,
                stamps@.len() == i,
                forall|k: int| 0 <= k < i ==> stamps@[k] as int == timestamp_nanos(recs@[k].occurred_at),
            decreases n - i,
        {
            stamps.push(timestamp_as_nanosecond(&recs[i].occurred_at));
            i = i + 1;
        }
        let mut cands: Vec<usize> = Vec::new();
        let mut i: usize = 0;
        while i < n
            invariant
                n == recs@.len(),
                stamps@.len() == n,
                forall|k: int| 0 <= k < n ==> stamps@[k] as int == timestamp_nanos(recs@[k].occurred_at),
                i <= n,
                cands@ == latest_indices(recs@, i as int),
                forall|k: int| 0 <= k < cands@.len() ==> cands@[k] < i,
            decreases n - i,
        {
            let mut latest = true;
            let mut j: usize = 0;
            while j < n && latest
                invariant
                    n == recs@.len(),
                    i < n,
                    stamps@.len() == n,
                    forall|k: int| 0 <= k < n ==> stamps@[k] as int == timestamp_nanos(recs@[k].occurred_at),
                    j <= n,
                    latest ==> forall|q: int| 0 <= q < j && #[trigger] key_at(recs@, q) == key_at(recs@, i as int) ==>
                        timestamp_nanos(recs@[q].occurred_at) < timestamp_nanos(recs@[i as int].occurred_at)
                        || (timestamp_nanos(recs@[q].occurred_at) == timestamp_nanos(recs@[i as int].occurred_at) && q <= i),
                    !latest ==> !is_latest(recs@, i as int),
                decreases n - j + (if latest { 1int } else { 0int }),
            {
                if same_key(&recs[j].report, &recs[i].report) {
                    if stamps[j] > stamps[i] || (stamps[j] == stamps[i] && j > i) {
                        assert(key_at(recs@, j as int) == key_at(recs@, i as int));
                        latest = false;
                    }
                }
                if latest {
                    j = j + 1;
                }
            }
            if latest {
                cands.push(i);
            }
            i = i + 1;
        }
        let mut keys: Vec<i128> = Vec::new();
        let mut k: usize = 0;
        while k < cands.len()
            invariant
                n == recs@.len(),
                stamps@.len() == n,
                forall|q: int| 0 <= q < n ==> stamps@[q] as int == timestamp_nanos(recs@[q].occurred_at),
                forall|q: int| 0 <= q < cands@.len() ==> cands@[q] < n,
                k <= cands@.len(),
                keys@.len() == k,
                forall|q: int| 0 <= q < k ==> keys@[q] == timestamp_nanos(recs@[cands@[q] as int].occurred_at) as i128,
            decreases cands@.len() - k,
        {
            keys.push(stamps[cands[k]]);
            k = k + 1;
        }
        let ghost c = cands@;
        proof {
            assert(keys@ =~= Seq::new(c.len(), |q: int| timestamp_nanos(recs@[c[q] as int].occurred_at) as i128));
        }
        let p = sort_indices_by_signed_keys(&keys);
        proof { lemma_msort_permutation(c.len(), skey_le(keys@)); }
        let mut order: Vec<usize> = Vec::new();
        let mut q: usize = 0;
        while q < p.len()
            invariant
                is_permutation(p@, c.len()),
                c == cands@,
                forall|x: int| 0 <= x < c.len() ==> c[x] < n,
                n == recs@.len(),
                q <= p@.len(),
                order@.len() == q,
                forall|x: int| 0 <= x < q ==> order@[x] == c[p@[x] as int],
            decreases p@.len() - q,
        {
            order.push(cands[p[q]]);
            q = q + 1;
        }
        proof {
            assert(order@ =~= replay_order(recs@));
        }
        order
    }

    /// After a replay in `order` whose first `sent` sends succeeded (sending stops at the
    /// first failure): every record sharing a key with a delivered one goes, the rest stay.
    /// Whether the file must be rewritten.
    pub fn settle_replay(&mut self, order: &Vec<usize>, sent: usize) -> (rewrite: bool)
        requires
            sent <= order@.len(),
            forall|k: int| 0 <= k < order@.len() ==> order@[k] < old(self)@.len(),
        ensures
            final(self).server_view() == old(self).server_view(),
            final(self)@ == (if sent > 0 { undelivered(old(self)@, delivered_keys(old(self)@, order@, sent as int)) } else { old(self)@ }),
            rewrite == (sent > 0),
    {
        if sent == 0 {
            return false;
        }
        let ghost keys = delivered_keys(self@, order@, sent as int);
        let mut rows = Vec::new();
        std::mem::swap(&mut rows, &mut self.records);
        let ghost all = rows@;
        let mut delivered: Vec<usize> = Vec::new();
        let mut k: usize = 0;
        while k < sent
            invariant
                k <= sent,
                sent <= order@.len(),
                delivered@ == order@.take(k as int),
            decreases sent - k,
        {
            delivered.push(order[k]);
            k = k + 1;
        }
        // Keep each record whose key matches no delivered one, in order.
        let mut kept: Vec<ScrobbleRecord> = Vec::new();
        let mut reversed: Vec<ScrobbleRecord> = Vec::new();
        let mut taken = rows;
        while taken.len() > 0
            invariant
                reversed@.len() + taken@.len() == all.len(),
                taken@ == all.take(taken@.len() as int),
                forall|x: int| 0 <= x < reversed@.len() ==> #[trigger] reversed@[x] == all[all.len() - 1 - x],
            decreases taken.len(),
        {
            let r = taken.pop().unwrap();
            reversed.push(r);
            assert(taken@ =~= all.take(taken@.len() as int));
        }
        // The keys are read off a copy of the delivered records' reports, in order.
        let mut i: usize = 0;
        let n = reversed.len();
        let mut keep_flags: Vec<bool> = Vec::new();
        while i < n
            invariant
                n == all.len(),
                i <= n,
                reversed@.len() == n,
                forall|x: int| 0 <= x < reversed@.len() ==> #[trigger] reversed@[x] == all[all.len() - 1 - x],
                delivered@ == order@.take(sent as int),
                forall|x: int| 0 <= x < order@.len() ==> order@[x] < n,
                sent <= order@.len(),
                keys == delivered_keys(all, order@, sent as int),
                keep_flags@.len() == i,
                forall|x: int| 0 <= x < i ==> keep_flags@[x] == !keys.contains(report_key(all[x].report)),
            decreases n - i,
        {
            let mut hit = false;
            let mut d: usize = 0;
            while d < delivered.len() && !hit
                invariant
                    n == all.len(),
                    i < n,
                    reversed@.len() == n,
                    forall|x: int| 0 <= x < reversed@.len() ==> #[trigger] reversed@[x] == all[all.len() - 1 - x],
                    delivered@ == order@.take(sent as int),
                    forall|x: int| 0 <= x < order@.len() ==> order@[x] < n,
                    sent <= order@.len(),
                    keys == delivered_keys(all, order@, sent as int),
                    d <= delivered@.len(),
                    !hit ==> forall|x: int| 0 <= x < d ==> keys[x] != report_key(all[i as int].report),
                    hit ==> keys.contains(report_key(all[i as int].report)),
                decreases delivered@.len() - d + (if hit { 0int } else { 1int }),
            {
                let a = n - 1 - delivered[d];
                let b = n - 1 - i;
                assert(reversed@[a as int] == all[delivered@[d as int] as int]);
                assert(reversed@[b as int] == all[i as int]);
                if same_key(&reversed[a].report, &reversed[b].report) {
                    assert(keys[d as int] == report_key(all[i as int].report));
                    hit = true;
                } else {
                    d = d + 1;
                }
            }
            keep_flags.push(!hit);
            i = i + 1;
        }
        let mut j: usize = 0;
        while j < n
            invariant
                n == all.len(),
                j <= n,
                reversed@.len() + j == n,
                forall|x: int| 0 <= x < reversed@.len() ==> #[trigger] reversed@[x] == all[all.len() - 1 - x],
                keep_flags@.len() == n,
                forall|x: int| 0 <= x < n ==> keep_flags@[x] == !keys.contains(report_key(all[x].report)),
                kept@ == undelivered(all.take(j as int), keys),
            decreases n - j,
        {
            let r = reversed.pop().unwrap();
            assert(r == all[j as int]);
            proof { assert(all.take(j as int + 1).drop_last() =~= all.take(j as int)); }
            if keep_flags[j] {
                kept.push(r);
            }
            j = j + 1;
        }
        proof { assert(all.take(n as int) =~= all); }
        self.records = kept;
        true
    }
}

} // verus!
