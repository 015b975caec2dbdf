//! The session snapshot's version check, and the listening history kept beside the session:
//! newest first, capped.
use vstd::prelude::*;

verus! {

/// How many entries the history keeps.
pub const HISTORY_CAP: usize = 50;

/// The history once `e` has been recorded: `e` first, then the entries that were there, newest
/// first, cut to `HISTORY_CAP`.
pub open spec fn with_entry<T>(entries: Seq<T>, e: T) -> Seq<T> {
    let all = seq![e] + entries;
    if all.len() > HISTORY_CAP { all.take(HISTORY_CAP as int) } else { all }
}

/// Records `e` at the front of `entries` (newest first) and drops whatever falls past
/// `HISTORY_CAP`.
pub fn push_history<T>(entries: Vec<T>, e: T) -> (r: Vec<T>)
    ensures
        r@ == with_entry(entries@, e),
{
    let ghost orig = entries@;
    let mut rest = entries;
    let mut rev: Vec<T> = Vec::new();
    while rest.len() > 0
        invariant
            rest@ == orig.take(rest@.len() as int),
            rev@.len() + rest@.len() == orig.len(),
            forall|k: int| 0 <= k < rev@.len() ==> #[trigger] rev@[k] == orig[orig.len() - 1 - k],
        decreases rest@.len(),
    {
        let x = rest.pop().unwrap();
        rev.push(x);
        assert(rest@ =~= orig.take(rest@.len() as int));
    }
    let mut out: Vec<T> = Vec::new();
    out.push(e);
    while out.len() < HISTORY_CAP && rev.len() > 0
        invariant
            1 <= out@.len() <= HISTORY_CAP,
            out@ == seq![e] + orig.take(out@.len() - 1),
            rev@.len() + (out@.len() - 1) == orig.len(),
            forall|k: int| 0 <= k < rev@.len() ==> #[trigger] rev@[k] == orig[orig.len() - 1 - k],
        decreases rev@.len(),
    {
        let x = rev.pop().unwrap();
        let ghost at = out@.len() - 1;
        assert(x == orig[at]);
        out.push(x);
        assert(out@ =~= seq![e] + orig.take(at + 1));
    }
    proof {
        let all = seq![e] + orig;
        if all.len() > HISTORY_CAP {
            if out@.len() < HISTORY_CAP {
                assert(rev@.len() == 0);
            }
            assert(out@ =~= all.take(HISTORY_CAP as int));
        } else {
            assert(out@ =~= all);
        }
    }
    out
}

/// What to do with a session snapshot read from disk.
#[derive(Debug, Clone, Copy, PartialEq, Eq, Structural)]
pub enum SnapshotVerdict {
    /// Restore it.
    Use,
    /// It does not parse: move it aside and start without one.
    Quarantine,
    /// It parsed but was written under another schema version: move it aside, start without one.
    Discard,
}

/// The verdict on a snapshot whose file parsed (`found` is its `schema_version`, `None` when
/// it did not parse) when this build reads version `expected`.
pub fn snapshot_verdict(found: Option<u32>, expected: u32) -> (r: SnapshotVerdict)
    ensures
        r == match found {
            None => SnapshotVerdict::Quarantine,
            Some(v) => if v == expected { SnapshotVerdict::Use } else { SnapshotVerdict::Discard },
        },
{
    match found {
        None => SnapshotVerdict::Quarantine,
        Some(v) => if v == expected { SnapshotVerdict::Use } else { SnapshotVerdict::Discard },
    }
}

} // verus!
