//! The play queue: the entries in insertion order, the order they play in, and where playback is.
use crate::model::ids::QueueEntryId;
use vstd::prelude::*;

verus! {

/// One queued track. The same track can be queued twice, so each entry has its own id.
#[derive(Debug, Clone, PartialEq)]
pub struct QueueEntry {
    pub queue_id: QueueEntryId,
    pub track_id: String,
}

/// The queue. `play_order` lists indices into `entries` in the order they play; `position` is
/// the place in `play_order` of the entry playing now.
#[derive(Debug, Clone, PartialEq)]
pub struct QueueState {
    pub entries: Vec<QueueEntry>,
    pub play_order: Vec<usize>,
    pub position: usize,
    pub shuffled: bool,
    pub next_id: u64,
}

impl QueueState {
    /// An empty queue.
    pub fn new() -> (r: QueueState)
        ensures
            r.entries@.len() == 0 && r.play_order@.len() == 0 && r.position == 0 && !r.shuffled && r.next_id == 0,
    {
        QueueState { entries: Vec::new(), play_order: Vec::new(), position: 0, shuffled: false, next_id: 0 }
    }

    /// A fresh entry id: the next one in sequence.
    pub fn alloc_queue_id(&mut self) -> (r: QueueEntryId)
        requires
            old(self).next_id < u64::MAX,
        ensures
            r == QueueEntryId(old(self).next_id),
            final(self).next_id == old(self).next_id + 1,
            final(self).entries == old(self).entries && final(self).play_order == old(self).play_order,
            final(self).position == old(self).position && final(self).shuffled == old(self).shuffled,
    {
        let id = QueueEntryId(self.next_id);
        self.next_id = self.next_id + 1;
        id
    }

    /// The index into `entries` of the entry playing now, if `position` is inside `play_order`.
    pub fn current_slot(&self) -> (r: Option<usize>)
        ensures
            r == (if self.position < self.play_order@.len() { Some(self.play_order@[self.position as int]) } else { None::<usize> }),
    {
        if self.position < self.play_order.len() {
            Some(self.play_order[self.position])
        } else {
            None
        }
    }

    /// The entry playing now, if `position` is inside `play_order` and names an entry.
    pub fn current_entry(&self) -> (r: Option<&QueueEntry>)
        ensures
            r == (if self.position < self.play_order@.len() && self.play_order@[self.position as int] < self.entries@.len() {
                Some(&self.entries@[self.play_order@[self.position as int] as int])
            } else {
                None::<&QueueEntry>
            }),
    {
        match self.current_slot() {
            Some(slot) => if slot < self.entries.len() {
                Some(&self.entries[slot])
            } else {
                None
            },
            None => None,
        }
    }
}

} // verus!
