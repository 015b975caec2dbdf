//! Queue shuffle: only the part of the play order after the current entry is randomised, so the
//! entry playing now and everything already played keep their order; un-shuffling restores the
//! natural order and keeps the entry that is playing.
use crate::msort::{iota, is_permutation};
use crate::queue::state::QueueState;
use rand::seq::SliceRandom;
use rand::SeedableRng;
use rand_chacha::ChaCha8Rng;
use vstd::multiset::Multiset;
use vstd::prelude::*;

verus! {

/// The order `SliceRandom::shuffle` leaves `s` in, with a `ChaCha8Rng` seeded by `seed`.
pub uninterp spec fn seeded_shuffle(s: Seq<usize>, seed: u64) -> Seq<usize>;

/// Seeds a `ChaCha8Rng` with `seed` (`SeedableRng::seed_from_u64`) and shuffles `v[start..]`
/// with it (`SliceRandom::shuffle`, a Fisher-Yates shuffle by swaps): the prefix is untouched,
/// and the tail is a rearrangement of itself fixed by the seed.
#[verifier::external_body]
fn shuffle_tail_seeded(v: &mut Vec<usize>, start: usize, seed: u64)
    requires
        start <= old(v)@.len(),
    ensures
        final(v)@ == old(v)@.take(start as int) + seeded_shuffle(old(v)@.skip(start as int), seed),
        final(v)@.skip(start as int).to_multiset() == old(v)@.skip(start as int).to_multiset(),
{
    let mut rng = ChaCha8Rng::seed_from_u64(seed);
    v[start..].shuffle(&mut rng);
}

/// `order` with everything after `position` put in the seeded order.
pub open spec fn shuffled_order(order: Seq<usize>, position: int, seed: u64) -> Seq<usize> {
    let start = if position + 1 < order.len() { position + 1 } else { order.len() as int };
    order.take(start) + seeded_shuffle(order.skip(start), seed)
}

/// Shuffling moves nothing at or before `position`; un-shuffling afterwards restores the natural
/// order and puts `position` back on the entry that was playing before the shuffle.
pub proof fn lemma_shuffle_round_trip(order: Seq<usize>, position: int, n: nat, seed: u64, i: int)
    requires
        0 <= position < order.len(),
        order[position] < n,
    ensures
        0 <= i <= position ==> shuffled_order(order, position, seed)[i] == order[i],
        iota(n)[shuffled_order(order, position, seed)[position] as int] == order[position],
{
    let start = position + 1;
    assert(order.take(start).len() == start);
}

/// Shuffles `play_order[position + 1..]` with a seeded, reproducible generator. `entries` is
/// never touched, and nothing at or before `position` moves.
pub fn shuffle(queue: &mut QueueState, seed: u64)
    ensures
        final(queue).entries == old(queue).entries,
        final(queue).position == old(queue).position,
        final(queue).shuffled,
        final(queue).next_id == old(queue).next_id,
        final(queue).play_order@ == shuffled_order(old(queue).play_order@, old(queue).position as int, seed),
        final(queue).play_order@.to_multiset() == old(queue).play_order@.to_multiset(),
{
    let len = queue.play_order.len();
    let tail_start = if queue.position < len { queue.position + 1 } else { len };
    let ghost before = queue.play_order@;
    shuffle_tail_seeded(&mut queue.play_order, tail_start, seed);
    proof {
        let after = queue.play_order@;
        assert(before =~= before.take(tail_start as int) + before.skip(tail_start as int));
        assert(after =~= after.take(tail_start as int) + after.skip(tail_start as int));
        assert(after.take(tail_start as int) =~= before.take(tail_start as int));
        vstd::seq_lib::lemma_multiset_commutative(before.take(tail_start as int), before.skip(tail_start as int));
        vstd::seq_lib::lemma_multiset_commutative(after.take(tail_start as int), after.skip(tail_start as int));
    }
    queue.shuffled = true;
}

/// Restores the natural order and moves `position` to wherever the entry that was playing now
/// sits, so un-shuffling never changes what is playing.
pub fn unshuffle(queue: &mut QueueState)
    ensures
        final(queue).entries == old(queue).entries,
        final(queue).play_order@ == iota(old(queue).entries@.len()),
        !final(queue).shuffled,
        final(queue).next_id == old(queue).next_id,
        ({
            let o = old(queue);
            if o.position < o.play_order@.len() && o.play_order@[o.position as int] < o.entries@.len() {
                final(queue).position == o.play_order@[o.position as int]
            } else {
                final(queue).position == o.position
            }
        }),
{
    let current = queue.current_slot();
    let n = queue.entries.len();
    let mut order: Vec<usize> = Vec::new();
    let mut i: usize = 0;
    while i < n
        invariant
            i <= n,
            order@ == iota(i as nat),
        decreases n - i,
    {
        order.push(i);
        assert(order@ =~= iota((i + 1) as nat));
        i = i + 1;
    }
    queue.play_order = order;
    queue.shuffled = false;
    match current {
        Some(slot) => {
            if slot < n {
                queue.position = slot;
            }
        },
        None => {},
    }
}

} // verus!
