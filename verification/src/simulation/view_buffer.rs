//! Snapshots of simulation state queued for a renderer that may fall behind.

use std::collections::VecDeque;
use vstd::prelude::*;

verus! {

/// A simulation tick number.
pub type TickInt = u64;

/// A snapshot of some simulated state, stamped with the tick it was taken at.
#[derive(Clone, Copy)]
pub struct ViewData<P> {
    pub payload: P,
    pub tick: TickInt,
}

/// The items at even positions of `s`, in order: what a compaction keeps.
pub open spec fn evens<A>(s: Seq<A>) -> Seq<A> {
    Seq::new(((s.len() + 1) / 2) as nat, |i: int| s[2 * i])
}

/// What appending `batch` to `data` gives when the buffer can hold `capacity`
/// items without growing: if the two do not fit together, `data` is
/// compacted first.
pub open spec fn appended<A>(data: Seq<A>, batch: Seq<A>, capacity: int) -> Seq<A> {
    (if batch.len() + data.len() > capacity {
        evens(data)
    } else {
        data
    }) + batch
}

/// `s` with its leading run of snapshots stamped at or before `cut_tick`
/// removed.
pub open spec fn kept_after<P>(s: Seq<ViewData<P>>, cut_tick: TickInt) -> Seq<ViewData<P>>
    decreases s.len(),
{
    if s.len() > 0 && s[0].tick <= cut_tick {
        kept_after(s.drop_first(), cut_tick)
    } else {
        s
    }
}

/// Snapshots are in tick order.
pub open spec fn tick_sorted<P>(s: Seq<ViewData<P>>) -> bool {
    forall|i: int, j: int| 0 <= i <= j < s.len() ==> s[i].tick <= s[j].tick
}

/// The number of items `d` can hold without reallocating.
///
/// Calls `VecDeque::capacity`. The contract claims only that the deque can
/// hold the items it already holds; the exact figure depends on the
/// allocator and is left open.
#[verifier::external_body]
fn deque_capacity<A>(d: &VecDeque<A>) -> (c: usize)
    ensures
        c >= d@.len(),
{
    d.capacity()
}

proof fn lemma_evens_push<A>(s: Seq<A>, x: A)
    ensures
        evens(s.push(x)) == (if s.len() % 2 == 0 {
            evens(s).push(x)
        } else {
            evens(s)
        }),
{
    if s.len() % 2 == 0 {
        assert(evens(s.push(x)) =~= evens(s).push(x));
    } else {
        assert(evens(s.push(x)) =~= evens(s));
    }
}

/// Appending never loses anything of the batch: it always ends the queue,
/// whole and in order, after the queued snapshots, of which at least half
/// (rounded up) are kept.
pub proof fn lemma_appended_keeps_batch<A>(data: Seq<A>, batch: Seq<A>, capacity: int)
    ensures
        ({
            let r = appended(data, batch, capacity);
            let kept = (r.len() - batch.len()) as int;
            &&& kept == data.len() || kept == (data.len() + 1) / 2
            &&& r.subrange(kept, r.len() as int) == batch
            &&& batch.len() + data.len() <= capacity ==> r == data + batch
        }),
{
    let r = appended(data, batch, capacity);
    let kept = (r.len() - batch.len()) as int;
    assert(r.subrange(kept, r.len() as int) =~= batch);
}

/// A compaction keeps the snapshots at even positions, which is half of
/// them rounded up, spread evenly over the queue.
pub proof fn lemma_evens_len<A>(s: Seq<A>)
    ensures
        evens(s).len() == (s.len() + 1) / 2,
        forall|i: int| 0 <= i < evens(s).len() ==> #[trigger] evens(s)[i] == s[2 * i],
{
}

/// Dropping every other snapshot of a tick-ordered queue keeps it ordered.
pub proof fn lemma_evens_sorted<P>(s: Seq<ViewData<P>>)
    requires
        tick_sorted(s),
    ensures
        tick_sorted(evens(s)),
{
    assert forall|i: int, j: int| 0 <= i <= j < evens(s).len() implies evens(s)[i].tick
        <= evens(s)[j].tick by {
        assert(evens(s)[i] == s[2 * i]);
        assert(evens(s)[j] == s[2 * j]);
    }
}

/// On a tick-ordered queue, discarding up to `cut_tick` keeps exactly the
/// snapshots stamped after `cut_tick`.
pub proof fn lemma_kept_after_sorted<P>(s: Seq<ViewData<P>>, cut_tick: TickInt)
    requires
        tick_sorted(s),
    ensures
        kept_after(s, cut_tick) == s.filter(|d: ViewData<P>| d.tick > cut_tick),
    decreases s.len(),
{
    let pred = |d: ViewData<P>| d.tick > cut_tick;
    if s.len() == 0 {
        assert(s.filter(pred) =~= s);
    } else {
        let rest = s.drop_first();
        assert(s =~= seq![s[0]] + rest);
        rest.lemma_filter_prepend(s[0], pred);
        if s[0].tick <= cut_tick {
            assert(tick_sorted(rest)) by {
                assert forall|i: int, j: int| 0 <= i <= j < rest.len() implies rest[i].tick
                    <= rest[j].tick by {
                    assert(rest[i] == s[i + 1]);
                    assert(rest[j] == s[j + 1]);
                }
            }
            lemma_kept_after_sorted(rest, cut_tick);
            assert(s.filter(pred) =~= rest.filter(pred));
        } else {
            assert forall|i: int| 0 <= i < rest.len() implies pred(#[trigger] rest[i]) by {
                assert(rest[i] == s[i + 1]);
            }
            lemma_filter_all(rest, pred);
        }
    }
}

/// Discarding up to one tick and then up to another leaves what a single
/// discard up to the later of the two leaves; in particular, discarding twice
/// up to the same tick is the same as discarding once.
pub proof fn lemma_kept_after_twice<P>(s: Seq<ViewData<P>>, x: TickInt, y: TickInt)
    ensures
        kept_after(kept_after(s, x), y) == kept_after(s, if x < y { y } else { x }),
    decreases s.len(),
{
    if s.len() > 0 && s[0].tick <= x {
        lemma_kept_after_twice(s.drop_first(), x, y);
        if x < y {
            assert(s[0].tick <= y);
        }
    } else if s.len() > 0 && s[0].tick <= y {
        assert(x < y);
    }
}

proof fn lemma_filter_all<A>(s: Seq<A>, pred: spec_fn(A) -> bool)
    requires
        forall|i: int| 0 <= i < s.len() ==> pred(#[trigger] s[i]),
    ensures
        s.filter(pred) == s,
    decreases s.len(),
{
    if s.len() > 0 {
        let rest = s.drop_first();
        assert(s =~= seq![s[0]] + rest);
        rest.lemma_filter_prepend(s[0], pred);
        assert forall|i: int| 0 <= i < rest.len() implies pred(#[trigger] rest[i]) by {
            assert(rest[i] == s[i + 1]);
        }
        lemma_filter_all(rest, pred);
    } else {
        assert(s.filter(pred) =~= s);
    }
}

/// A queue of snapshots that, rather than growing without bound when its
/// storage overflows, drops every other queued snapshot.
#[derive(Clone)]
pub struct LossyViewBuffer<P> {
    pub data: VecDeque<ViewData<P>>,
}

impl<P: Copy> LossyViewBuffer<P> {
    pub fn new(initial_capacity: usize) -> (buf: Self)
        ensures
            buf.data@ == Seq::<ViewData<P>>::empty(),
    {
        let mut v = VecDeque::new();
        v.reserve(initial_capacity);
        LossyViewBuffer { data: v }
    }

    /// Queues a copy of `batch` after the snapshots already held.
    ///
    /// When the batch does not fit in the storage already reserved, the
    /// storage first grows to at least the batch's size; if the queued
    /// snapshots and the batch still do not fit together, the queue is
    /// compacted, dropping every other snapshot. Nothing of the batch itself
    /// is ever dropped. The capacity in the contract is the one the deque
    /// reports after that growth; its figure is the allocator's, and the
    /// decision taken on it is `append_within`'s.
    pub fn append(&mut self, batch: &mut Vec<ViewData<P>>)
        requires
            old(self).data@.len() + old(batch)@.len() <= usize::MAX,
        ensures
            final(batch)@ == old(batch)@,
            exists|capacity: int|
                old(self).data@.len() <= capacity && final(self).data@ == appended(
                    old(self).data@,
                    old(batch)@,
                    capacity,
                ),
    {
        let batch_len = batch.len();
        let capacity = deque_capacity(&self.data);

        // not enough total capacity for the batch alone, grow
        if batch_len > capacity {
            let diff = batch_len - capacity;
            self.data.reserve(diff);
        }
        let capacity = deque_capacity(&self.data);
        self.append_within(batch, capacity);
    }

    /// Queues a copy of `batch` after the snapshots already held, given that
    /// the storage can hold `capacity` snapshots without growing: when the
    /// queued snapshots and the batch do not fit together, the queue is
    /// compacted first, dropping every other snapshot, and grows if the
    /// batch alone still does not fit.
    pub fn append_within(&mut self, batch: &mut Vec<ViewData<P>>, capacity: usize)
        requires
            old(self).data@.len() <= capacity,
            old(self).data@.len() + old(batch)@.len() <= usize::MAX,
        ensures
            final(batch)@ == old(batch)@,
            final(self).data@ == appended(old(self).data@, old(batch)@, capacity as int),
    {
        let ghost old_data = self.data@;
        let batch_len = batch.len();
        let size = self.data.len();

        // storage overflow: lose every other queued snapshot
        if batch_len + size > capacity {
            self.compact();
        }
        let size = self.data.len();

        // still no room even after a compaction, grow
        if batch_len + size > capacity && batch_len >= capacity {
            let diff = batch_len - capacity;
            self.data.reserve(diff);
        }
        let ghost before_extend = self.data@;
        proof {
            assert(before_extend == (if batch_len + old_data.len() > capacity {
                evens(old_data)
            } else {
                old_data
            }));
        }

        let mut i: usize = 0;
        while i < batch_len
            invariant
                batch_len == batch@.len(),
                0 <= i <= batch_len,
                self.data@ == before_extend + batch@.subrange(0, i as int),
            decreases batch_len - i,
        {
            let item = batch[i];
            self.data.push_back(item);
            i += 1;
            proof {
                assert(batch@.subrange(0, i as int) =~= batch@.subrange(0, i - 1).push(item));
            }
        }
        proof {
            assert(batch@.subrange(0, batch_len as int) =~= batch@);
            assert(self.data@ == appended(old_data, batch@, capacity as int));
        }
    }

    /// Drops the snapshots at odd positions, keeping the others in order.
    pub fn compact(&mut self)
        ensures
            final(self).data@ == evens(old(self).data@),
    {
        let ghost old_data = self.data@;
        let n = self.data.len();
        let mut i: usize = 0;
        while i < n
            invariant
                n == old_data.len(),
                0 <= i <= n,
                self.data@ == old_data.subrange(i as int, n as int) + evens(
                    old_data.subrange(0, i as int),
                ),
            decreases n - i,
        {
            let ghost kept = evens(old_data.subrange(0, i as int));
            proof {
                assert(self.data@.len() > 0);
                assert(self.data@[0] == old_data[i as int]);
            }
            let item = self.data.pop_front().unwrap();
            if i % 2 == 0 {
                self.data.push_back(item);
            }
            proof {
                lemma_evens_push(old_data.subrange(0, i as int), item);
                assert(old_data.subrange(0, i + 1) =~= old_data.subrange(0, i as int).push(item));
                assert(self.data@ =~= old_data.subrange(i + 1, n as int) + evens(
                    old_data.subrange(0, i + 1),
                ));
            }
            i += 1;
        }
        proof {
            assert(old_data.subrange(0, n as int) =~= old_data);
            assert(self.data@ =~= evens(old_data));
        }
    }

    /// Discards the leading snapshots stamped at or before `cut_tick`: those
    /// the renderer has already shown.
    pub fn discard_to(&mut self, cut_tick: TickInt)
        ensures
            final(self).data@ == kept_after(old(self).data@, cut_tick),
    {
        let ghost old_data = self.data@;
        loop
            invariant
                kept_after(self.data@, cut_tick) == kept_after(old_data, cut_tick),
            ensures
                self.data@ == kept_after(old_data, cut_tick),
            decreases self.data@.len(),
        {
            if self.data.len() == 0 {
                proof {
                    assert(kept_after(self.data@, cut_tick) == self.data@);
                }
                break ;
            }
            if self.data[0].tick > cut_tick {
                proof {
                    assert(kept_after(self.data@, cut_tick) == self.data@);
                }
                break ;
            }
            let ghost before = self.data@;
            let _ = self.data.pop_front();
            proof {
                assert(self.data@ =~= before.drop_first());
            }
        }
    }
}

} // verus!
