//! The playback queue: a FIFO of pending, fully constructed generator
//! graphs between the score-driven producers and the single drain point
//! that hands voices to the output sink.
//!
//! Ownership moves one way: the constructing code owns a graph until it is
//! enqueued, the queue owns it until a drain, and the drain's caller owns
//! it from then on.  Nothing is retained, inspected or re-queued after the
//! hand-off, so no graph is ever delivered twice.  The queue itself is not
//! a lock: callers that share it across threads wrap it in one, which
//! serializes enqueues without changing what the drain returns.

use vstd::prelude::*;

verus! {

use crate::generator::RawSource;

/// The pending-voice queue.
pub struct Audio {
    pub queue: Vec<RawSource>,
}

impl Audio {
    /// Every queued graph is well formed, so every drained voice can be
    /// pulled safely.
    pub open spec fn wf(self) -> bool {
        forall|i: int| 0 <= i < self.queue@.len() ==> (#[trigger] self.queue@[i]).wf()
    }

    /// An empty queue.
    pub fn new() -> (a: Audio)
        ensures
            a.wf(),
            a.queue@.len() == 0,
    {
        Audio { queue: Vec::new() }
    }

    /// Enqueue a finished generator graph.  The queue grows by exactly that
    /// graph, at the back; nothing else changes.
    pub fn play(&mut self, source: RawSource)
        requires
            old(self).wf(),
            source.wf(),
        ensures
            final(self).wf(),
            final(self).queue@ == old(self).queue@.push(source),
    {
        self.queue.push(source);
    }

    /// Remove every queued graph, in enqueue order, handing ownership to
    /// the caller; the queue is empty afterwards.  Together with `play`
    /// this delivers each enqueued graph exactly once: nothing is lost and
    /// nothing is duplicated.
    pub fn drain(&mut self) -> (batch: Vec<RawSource>)
        requires
            old(self).wf(),
        ensures
            final(self).wf(),
            batch@ == old(self).queue@,
            final(self).queue@.len() == 0,
            forall|i: int| 0 <= i < batch@.len() ==> (#[trigger] batch@[i]).wf(),
    {
        let ghost q0 = self.queue@;
        let mut batch: Vec<RawSource> = Vec::new();
        while self.queue.len() > 0
            invariant
                self.wf(),
                batch@ + self.queue@ == q0,
                forall|i: int| 0 <= i < batch@.len() ==> (#[trigger] batch@[i]).wf(),
            decreases self.queue@.len(),
        {
            let voice = self.queue.remove(0);
            batch.push(voice);
            proof {
                assert(batch@ + self.queue@ =~= q0);
            }
        }
        proof {
            assert(batch@ =~= q0);
        }
        batch
    }
}

/// No loss and no duplication across the lock.  Two producers that each
/// enqueue one graph — in whichever order the lock serializes them — leave
/// the queue, as a bag of voices, with exactly one copy of each graph more
/// than before; one drain then hands over exactly that bag.
pub proof fn lemma_enqueue_delivers_exactly_once(q: Seq<RawSource>, a: RawSource, b: RawSource)
    ensures
        q.push(a).push(b).to_multiset() =~= q.to_multiset().insert(a).insert(b),
        q.push(b).push(a).to_multiset() =~= q.to_multiset().insert(a).insert(b),
        q.push(a).push(b).to_multiset().count(a) == q.to_multiset().count(a) + (if a == b {
            2int
        } else {
            1int
        }),
        q.push(a).push(b).to_multiset().count(b) == q.to_multiset().count(b) + (if a == b {
            2int
        } else {
            1int
        }),
{
    broadcast use vstd::seq_lib::group_to_multiset_ensures;

    assert(q.push(a).to_multiset() =~= q.to_multiset().insert(a));
    assert(q.push(a).push(b).to_multiset() =~= q.push(a).to_multiset().insert(b));
    assert(q.push(b).to_multiset() =~= q.to_multiset().insert(b));
    assert(q.push(b).push(a).to_multiset() =~= q.push(b).to_multiset().insert(a));
    assert(q.to_multiset().insert(b).insert(a) =~= q.to_multiset().insert(a).insert(b));
}

} // verus!
