//! Queue entries for the pathfinder: a node tagged with the priority it was
//! pushed under, and extraction of the minimum.
//!
//! The queue itself is a plain vector in push order; `pop_min` removes the
//! first entry holding the minimal priority, so entries of equal priority
//! leave in the order they arrived.

use vstd::prelude::*;

verus! {

/// One queue entry: a node and the priority it was pushed with. Entries are
/// compared by priority alone; the node tags along.
#[derive(Debug, Clone, Copy)]
pub struct PriorityNode<W, N> {
    pub priority: W,
    pub node: N,
}

/// The index of the first entry of `q` whose priority is minimal;
/// meaningful when `q` is not empty.
pub open spec fn first_min_at<N>(q: Seq<PriorityNode<usize, N>>) -> int
    decreases q.len(),
{
    if q.len() <= 1 {
        0
    } else {
        let rest = 1 + first_min_at(q.drop_first());
        if q[0].priority <= q[rest].priority {
            0
        } else {
            rest
        }
    }
}

/// The first minimal entry is minimal, and everything before it is strictly
/// greater.
pub proof fn lemma_first_min_at<N>(q: Seq<PriorityNode<usize, N>>)
    requires
        q.len() > 0,
    ensures
        ({
            let m = first_min_at(q);
            &&& 0 <= m < q.len()
            &&& forall|i: int| 0 <= i < q.len() ==> q[m].priority <= (#[trigger] q[i]).priority
            &&& forall|i: int| 0 <= i < m ==> q[m].priority < (#[trigger] q[i]).priority
        }),
    decreases q.len(),
{
    if q.len() > 1 {
        let rest = q.drop_first();
        lemma_first_min_at(rest);
        let m = first_min_at(q);
        let mr = first_min_at(rest);
        assert(q[1 + mr] == rest[mr]);
        assert forall|i: int| 0 <= i < q.len() implies q[m].priority <= (#[trigger] q[i]).priority by {
            if i > 0 {
                assert(q[i] == rest[i - 1]);
            }
        }
        assert forall|i: int| 0 <= i < m implies q[m].priority < (#[trigger] q[i]).priority by {
            if i > 0 {
                assert(q[i] == rest[i - 1]);
            }
        }
    }
}

/// Removes and returns the first entry with minimal priority; the remaining
/// entries keep their order. Returns `None` on an empty queue.
pub fn pop_min<N>(queue: &mut Vec<PriorityNode<usize, N>>) -> (r: Option<PriorityNode<usize, N>>)
    ensures
        old(queue)@.len() == 0 ==> r is None && final(queue)@ == old(queue)@,
        old(queue)@.len() > 0 ==> ({
            let m = first_min_at(old(queue)@);
            &&& r == Some(old(queue)@[m])
            &&& final(queue)@ == old(queue)@.remove(m)
        }),
{
    if queue.len() == 0 {
        return None;
    }
    let mut best: usize = 0;
    let mut i: usize = 1;
    let n = queue.len();
    while i < n
        invariant
            n == queue@.len(),
            1 <= i <= n,
            (best as int) < i,
            forall|k: int|
                0 <= k < i ==> queue@[best as int].priority <= (#[trigger] queue@[k]).priority,
            forall|k: int|
                0 <= k < best ==> queue@[best as int].priority < (#[trigger] queue@[k]).priority,
        decreases n - i,
    {
        if queue[i].priority < queue[best].priority {
            best = i;
        }
        i = i + 1;
    }
    proof {
        lemma_first_min_at(queue@);
        let m = first_min_at(queue@);
        if (best as int) < m {
            assert(queue@[best as int].priority <= queue@[m].priority);
            assert(false);
        }
        if m < (best as int) {
            assert(queue@[m].priority <= queue@[best as int].priority);
            assert(false);
        }
    }
    Some(queue.remove(best))
}

} // verus!
