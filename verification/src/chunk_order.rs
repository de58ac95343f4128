//! Order in which chunks leave the ring: first in, first out.
use vstd::prelude::*;
use crate::render::Chunk;

verus! {

/// Contents after chunks `cs` are pushed, in order, onto a ring holding `q` (each push
/// accepted).
pub open spec fn pushed_all(q: Seq<Chunk>, cs: Seq<Chunk>) -> Seq<Chunk>
    decreases cs.len(),
{
    if cs.len() == 0 {
        q
    } else {
        pushed_all(q.push(cs[0]), cs.drop_first())
    }
}

/// Chunks returned by popping a ring holding `q` until it is empty, in order.
pub open spec fn popped_all(q: Seq<Chunk>) -> Seq<Chunk>
    decreases q.len(),
{
    if q.len() == 0 {
        Seq::empty()
    } else {
        seq![q[0]] + popped_all(q.drop_first())
    }
}

/// First in, first out: chunks pushed onto a ring come back from the pops in the order they
/// were pushed, after what the ring held before.
pub proof fn lemma_ring_fifo(q: Seq<Chunk>, cs: Seq<Chunk>)
    ensures
        pushed_all(q, cs) == q + cs,
        popped_all(q + cs) == q + cs,
    decreases cs.len(),
{
    if cs.len() == 0 {
        assert(q + cs =~= q);
    } else {
        lemma_ring_fifo(q.push(cs[0]), cs.drop_first());
        assert(q.push(cs[0]) + cs.drop_first() =~= q + cs);
    }
    lemma_popped_all(q + cs);
}

proof fn lemma_popped_all(q: Seq<Chunk>)
    ensures
        popped_all(q) == q,
    decreases q.len(),
{
    if q.len() > 0 {
        lemma_popped_all(q.drop_first());
        assert(seq![q[0]] + q.drop_first() =~= q);
    }
}

} // verus!
