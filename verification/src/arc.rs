//! Emission of an already-decomposed elliptical arc: the quadratic
//! segments produced by the arc-decomposition collaborator are buffered
//! eagerly and handed out one at a time from the end of the buffer, so
//! the observed order is the reverse of the generation order.

use vstd::prelude::*;
use crate::geometry::{QuadV, QuadraticSegment, quad_bounded};

verus! {

pub open spec fn quads_bounded(qs: Seq<QuadV>, m: int) -> bool {
    forall|i: int| 0 <= i < qs.len() ==> quad_bounded(#[trigger] qs[i], m)
}

/// Every quadratic the iterator will emit from the given buffer, first
/// emission first: the buffer drained from the end.
pub open spec fn arc_emit_all(qs: Seq<QuadV>) -> Seq<QuadV>
    decreases qs.len(),
{
    if qs.len() == 0 {
        Seq::<QuadV>::empty()
    } else {
        seq![qs.last()] + arc_emit_all(qs.drop_last())
    }
}

/// Reversal law: the emitted sequence is exactly the buffered sequence
/// in reverse order; in particular the counts are equal.
pub proof fn lemma_arc_emission_reversed(qs: Seq<QuadV>)
    ensures
        arc_emit_all(qs) == qs.reverse(),
        arc_emit_all(qs).len() == qs.len(),
    decreases qs.len(),
{
    if qs.len() == 0 {
        assert(arc_emit_all(qs) =~= qs.reverse());
    } else {
        lemma_arc_emission_reversed(qs.drop_last());
        assert(arc_emit_all(qs) =~= qs.reverse()) by {
            assert(forall|i: int| 0 <= i < qs.len() - 1
                ==> #[trigger] qs.drop_last().reverse()[i] == qs[qs.len() - 2 - i]);
        }
    }
}

/// Exposes the quadratic segments of one decomposed arc, last first.
pub struct ArcToQuadraticSegmentIter {
    segments: Vec<QuadraticSegment>,
}

impl View for ArcToQuadraticSegmentIter {
    type V = Seq<QuadV>;

    closed spec fn view(&self) -> Seq<QuadV> {
        self.segments@.map_values(|q: QuadraticSegment| q@)
    }
}

impl ArcToQuadraticSegmentIter {
    /// Buffers the collaborator's quadratic segments, in generation
    /// order.
    pub fn new(segments: Vec<QuadraticSegment>) -> (s: ArcToQuadraticSegmentIter)
        ensures
            s@ == segments@.map_values(|q: QuadraticSegment| q@),
    {
        ArcToQuadraticSegmentIter { segments }
    }

    /// Removes and returns the last buffered segment; exhaustion once
    /// the buffer is empty.
    pub fn next(&mut self) -> (r: Option<QuadraticSegment>)
        ensures
            old(self)@.len() == 0 ==> r is None && final(self)@ == old(self)@,
            old(self)@.len() > 0 ==> {
                &&& r is Some
                &&& r->Some_0@ == old(self)@.last()
                &&& final(self)@ =~= old(self)@.drop_last()
                &&& arc_emit_all(old(self)@) == seq![r->Some_0@] + arc_emit_all(final(self)@)
            },
    {
        let r = self.segments.pop();
        proof {
            if old(self)@.len() > 0 {
                assert(final(self)@ =~= old(self)@.drop_last());
            }
        }
        r
    }
}

} // verus!
