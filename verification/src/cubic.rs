//! Adaptive approximation of one cubic Bezier segment by a finite,
//! non-restartable sequence of quadratic segments.

use vstd::prelude::*;
use crate::geometry::{
    COORD_LIMIT, ERROR_BOUND_LIMIT, CubicSegment, CubicV, QuadV, QuadraticSegment, cubic_bounded,
    quad_of_v, seg_within_bound, split_cubic, split_l_v, split_r_v, quad_for, within_bound,
};
use crate::model::{
    MAX_APPROXIMATION_ITERATIONS, cap_left, emit_all, refine, stack_bounded,
    lemma_refine_accepted, lemma_refine_emit, lemma_refine_props,
};

verus! {

/// Model of an approximator: the pending stack (top last), the error
/// bound and the shared iteration counter.
pub ghost struct ApproxV {
    pub stack: Seq<CubicV>,
    pub error_bound: int,
    pub iteration: int,
}

/// Approximates a single cubic Bezier curve with a series of quadratic
/// Bezier curves, popped one at a time.
pub struct CubicToQuadraticSegmentIter {
    cubic_curves: Vec<CubicSegment>,
    error_bound: i64,
    iteration: u8,
}

impl View for CubicToQuadraticSegmentIter {
    type V = ApproxV;

    closed spec fn view(&self) -> ApproxV {
        ApproxV {
            stack: self.cubic_curves@.map_values(|c: CubicSegment| c@),
            error_bound: self.error_bound as int,
            iteration: self.iteration as int,
        }
    }
}

/// The one emission step at model level: pop the top pending segment,
/// refine it, and emit its quadratic; exhaustion if nothing is pending.
pub open spec fn approx_next(v: ApproxV) -> (Option<QuadV>, ApproxV) {
    if v.stack.len() == 0 {
        (None::<QuadV>, v)
    } else {
        let r = refine(v.stack.last(), v.stack.drop_last(), v.iteration, v.error_bound);
        (
            Some(quad_of_v(r.0)),
            ApproxV { stack: r.1, error_bound: v.error_bound, iteration: r.2 },
        )
    }
}

impl CubicToQuadraticSegmentIter {
    /// Validity: bounded coordinates, a usable error bound, a counter
    /// within the cap.
    pub open spec fn wf(&self) -> bool {
        &&& stack_bounded(self@.stack, COORD_LIMIT as int)
        &&& 1 <= self@.error_bound <= ERROR_BOUND_LIMIT as int
        &&& 0 <= self@.iteration <= MAX_APPROXIMATION_ITERATIONS as int
    }

    /// Splits the input cubic once and makes its two halves pending, the
    /// first half on top so that emission runs left to right.
    pub fn new(cubic: &CubicSegment, error_bound: i64) -> (s: CubicToQuadraticSegmentIter)
        requires
            cubic_bounded(cubic@, COORD_LIMIT as int),
            1 <= error_bound <= ERROR_BOUND_LIMIT,
        ensures
            s.wf(),
            s@.stack =~= crate::model::initial_stack(cubic@),
            s@.stack =~= seq![split_r_v(cubic@), split_l_v(cubic@)],
            s@.error_bound == error_bound,
            s@.iteration == 0,
    {
        let (curve_a, curve_b) = split_cubic(cubic);
        let mut curves: Vec<CubicSegment> = Vec::new();
        curves.push(curve_b);
        curves.push(curve_a);
        let s = CubicToQuadraticSegmentIter {
            cubic_curves: curves,
            error_bound,
            iteration: 0,
        };
        proof {
            assert(s@.stack =~= seq![split_r_v(cubic@), split_l_v(cubic@)]);
        }
        s
    }

    /// Emits the next quadratic, or signals exhaustion. While the shared
    /// counter is below the cap, the popped sub-segment is checked
    /// against the error bound and split at one half until it passes;
    /// once the cap is reached, pending sub-segments are emitted as they
    /// are.
    pub fn next(&mut self) -> (r: Option<QuadraticSegment>)
        requires
            old(self).wf(),
        ensures
            final(self).wf(),
            final(self)@ == approx_next(old(self)@).1,
            old(self)@.stack.len() == 0 ==> r is None && final(self)@ == old(self)@,
            old(self)@.stack.len() > 0 ==> {
                &&& r is Some
                &&& approx_next(old(self)@).0 == Some(r->Some_0@)
                &&& emit_all(old(self)@.stack, old(self)@.iteration, old(self)@.error_bound)
                    == seq![r->Some_0@]
                        + emit_all(final(self)@.stack, final(self)@.iteration, final(self)@.error_bound)
                &&& final(self)@.stack.len() + cap_left(final(self)@.iteration) + 1
                    <= old(self)@.stack.len() + cap_left(old(self)@.iteration)
                &&& r->Some_0@.from == old(self)@.stack.last().from
                &&& final(self)@.stack.len() >= old(self)@.stack.len() - 1
                &&& seg_within_bound(
                    refine(
                        old(self)@.stack.last(),
                        old(self)@.stack.drop_last(),
                        old(self)@.iteration,
                        old(self)@.error_bound,
                    ).0,
                    old(self)@.error_bound,
                ) || final(self)@.iteration == MAX_APPROXIMATION_ITERATIONS as int
            },
            old(self)@.iteration <= final(self)@.iteration,
    {
        let ghost v0 = self@;
        if self.cubic_curves.len() == 0 {
            return None;
        }
        let mut cubic = self.cubic_curves.pop().unwrap();
        let ghost c0 = cubic@;
        let ghost st0 = self@.stack;
        proof {
            assert(st0 =~= v0.stack.drop_last());
            assert(c0 == v0.stack.last());
        }
        while self.iteration < MAX_APPROXIMATION_ITERATIONS
            invariant_except_break
                self.wf(),
                cubic_bounded(cubic@, COORD_LIMIT as int),
                self@.error_bound == v0.error_bound,
                refine(c0, st0, v0.iteration, v0.error_bound)
                    == refine(cubic@, self@.stack, self@.iteration, self@.error_bound),
            ensures
                self.wf(),
                cubic_bounded(cubic@, COORD_LIMIT as int),
                self@.error_bound == v0.error_bound,
                refine(c0, st0, v0.iteration, v0.error_bound)
                    == (cubic@, self@.stack, self@.iteration),
            decreases MAX_APPROXIMATION_ITERATIONS - self.iteration,
        {
            let ghost it_head = self@.iteration;
            let ghost stack_head = self@.stack;
            self.iteration = self.iteration + 1;
            if within_bound(&cubic, self.error_bound) {
                break;
            }
            let (cubic_a, cubic_b) = split_cubic(&cubic);
            self.cubic_curves.push(cubic_b);
            proof {
                assert(self@.stack =~= stack_head.push(split_r_v(cubic@)));
            }
            cubic = cubic_a;
        }
        let result = quad_for(&cubic);
        proof {
            lemma_refine_props(c0, st0, v0.iteration, v0.error_bound);
            lemma_refine_accepted(c0, st0, v0.iteration, v0.error_bound);
            lemma_refine_emit(c0, st0, v0.iteration, v0.error_bound);
            assert(st0.push(c0) =~= v0.stack);
        }
        Some(result)
    }
}

} // verus!

