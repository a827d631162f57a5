//! The stateful path-event transformer: consumes an ordered event
//! sequence, tracks the current drawing point, and replaces every
//! cubic-draw event (and every supplied arc decomposition) in place by a
//! run of quadratic-draw events, passing all other events through
//! unchanged and in order.
//!
//! Arc decomposition itself is the external collaborator's task: on an
//! arc-draw event the transformer hands back an [`ArcRequest`] carrying
//! the reconstructed arc description, and the caller answers it through
//! [`CubicToQuadraticTransformer::supply_arc`] with the collaborator's
//! quadratic segments.

use vstd::prelude::*;
use crate::geometry::{
    COORD_LIMIT, ERROR_BOUND_LIMIT, CubicSegment, CubicV, Point, PointV, QuadV,
    QuadraticSegment, pt_bounded, quad_of_v, split_l_v, split_r_v,
};
use crate::model::{cap_left, refine, stack_bounded, lemma_refine_bounded};
use crate::cubic::CubicToQuadraticSegmentIter;
use crate::arc::{ArcToQuadraticSegmentIter, quads_bounded};

verus! {

/// A path-drawing event over fixed-point coordinates. Arc-draw events
/// carry the fields of the inbound path format: an endpoint, the two
/// radii, and two angles in the caller's angle unit.
#[derive(Clone, Copy, PartialEq, Eq, Structural, Debug)]
pub enum PathEvent {
    MoveTo(Point),
    LineTo(Point),
    QuadraticTo(Point, Point),
    CubicTo(Point, Point, Point),
    ArcTo { to: Point, radii: Point, angle_from: i64, angle_to: i64 },
    Close,
}

/// Model of a path event.
pub ghost enum EventV {
    MoveTo(PointV),
    LineTo(PointV),
    QuadraticTo(PointV, PointV),
    CubicTo(PointV, PointV, PointV),
    ArcTo { to: PointV, radii: PointV, angle_from: int, angle_to: int },
    Close,
}

impl View for PathEvent {
    type V = EventV;

    open spec fn view(&self) -> EventV {
        match *self {
            PathEvent::MoveTo(p) => EventV::MoveTo(p@),
            PathEvent::LineTo(p) => EventV::LineTo(p@),
            PathEvent::QuadraticTo(c, p) => EventV::QuadraticTo(c@, p@),
            PathEvent::CubicTo(c1, c2, p) => EventV::CubicTo(c1@, c2@, p@),
            PathEvent::ArcTo { to, radii, angle_from, angle_to } => EventV::ArcTo {
                to: to@,
                radii: radii@,
                angle_from: angle_from as int,
                angle_to: angle_to as int,
            },
            PathEvent::Close => EventV::Close,
        }
    }
}

/// The arc description handed to the arc-decomposition collaborator,
/// reconstructed from an arc-draw event and the current point: the
/// event's endpoint as the center, its radii, its first angle as the
/// axis rotation, its second angle as the sweep, and the chord from the
/// current point to the endpoint, whose axis angle minus the rotation
/// is the arc's start angle.
#[derive(Clone, Copy, PartialEq, Eq, Structural, Debug)]
pub struct ArcRequest {
    pub center: Point,
    pub radii: Point,
    pub x_rotation: i64,
    pub sweep_angle: i64,
    pub start_chord: Point,
}

/// Model of an arc request.
pub ghost struct ArcRequestV {
    pub center: PointV,
    pub radii: PointV,
    pub x_rotation: int,
    pub sweep_angle: int,
    pub start_chord: PointV,
}

impl View for ArcRequest {
    type V = ArcRequestV;

    open spec fn view(&self) -> ArcRequestV {
        ArcRequestV {
            center: self.center@,
            radii: self.radii@,
            x_rotation: self.x_rotation as int,
            sweep_angle: self.sweep_angle as int,
            start_chord: self.start_chord@,
        }
    }
}

/// One step of the transformer: an output event, a request for an arc
/// decomposition, or the end of the stream.
#[derive(Clone, Copy, PartialEq, Eq, Structural, Debug)]
pub enum TransformStep {
    Emit(PathEvent),
    NeedArc(ArcRequest),
    Finished,
}

/// Model of the active sub-sequence being drained.
pub ghost enum DrainV {
    Idle,
    Cubic(Seq<CubicV>, int),
    Arc(Seq<QuadV>),
    Await(ArcRequestV),
}

/// Model of a transformer: the event source and a cursor into it, the
/// active sub-sequence, the current point, and the error bound.
pub ghost struct TransV {
    pub events: Seq<EventV>,
    pub idx: int,
    pub drain: DrainV,
    pub last: PointV,
    pub error_bound: int,
}

pub open spec fn event_bounded(e: EventV, m: int) -> bool {
    match e {
        EventV::MoveTo(p) => pt_bounded(p, m),
        EventV::LineTo(p) => pt_bounded(p, m),
        EventV::QuadraticTo(c, p) => pt_bounded(c, m) && pt_bounded(p, m),
        EventV::CubicTo(c1, c2, p) => pt_bounded(c1, m) && pt_bounded(c2, m) && pt_bounded(p, m),
        EventV::ArcTo { to, radii, angle_from: _, angle_to: _ } => pt_bounded(to, m) && pt_bounded(radii, m),
        EventV::Close => true,
    }
}

pub open spec fn events_bounded(events: Seq<EventV>, m: int) -> bool {
    forall|i: int| 0 <= i < events.len() ==> event_bounded(#[trigger] events[i], m)
}

/// Validity of a transformer state.
pub open spec fn tv_wf(v: TransV) -> bool {
    &&& 0 <= v.idx <= v.events.len()
    &&& events_bounded(v.events, COORD_LIMIT as int)
    &&& pt_bounded(v.last, COORD_LIMIT as int)
    &&& 1 <= v.error_bound <= ERROR_BOUND_LIMIT as int
    &&& match v.drain {
        DrainV::Cubic(stack, it) => {
            stack_bounded(stack, COORD_LIMIT as int)
                && 0 <= it <= crate::model::MAX_APPROXIMATION_ITERATIONS as int
        },
        DrainV::Arc(qs) => quads_bounded(qs, COORD_LIMIT as int),
        _ => true,
    }
}

/// The arc description that an arc-draw event at current point `last`
/// asks the collaborator to decompose: the event's endpoint as center,
/// its radii, its first angle as axis rotation, its second angle as
/// sweep, and the chord from the current point to the endpoint.
pub open spec fn arc_request_for(e: EventV, last: PointV) -> ArcRequestV {
    match e {
        EventV::ArcTo { to, radii, angle_from, angle_to } => ArcRequestV {
            center: to,
            radii,
            x_rotation: angle_from,
            sweep_angle: angle_to,
            start_chord: PointV { x: to.x - last.x, y: to.y - last.y },
        },
        _ => ArcRequestV {
            center: last,
            radii: last,
            x_rotation: 0,
            sweep_angle: 0,
            start_chord: last,
        },
    }
}

/// A drain with nothing left to emit.
pub open spec fn drain_spent(d: DrainV) -> bool {
    match d {
        DrainV::Idle => true,
        DrainV::Cubic(stack, _) => stack.len() == 0,
        DrainV::Arc(qs) => qs.len() == 0,
        DrainV::Await(_) => false,
    }
}

pub open spec fn drain_active(d: DrainV) -> int {
    match d {
        DrainV::Idle => 0,
        _ => 1,
    }
}

pub open spec fn drain_cap(d: DrainV) -> int {
    match d {
        DrainV::Cubic(_, it) => cap_left(it),
        _ => 0,
    }
}

pub open spec fn drain_size(d: DrainV) -> int {
    match d {
        DrainV::Cubic(stack, _) => stack.len() as int,
        DrainV::Arc(qs) => qs.len() as int,
        _ => 0,
    }
}

/// The stored request of a waiting drain.
pub open spec fn await_req(d: DrainV) -> ArcRequestV
    recommends
        d is Await,
{
    match d {
        DrainV::Await(r) => r,
        _ => ArcRequestV {
            center: PointV { x: 0, y: 0 },
            radii: PointV { x: 0, y: 0 },
            x_rotation: 0,
            sweep_angle: 0,
            start_chord: PointV { x: 0, y: 0 },
        },
    }
}

/// Every event the transformer will still emit from the given state, in
/// order, up to (not including) the next arc request or the end of the
/// stream.
pub open spec fn t_outputs(v: TransV) -> Seq<EventV>
    decreases v.events.len() - v.idx, drain_active(v.drain), drain_cap(v.drain), drain_size(v.drain),
        when 0 <= v.idx <= v.events.len()
{
    match v.drain {
        DrainV::Await(_) => Seq::<EventV>::empty(),
        DrainV::Cubic(stack, it) => {
            if stack.len() == 0 {
                t_outputs(TransV { drain: DrainV::Idle, ..v })
            } else {
                let c = stack.last();
                let rest = stack.drop_last();
                let q = quad_of_v(c);
                if it >= crate::model::MAX_APPROXIMATION_ITERATIONS as int {
                    seq![EventV::QuadraticTo(q.ctrl, q.to)]
                        + t_outputs(TransV { drain: DrainV::Cubic(rest, it), last: q.to, ..v })
                } else if crate::geometry::seg_within_bound(c, v.error_bound) {
                    seq![EventV::QuadraticTo(q.ctrl, q.to)]
                        + t_outputs(TransV { drain: DrainV::Cubic(rest, it + 1), last: q.to, ..v })
                } else {
                    t_outputs(TransV {
                        drain: DrainV::Cubic(rest.push(split_r_v(c)).push(split_l_v(c)), it + 1),
                        ..v
                    })
                }
            }
        },
        DrainV::Arc(qs) => {
            if qs.len() == 0 {
                t_outputs(TransV { drain: DrainV::Idle, ..v })
            } else {
                let q = qs.last();
                seq![EventV::QuadraticTo(q.ctrl, q.to)]
                    + t_outputs(TransV { drain: DrainV::Arc(qs.drop_last()), last: q.to, ..v })
            }
        },
        DrainV::Idle => {
            if v.idx >= v.events.len() {
                Seq::<EventV>::empty()
            } else {
                match v.events[v.idx] {
                    EventV::MoveTo(p) => seq![EventV::MoveTo(p)]
                        + t_outputs(TransV { idx: v.idx + 1, last: p, ..v }),
                    EventV::LineTo(p) => seq![EventV::LineTo(p)]
                        + t_outputs(TransV { idx: v.idx + 1, last: p, ..v }),
                    EventV::QuadraticTo(c, p) => seq![EventV::QuadraticTo(c, p)]
                        + t_outputs(TransV { idx: v.idx + 1, last: p, ..v }),
                    EventV::Close => seq![EventV::Close]
                        + t_outputs(TransV { idx: v.idx + 1, ..v }),
                    EventV::CubicTo(c1, c2, p) => {
                        let cub = CubicV { from: v.last, ctrl1: c1, ctrl2: c2, to: p };
                        t_outputs(TransV {
                            idx: v.idx + 1,
                            drain: DrainV::Cubic(seq![split_r_v(cub), split_l_v(cub)], 0),
                            last: p,
                            ..v
                        })
                    },
                    EventV::ArcTo { to: _, radii: _, angle_from: _, angle_to: _ } => Seq::<EventV>::empty(),
                }
            }
        },
    }
}

/// The active sub-sequence, inline: either nothing, a cubic approximator
/// in progress, an arc emission in progress, or a pending arc request.
enum Drain {
    Idle,
    DrainingCubic(CubicToQuadraticSegmentIter),
    DrainingArc(ArcToQuadraticSegmentIter),
    AwaitingArc(ArcRequest),
}

impl View for Drain {
    type V = DrainV;

    closed spec fn view(&self) -> DrainV {
        match *self {
            Drain::Idle => DrainV::Idle,
            Drain::DrainingCubic(it) => DrainV::Cubic(it@.stack, it@.iteration),
            Drain::DrainingArc(it) => DrainV::Arc(it@),
            Drain::AwaitingArc(req) => DrainV::Await(req@),
        }
    }
}

/// Rewrites a path-event sequence so that every cubic-draw and arc-draw
/// event is replaced in place by quadratic-draw events, all other events
/// passing through verbatim and in their original relative order.
pub struct CubicToQuadraticTransformer {
    events: Vec<PathEvent>,
    idx: usize,
    drain: Drain,
    last_point: Point,
    error_bound: i64,
}

impl View for CubicToQuadraticTransformer {
    type V = TransV;

    closed spec fn view(&self) -> TransV {
        TransV {
            events: self.events@.map_values(|e: PathEvent| e@),
            idx: self.idx as int,
            drain: self.drain@,
            last: self.last_point@,
            error_bound: self.error_bound as int,
        }
    }
}

impl CubicToQuadraticTransformer {
    /// Validity: a bounded state, and an inner approximator (if one is
    /// draining) that is itself valid and carries this error bound.
    pub closed spec fn wf(&self) -> bool {
        &&& tv_wf(self@)
        &&& match self.drain {
            Drain::DrainingCubic(it) => it.wf() && it@.error_bound == self.error_bound as int,
            _ => true,
        }
    }

    /// Starts a transformer over an event sequence; the current point
    /// starts at the origin.
    pub fn new(events: Vec<PathEvent>, error_bound: i64) -> (s: CubicToQuadraticTransformer)
        requires
            events_bounded(events@.map_values(|e: PathEvent| e@), COORD_LIMIT as int),
            1 <= error_bound <= ERROR_BOUND_LIMIT,
        ensures
            s.wf(),
            s@ == (TransV {
                events: events@.map_values(|e: PathEvent| e@),
                idx: 0,
                drain: DrainV::Idle,
                last: PointV { x: 0, y: 0 },
                error_bound: error_bound as int,
            }),
    {
        CubicToQuadraticTransformer {
            events,
            idx: 0,
            drain: Drain::Idle,
            last_point: Point { x: 0, y: 0 },
            error_bound,
        }
    }

    /// Answers a pending arc request with the collaborator's quadratic
    /// segments, in the collaborator's generation order; they will be
    /// emitted in reverse of that order.
    pub fn supply_arc(&mut self, quads: Vec<QuadraticSegment>)
        requires
            old(self).wf(),
            old(self)@.drain is Await,
            quads_bounded(quads@.map_values(|q: QuadraticSegment| q@), COORD_LIMIT as int),
        ensures
            final(self).wf(),
            final(self)@ == (TransV {
                drain: DrainV::Arc(quads@.map_values(|q: QuadraticSegment| q@)),
                ..old(self)@
            }),
    {
        self.drain = Drain::DrainingArc(ArcToQuadraticSegmentIter::new(quads));
    }

    /// Produces the next output event, requests an arc decomposition, or
    /// signals the end of the stream. Every emitted event is a move-to,
    /// line-to, quadratic-draw or close event, never a cubic-draw or
    /// arc-draw; the stream of emitted events follows `t_outputs`.
    #[verifier::rlimit(100)]
    pub fn next(&mut self) -> (step: TransformStep)
        requires
            old(self).wf(),
        ensures
            final(self).wf(),
            final(self)@.events == old(self)@.events,
            final(self)@.error_bound == old(self)@.error_bound,
            old(self)@.idx <= final(self)@.idx,
            step matches TransformStep::Emit(e) ==> ({
                &&& !(e@ is CubicTo)
                &&& !(e@ is ArcTo)
                &&& t_outputs(old(self)@) == seq![e@] + t_outputs(final(self)@)
            }),
            step is Finished ==> ({
                &&& drain_spent(old(self)@.drain)
                &&& old(self)@.idx == old(self)@.events.len()
                &&& final(self)@ == (TransV { drain: DrainV::Idle, ..old(self)@ })
                &&& t_outputs(old(self)@).len() == 0
            }),
            step matches TransformStep::NeedArc(req) ==> ({
                &&& t_outputs(old(self)@).len() == 0
                &&& final(self)@.drain == DrainV::Await(req@)
                &&& (old(self)@.drain is Await ==> req@ == await_req(old(self)@.drain)
                    && final(self)@ == old(self)@)
                &&& (drain_spent(old(self)@.drain) ==> old(self)@.idx < old(self)@.events.len()
                    && old(self)@.events[old(self)@.idx] is ArcTo
                    && req@ == arc_request_for(old(self)@.events[old(self)@.idx], old(self)@.last)
                    && final(self)@.idx == old(self)@.idx + 1
                    && final(self)@.last == req@.center)
            }),
    {
        let ghost v0 = self@;
        match &mut self.drain {
            Drain::AwaitingArc(req) => {
                return TransformStep::NeedArc(*req);
            },
            Drain::DrainingCubic(iter) => {
                let ghost stack0 = iter@.stack;
                let ghost it0 = iter@.iteration;
                let n = iter.next();
                if let Some(q) = n {
                    proof {
                        lemma_refine_bounded(
                            stack0.last(),
                            stack0.drop_last(),
                            it0,
                            v0.error_bound,
                            COORD_LIMIT as int,
                        );
                        lemma_step_cubic(v0);
                    }
                    self.last_point = q.to;
                    return TransformStep::Emit(PathEvent::QuadraticTo(q.ctrl, q.to));
                }
            },
            Drain::DrainingArc(iter) => {
                let n = iter.next();
                if let Some(q) = n {
                    self.last_point = q.to;
                    return TransformStep::Emit(PathEvent::QuadraticTo(q.ctrl, q.to));
                }
            },
            Drain::Idle => {},
        }
        self.drain = Drain::Idle;
        let ghost v1 = TransV { drain: DrainV::Idle, ..v0 };
        proof {
            assert(t_outputs(v0) == t_outputs(v1));
        }
        if self.idx == self.events.len() {
            return TransformStep::Finished;
        }
        let ev = self.events[self.idx];
        self.idx = self.idx + 1;
        proof {
            assert(ev@ == v0.events[v0.idx]);
        }
        match ev {
            PathEvent::MoveTo(p) => {
                self.last_point = p;
                TransformStep::Emit(PathEvent::MoveTo(p))
            },
            PathEvent::LineTo(p) => {
                self.last_point = p;
                TransformStep::Emit(PathEvent::LineTo(p))
            },
            PathEvent::QuadraticTo(c, p) => {
                self.last_point = p;
                TransformStep::Emit(PathEvent::QuadraticTo(c, p))
            },
            PathEvent::Close => {
                TransformStep::Emit(PathEvent::Close)
            },
            PathEvent::CubicTo(c1, c2, p) => {
                let cubic = CubicSegment { from: self.last_point, ctrl1: c1, ctrl2: c2, to: p };
                self.last_point = p;
                let mut iter = CubicToQuadraticSegmentIter::new(&cubic, self.error_bound);
                let ghost v2 = TransV {
                    idx: v1.idx + 1,
                    drain: DrainV::Cubic(seq![split_r_v(cubic@), split_l_v(cubic@)], 0),
                    last: p@,
                    ..v1
                };
                proof {
                    assert(t_outputs(v1) == t_outputs(v2));
                    assert(iter@.stack =~= v2.drain->Cubic_0);
                    lemma_refine_bounded(
                        iter@.stack.last(),
                        iter@.stack.drop_last(),
                        0,
                        v0.error_bound,
                        COORD_LIMIT as int,
                    );
                    lemma_step_cubic(v2);
                }
                let q = iter.next().unwrap();
                self.last_point = q.to;
                self.drain = Drain::DrainingCubic(iter);
                TransformStep::Emit(PathEvent::QuadraticTo(q.ctrl, q.to))
            },
            PathEvent::ArcTo { to, radii, angle_from, angle_to } => {
                let chord = Point { x: to.x - self.last_point.x, y: to.y - self.last_point.y };
                let req = ArcRequest {
                    center: to,
                    radii,
                    x_rotation: angle_from,
                    sweep_angle: angle_to,
                    start_chord: chord,
                };
                self.last_point = to;
                self.drain = Drain::AwaitingArc(req);
                TransformStep::NeedArc(req)
            },
        }
    }
}

/// Aligns one emission of the draining cubic approximator (a pop and the
/// whole check-and-split loop) with the small-step output stream: the
/// stream is the refined quadratic-draw event followed by the stream
/// from the advanced state, with the current point moved to the emitted
/// endpoint.
proof fn lemma_step_cubic(v: TransV)
    requires
        0 <= v.idx <= v.events.len(),
        v.drain matches DrainV::Cubic(stack, it) && stack.len() > 0 && 0 <= it,
    ensures
        ({
            let stack = v.drain->Cubic_0;
            let it = v.drain->Cubic_1;
            let r = refine(stack.last(), stack.drop_last(), it, v.error_bound);
            let q = quad_of_v(r.0);
            t_outputs(v) == seq![EventV::QuadraticTo(q.ctrl, q.to)]
                + t_outputs(TransV { drain: DrainV::Cubic(r.1, r.2), last: q.to, ..v })
        }),
    decreases cap_left(v.drain->Cubic_1),
{
    let stack = v.drain->Cubic_0;
    let it = v.drain->Cubic_1;
    let c = stack.last();
    let rest = stack.drop_last();
    if it >= crate::model::MAX_APPROXIMATION_ITERATIONS as int {
    } else if crate::geometry::seg_within_bound(c, v.error_bound) {
    } else {
        let stack1 = rest.push(split_r_v(c)).push(split_l_v(c));
        let v1 = TransV { drain: DrainV::Cubic(stack1, it + 1), ..v };
        assert(stack1.last() == split_l_v(c));
        assert(stack1.drop_last() =~= rest.push(split_r_v(c)));
        lemma_step_cubic(v1);
        assert(refine(c, rest, it, v.error_bound)
            == refine(split_l_v(c), rest.push(split_r_v(c)), it + 1, v.error_bound));
    }
}

/// Output-restriction law: whatever the state, the output stream holds
/// only move-to, line-to, quadratic-draw and close events; cubic-draw
/// and arc-draw events never appear.
pub proof fn lemma_outputs_quadratic_only(v: TransV)
    requires
        0 <= v.idx <= v.events.len(),
    ensures
        forall|i: int| 0 <= i < t_outputs(v).len()
            ==> !((#[trigger] t_outputs(v)[i]) is CubicTo) && !(t_outputs(v)[i] is ArcTo),
    decreases v.events.len() - v.idx, drain_active(v.drain), drain_cap(v.drain), drain_size(v.drain),
{
    match v.drain {
        DrainV::Await(_) => {},
        DrainV::Cubic(stack, it) => {
            if stack.len() == 0 {
                lemma_outputs_quadratic_only(TransV { drain: DrainV::Idle, ..v });
            } else {
                let c = stack.last();
                let rest = stack.drop_last();
                let q = quad_of_v(c);
                if it >= crate::model::MAX_APPROXIMATION_ITERATIONS as int {
                    lemma_outputs_quadratic_only(
                        TransV { drain: DrainV::Cubic(rest, it), last: q.to, ..v },
                    );
                } else if crate::geometry::seg_within_bound(c, v.error_bound) {
                    lemma_outputs_quadratic_only(
                        TransV { drain: DrainV::Cubic(rest, it + 1), last: q.to, ..v },
                    );
                } else {
                    lemma_outputs_quadratic_only(TransV {
                        drain: DrainV::Cubic(rest.push(split_r_v(c)).push(split_l_v(c)), it + 1),
                        ..v
                    });
                }
            }
        },
        DrainV::Arc(qs) => {
            if qs.len() == 0 {
                lemma_outputs_quadratic_only(TransV { drain: DrainV::Idle, ..v });
            } else {
                let q = qs.last();
                lemma_outputs_quadratic_only(
                    TransV { drain: DrainV::Arc(qs.drop_last()), last: q.to, ..v },
                );
            }
        },
        DrainV::Idle => {
            if v.idx < v.events.len() {
                match v.events[v.idx] {
                    EventV::MoveTo(p) => {
                        lemma_outputs_quadratic_only(TransV { idx: v.idx + 1, last: p, ..v });
                    },
                    EventV::LineTo(p) => {
                        lemma_outputs_quadratic_only(TransV { idx: v.idx + 1, last: p, ..v });
                    },
                    EventV::QuadraticTo(_, p) => {
                        lemma_outputs_quadratic_only(TransV { idx: v.idx + 1, last: p, ..v });
                    },
                    EventV::Close => {
                        lemma_outputs_quadratic_only(TransV { idx: v.idx + 1, ..v });
                    },
                    EventV::CubicTo(c1, c2, p) => {
                        let cub = CubicV { from: v.last, ctrl1: c1, ctrl2: c2, to: p };
                        lemma_outputs_quadratic_only(TransV {
                            idx: v.idx + 1,
                            drain: DrainV::Cubic(seq![split_r_v(cub), split_l_v(cub)], 0),
                            last: p,
                            ..v
                        });
                    },
                    EventV::ArcTo { to: _, radii: _, angle_from: _, angle_to: _ } => {},
                }
            }
        },
    }
}

/// Pass-through identity: while the drain is idle and every remaining
/// event is a move-to, line-to, quadratic-draw or close event, the
/// output stream is exactly the remaining input, unchanged and in order.
pub open spec fn passthrough_only(events: Seq<EventV>, lo: int) -> bool {
    forall|i: int| lo <= i < events.len() ==> {
        ||| (#[trigger] events[i]) is MoveTo
        ||| events[i] is LineTo
        ||| events[i] is QuadraticTo
        ||| events[i] is Close
    }
}

/// Identity law: a transformer whose remaining events are all move-to,
/// line-to, quadratic-draw or close events reproduces them unchanged and
/// in order, and nothing else.
pub proof fn lemma_passthrough_identity(v: TransV)
    requires
        0 <= v.idx <= v.events.len(),
        v.drain is Idle,
        passthrough_only(v.events, v.idx),
    ensures
        t_outputs(v) == v.events.skip(v.idx),
    decreases v.events.len() - v.idx,
{
    if v.idx == v.events.len() {
        assert(t_outputs(v) =~= v.events.skip(v.idx));
    } else {
        let e = v.events[v.idx];
        let p_next = match e {
            EventV::MoveTo(p) => p,
            EventV::LineTo(p) => p,
            EventV::QuadraticTo(_, p) => p,
            _ => v.last,
        };
        let v1 = TransV { idx: v.idx + 1, last: p_next, ..v };
        lemma_passthrough_identity(v1);
        if e is Close {
            let v2 = TransV { idx: v.idx + 1, ..v };
            lemma_passthrough_identity(v2);
            assert(t_outputs(v) =~= v.events.skip(v.idx));
        } else {
            assert(t_outputs(v) =~= v.events.skip(v.idx));
        }
    }
}

/// Identity law at the constructor: a transformer started over a
/// sequence holding only move-to, line-to, quadratic-draw and close
/// events emits exactly that sequence.
pub proof fn lemma_transformer_identity(events: Seq<EventV>, last: PointV, eb: int)
    requires
        passthrough_only(events, 0),
    ensures
        t_outputs(TransV { events, idx: 0, drain: DrainV::Idle, last, error_bound: eb })
            == events,
{
    let v = TransV { events, idx: 0, drain: DrainV::Idle, last, error_bound: eb };
    lemma_passthrough_identity(v);
    assert(events.skip(0) =~= events);
}

} // verus!
