use path_utils::geometry::{Point, QuadraticSegment};
use path_utils::transform::{ArcRequest, CubicToQuadraticTransformer, PathEvent, TransformStep};

fn pt(x: i64, y: i64) -> Point {
    Point { x, y }
}

/// Drives the transformer to the end, answering arc requests with `arcs`
/// (one entry per request, in order).
fn run(
    events: Vec<PathEvent>,
    error_bound: i64,
    mut arcs: Vec<Vec<QuadraticSegment>>,
) -> (Vec<PathEvent>, Vec<ArcRequest>) {
    let mut t = CubicToQuadraticTransformer::new(events, error_bound);
    let mut out = Vec::new();
    let mut requests = Vec::new();
    loop {
        match t.next() {
            TransformStep::Emit(e) => out.push(e),
            TransformStep::NeedArc(req) => {
                requests.push(req);
                assert!(!arcs.is_empty(), "unexpected arc request");
                t.supply_arc(arcs.remove(0));
            },
            TransformStep::Finished => break,
        }
    }
    (out, requests)
}

#[test]
fn passthrough_identity() {
    // only move-to, line-to and close events: reproduced unchanged, in
    // order, and nothing else
    let events = vec![
        PathEvent::MoveTo(pt(0, 0)),
        PathEvent::LineTo(pt(10, 0)),
        PathEvent::LineTo(pt(10, 10)),
        PathEvent::Close,
        PathEvent::MoveTo(pt(-5, 3)),
        PathEvent::LineTo(pt(7, -2)),
        PathEvent::Close,
    ];
    let (out, requests) = run(events.clone(), 1, vec![]);
    assert_eq!(out, events);
    assert!(requests.is_empty());
}

#[test]
fn quadratic_events_pass_through() {
    let events = vec![
        PathEvent::MoveTo(pt(0, 0)),
        PathEvent::QuadraticTo(pt(5, 5), pt(10, 0)),
        PathEvent::Close,
    ];
    let (out, _) = run(events.clone(), 1, vec![]);
    assert_eq!(out, events);
}

#[test]
fn cubic_replaced_in_place() {
    let events = vec![
        PathEvent::MoveTo(pt(0, 0)),
        PathEvent::LineTo(pt(0, 500)),
        PathEvent::CubicTo(pt(0, 1500), pt(1000, 1500), pt(1000, 500)),
        PathEvent::LineTo(pt(1000, 0)),
        PathEvent::Close,
    ];
    let (out, _) = run(events, 10, vec![]);
    assert_eq!(out[0], PathEvent::MoveTo(pt(0, 0)));
    assert_eq!(out[1], PathEvent::LineTo(pt(0, 500)));
    assert_eq!(out[out.len() - 2], PathEvent::LineTo(pt(1000, 0)));
    assert_eq!(out[out.len() - 1], PathEvent::Close);
    let quads = &out[2..out.len() - 2];
    assert!(!quads.is_empty());
    // the run of quadratic-draw events spans from the tracked current
    // point to the cubic's endpoint, and chains end to end
    let mut current = pt(0, 500);
    for e in quads {
        match e {
            PathEvent::QuadraticTo(_, to) => {
                current = *to;
            },
            other => panic!("non-quadratic event inside the replacement run: {other:?}"),
        }
    }
    assert_eq!(current, pt(1000, 500));
    // no cubic-draw or arc-draw event anywhere in the output
    for e in &out {
        assert!(!matches!(e, PathEvent::CubicTo(..)));
        assert!(!matches!(e, PathEvent::ArcTo { .. }));
    }
}

#[test]
fn arc_request_fields_and_reversed_emission() {
    let events = vec![
        PathEvent::MoveTo(pt(100, 200)),
        PathEvent::ArcTo { to: pt(500, 600), radii: pt(50, 60), angle_from: 7, angle_to: 9 },
        PathEvent::LineTo(pt(800, 800)),
    ];
    let q1 = QuadraticSegment { from: pt(1, 1), ctrl: pt(2, 2), to: pt(3, 3) };
    let q2 = QuadraticSegment { from: pt(3, 3), ctrl: pt(4, 4), to: pt(5, 5) };
    let q3 = QuadraticSegment { from: pt(5, 5), ctrl: pt(6, 6), to: pt(7, 7) };
    let (out, requests) = run(events, 1, vec![vec![q1, q2, q3]]);
    assert_eq!(requests.len(), 1);
    let req = requests[0];
    assert_eq!(req.center, pt(500, 600));
    assert_eq!(req.radii, pt(50, 60));
    assert_eq!(req.x_rotation, 7);
    assert_eq!(req.sweep_angle, 9);
    assert_eq!(req.start_chord, pt(400, 400));
    assert_eq!(
        out,
        vec![
            PathEvent::MoveTo(pt(100, 200)),
            PathEvent::QuadraticTo(pt(6, 6), pt(7, 7)),
            PathEvent::QuadraticTo(pt(4, 4), pt(5, 5)),
            PathEvent::QuadraticTo(pt(2, 2), pt(3, 3)),
            PathEvent::LineTo(pt(800, 800)),
        ],
    );
}

#[test]
fn arc_request_repeats_until_supplied() {
    let events = vec![PathEvent::ArcTo {
        to: pt(10, 0),
        radii: pt(10, 10),
        angle_from: 0,
        angle_to: 3,
    }];
    let mut t = CubicToQuadraticTransformer::new(events, 1);
    let first = t.next();
    let again = t.next();
    assert_eq!(first, again);
    assert!(matches!(first, TransformStep::NeedArc(_)));
    t.supply_arc(Vec::new());
    assert_eq!(t.next(), TransformStep::Finished);
}

#[test]
fn empty_arc_supply_moves_on() {
    let events = vec![
        PathEvent::ArcTo { to: pt(10, 0), radii: pt(10, 10), angle_from: 0, angle_to: 3 },
        PathEvent::LineTo(pt(20, 20)),
    ];
    let (out, requests) = run(events, 1, vec![Vec::new()]);
    assert_eq!(requests.len(), 1);
    assert_eq!(out, vec![PathEvent::LineTo(pt(20, 20))]);
}

#[test]
fn finished_is_stable() {
    let mut t = CubicToQuadraticTransformer::new(Vec::new(), 1);
    assert_eq!(t.next(), TransformStep::Finished);
    assert_eq!(t.next(), TransformStep::Finished);
}
