use lyon_geom::{point, vector, Angle, Arc, QuadraticBezierSegment};
use path_utils::arc::ArcToQuadraticSegmentIter;
use path_utils::geometry::{Point, QuadraticSegment};

const SCALE: f32 = 1024.0;

fn to_fixed(p: lyon_geom::Point<f32>) -> Point {
    Point { x: (p.x * SCALE).round() as i64, y: (p.y * SCALE).round() as i64 }
}

fn convert(q: &QuadraticBezierSegment<f32>) -> QuadraticSegment {
    QuadraticSegment { from: to_fixed(q.from), ctrl: to_fixed(q.ctrl), to: to_fixed(q.to) }
}

#[test]
fn quarter_circle_reversed_emission() {
    // a quarter circle decomposed by the collaborator: the iterator
    // yields exactly the collaborator's segments, in reverse of its
    // generation order
    let arc = Arc {
        center: point(0.0f32, 0.0),
        radii: vector(100.0f32, 100.0),
        start_angle: Angle::radians(0.0),
        sweep_angle: Angle::radians(core::f32::consts::FRAC_PI_2),
        x_rotation: Angle::radians(0.0),
    };
    let mut generated: Vec<QuadraticSegment> = Vec::new();
    arc.for_each_quadratic_bezier(&mut |seg: &QuadraticBezierSegment<f32>| {
        generated.push(convert(seg));
    });
    assert!(!generated.is_empty());

    let mut iter = ArcToQuadraticSegmentIter::new(generated.clone());
    let mut emitted = Vec::new();
    while let Some(q) = iter.next() {
        emitted.push(q);
    }
    assert_eq!(emitted.len(), generated.len());
    let reversed: Vec<QuadraticSegment> = generated.into_iter().rev().collect();
    assert_eq!(emitted, reversed);
}

#[test]
fn empty_buffer_is_exhausted() {
    let mut iter = ArcToQuadraticSegmentIter::new(Vec::new());
    assert!(iter.next().is_none());
    assert!(iter.next().is_none());
}
