use path_utils::cubic::CubicToQuadraticSegmentIter;
use path_utils::geometry::{CubicSegment, Point, QuadraticSegment};

fn pt(x: i64, y: i64) -> Point {
    Point { x, y }
}

fn cubic(from: (i64, i64), c1: (i64, i64), c2: (i64, i64), to: (i64, i64)) -> CubicSegment {
    CubicSegment {
        from: pt(from.0, from.1),
        ctrl1: pt(c1.0, c1.1),
        ctrl2: pt(c2.0, c2.1),
        to: pt(to.0, to.1),
    }
}

fn drain(iter: &mut CubicToQuadraticSegmentIter) -> Vec<QuadraticSegment> {
    let mut out = Vec::new();
    while let Some(q) = iter.next() {
        out.push(q);
    }
    out
}

fn assert_chained(quads: &[QuadraticSegment], from: Point, to: Point) {
    assert!(!quads.is_empty());
    assert_eq!(quads[0].from, from);
    assert_eq!(quads[quads.len() - 1].to, to);
    for w in quads.windows(2) {
        assert_eq!(w[0].to, w[1].from);
    }
}

#[test]
fn collinear_cubic_fast_path() {
    // deviation vectors are exactly zero: evenly spaced collinear control
    // points; even at the smallest error bound only the two initial
    // halves come out
    let c = cubic((0, 0), (1000, 1000), (2000, 2000), (3000, 3000));
    let mut iter = CubicToQuadraticSegmentIter::new(&c, 1);
    let quads = drain(&mut iter);
    assert_eq!(quads.len(), 2);
    assert_chained(&quads, pt(0, 0), pt(3000, 3000));
    assert_eq!(
        quads[0],
        QuadraticSegment { from: pt(0, 0), ctrl: pt(750, 750), to: pt(1500, 1500) },
    );
    assert_eq!(
        quads[1],
        QuadraticSegment { from: pt(1500, 1500), ctrl: pt(2250, 2250), to: pt(3000, 3000) },
    );
}

#[test]
fn exact_quadratic_values() {
    // generous error bound: the two initial halves pass the check at
    // once; their fitted control points computed by hand
    let c = cubic((0, 0), (0, 8000), (8000, 8000), (8000, 0));
    let mut iter = CubicToQuadraticSegmentIter::new(&c, 10000);
    let quads = drain(&mut iter);
    assert_eq!(quads.len(), 2);
    assert_eq!(quads[0], QuadraticSegment { from: pt(0, 0), ctrl: pt(500, 6000), to: pt(4000, 6000) });
    assert_eq!(
        quads[1],
        QuadraticSegment { from: pt(4000, 6000), ctrl: pt(7500, 6000), to: pt(8000, 0) },
    );
}

#[test]
fn continuity_of_fine_subdivision() {
    let c = cubic((0, 0), (0, 1000), (1000, 1000), (1000, 0));
    let mut iter = CubicToQuadraticSegmentIter::new(&c, 2);
    let quads = drain(&mut iter);
    assert!(quads.len() >= 2);
    assert_chained(&quads, pt(0, 0), pt(1000, 0));
}

#[test]
fn cap_exhaustion_bounds_output() {
    // a cusp-like cubic with huge control excursions and the smallest
    // bound: the iteration cap, not the bound, ends the subdivision, and
    // the output count stays small (at most two plus the cap, far below
    // two to the power of the cap)
    let c = cubic((0, 0), (16000000, 16000000), (-16000000, 16000000), (0, 0));
    let mut iter = CubicToQuadraticSegmentIter::new(&c, 1);
    let quads = drain(&mut iter);
    assert!(quads.len() >= 2);
    assert!(quads.len() <= 34);
    assert!((quads.len() as u64) <= 1u64 << 32);
    assert_chained(&quads, pt(0, 0), pt(0, 0));
}

#[test]
fn monotonicity_in_error_bound() {
    let c = cubic((0, 0), (0, 1000), (1000, 1000), (1000, 0));
    let mut counts = Vec::new();
    for eb in [1i64, 5, 50, 500, 5000] {
        let mut iter = CubicToQuadraticSegmentIter::new(&c, eb);
        counts.push(drain(&mut iter).len());
    }
    for w in counts.windows(2) {
        assert!(w[0] >= w[1]);
    }
}

fn quad_at(q: &QuadraticSegment, t: f64) -> (f64, f64) {
    let (x0, y0) = (q.from.x as f64, q.from.y as f64);
    let (x1, y1) = (q.ctrl.x as f64, q.ctrl.y as f64);
    let (x2, y2) = (q.to.x as f64, q.to.y as f64);
    let u = 1.0 - t;
    (
        u * u * x0 + 2.0 * u * t * x1 + t * t * x2,
        u * u * y0 + 2.0 * u * t * y1 + t * t * y2,
    )
}

fn cubic_at(c: &CubicSegment, t: f64) -> (f64, f64) {
    let (x0, y0) = (c.from.x as f64, c.from.y as f64);
    let (x1, y1) = (c.ctrl1.x as f64, c.ctrl1.y as f64);
    let (x2, y2) = (c.ctrl2.x as f64, c.ctrl2.y as f64);
    let (x3, y3) = (c.to.x as f64, c.to.y as f64);
    let u = 1.0 - t;
    (
        u * u * u * x0 + 3.0 * u * u * t * x1 + 3.0 * u * t * t * x2 + t * t * t * x3,
        u * u * u * y0 + 3.0 * u * u * t * y1 + 3.0 * u * t * t * y2 + t * t * t * y3,
    )
}

#[test]
fn deviation_within_bound_scenario() {
    // the unit-square cubic at scale 1000 with error bound 0.01 * 1000:
    // every sampled point of the emitted quadratics lies within twice
    // the bound of the true cubic
    let c = cubic((0, 0), (0, 1000), (1000, 1000), (1000, 0));
    let error_bound: i64 = 10;
    let mut iter = CubicToQuadraticSegmentIter::new(&c, error_bound);
    let quads = drain(&mut iter);
    assert!(!quads.is_empty());
    assert_chained(&quads, pt(0, 0), pt(1000, 0));

    let samples: Vec<(f64, f64)> = (0..=4000).map(|i| cubic_at(&c, i as f64 / 4000.0)).collect();
    let mut worst: f64 = 0.0;
    for q in &quads {
        for i in 0..=64 {
            let p = quad_at(q, i as f64 / 64.0);
            let d = samples
                .iter()
                .map(|s| ((s.0 - p.0).powi(2) + (s.1 - p.1).powi(2)).sqrt())
                .fold(f64::INFINITY, f64::min);
            worst = worst.max(d);
        }
    }
    assert!(worst <= 2.0 * error_bound as f64, "worst deviation {worst}");
}
