use inverse_kinematics::chain::{Chain, ChainParams};
use inverse_kinematics::geometry::Point;

fn params(count: usize, length: i64, base_width: i64, width_growth: i64) -> ChainParams {
    ChainParams { segment_count: count, length, base_width, width_growth }
}

#[test]
fn regenerate_from_empty_populates() {
    let mut c = Chain::new();
    c.regenerate(params(3, 10, 1, 0), Point { x: 0, y: 0 });
    assert_eq!(c.len(), 3);
    for i in 0..3 {
        let s = c.segment(i);
        assert_eq!(s.start(), Point { x: 10 * i as i64, y: 0 });
        assert_eq!(s.end(), Point { x: 10 * i as i64 + 10, y: 0 });
        assert_eq!(s.length, 10);
        assert_eq!(s.width, 1);
    }
}

#[test]
fn update_aims_head_and_abuts() {
    let mut c = Chain::new();
    c.regenerate(params(3, 10, 1, 0), Point { x: 0, y: 0 });
    c.update(Point { x: 100, y: 0 });
    assert_eq!(c.segment(0).start(), Point { x: 90, y: 0 });
    assert_eq!(c.segment(0).end(), Point { x: 100, y: 0 });
    assert_eq!(c.segment(1).start(), Point { x: 80, y: 0 });
    assert_eq!(c.segment(1).end(), Point { x: 90, y: 0 });
    assert_eq!(c.segment(2).start(), Point { x: 70, y: 0 });
    assert_eq!(c.segment(2).end(), Point { x: 80, y: 0 });
    for i in 1..3 {
        assert_eq!(c.segment(i).end(), c.segment(i - 1).start());
    }
}

#[test]
fn update_twice_is_stable() {
    let mut c = Chain::new();
    c.regenerate(params(4, 12, 2, 1), Point { x: 0, y: 0 });
    c.update(Point { x: 63, y: -41 });
    let once: Vec<_> = (0..4).map(|i| c.segment(i)).collect();
    c.update(Point { x: 63, y: -41 });
    let twice: Vec<_> = (0..4).map(|i| c.segment(i)).collect();
    assert_eq!(once, twice);
}

#[test]
fn width_growth_applied_per_index() {
    let mut c = Chain::new();
    c.regenerate(params(3, 10, 4, 2), Point { x: 0, y: 0 });
    let prims = c.render_primitives();
    assert_eq!(prims.len(), 3);
    assert_eq!(prims[0].width, 4);
    assert_eq!(prims[1].width, 6);
    assert_eq!(prims[2].width, 8);
}

#[test]
fn negative_width_growth_applied() {
    let mut c = Chain::new();
    c.regenerate(params(3, 10, 9, -3), Point { x: 0, y: 0 });
    assert_eq!(c.segment(0).width, 9);
    assert_eq!(c.segment(1).width, 6);
    assert_eq!(c.segment(2).width, 3);
}

#[test]
fn regenerate_twice_equal() {
    let p = params(3, 10, 1, 0);
    let anchor = Point { x: 50, y: 50 };
    let mut once = Chain::new();
    once.regenerate(p, anchor);
    once.regenerate(p, anchor);
    let mut twice = Chain::new();
    twice.regenerate(p, anchor);
    twice.regenerate(p, anchor);
    twice.regenerate(p, anchor);
    assert_eq!(once, twice);
}

#[test]
fn grow_then_shrink_restores_survivors() {
    let p3 = params(3, 10, 1, 0);
    let p5 = params(5, 10, 1, 0);
    let anchor = Point { x: 40, y: 30 };
    let mut c = Chain::new();
    c.regenerate(p3, anchor);
    c.update(anchor);
    let before: Vec<_> = (0..3).map(|i| c.segment(i)).collect();
    c.regenerate(p5, anchor);
    assert_eq!(c.len(), 5);
    c.regenerate(p3, anchor);
    assert_eq!(c.len(), 3);
    let after: Vec<_> = (0..3).map(|i| c.segment(i)).collect();
    assert_eq!(before, after);
}

#[test]
fn shrink_truncates_tail_never_head() {
    let anchor = Point { x: 25, y: 25 };
    let mut c = Chain::new();
    c.regenerate(params(5, 10, 1, 0), anchor);
    c.update(anchor);
    let head_before = c.segment(0);
    let second_before = c.segment(1);
    c.regenerate(params(2, 10, 1, 0), anchor);
    assert_eq!(c.len(), 2);
    assert_eq!(c.segment(0), head_before);
    assert_eq!(c.segment(1), second_before);
}

#[test]
fn last_end_reports_tail() {
    let mut c = Chain::new();
    assert_eq!(c.last_end(), None);
    c.regenerate(params(2, 10, 1, 0), Point { x: 0, y: 0 });
    assert_eq!(c.last_end(), Some(Point { x: 20, y: 0 }));
}

#[test]
fn degenerate_zero_length_segment() {
    let mut c = Chain::new();
    c.regenerate(params(2, 1, 1, 0), Point { x: 0, y: 0 });
    c.update(Point { x: 7, y: 0 });
    assert_eq!(c.segment(0).end(), Point { x: 7, y: 0 });
    assert_eq!(c.segment(1).end(), c.segment(0).start());
}
