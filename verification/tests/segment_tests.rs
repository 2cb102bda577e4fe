use inverse_kinematics::geometry::Point;
use inverse_kinematics::segment::Segment;

#[test]
fn new_derives_end_along_x_axis() {
    let s = Segment::new(Point { x: 3, y: 4 }, 10, 2);
    assert_eq!(s.start(), Point { x: 3, y: 4 });
    assert_eq!(s.end(), Point { x: 13, y: 4 });
    assert_eq!(s.length, 10);
    assert_eq!(s.width, 2);
}

#[test]
fn follow_aims_end_at_target() {
    let mut s = Segment::new(Point { x: 0, y: 0 }, 10, 1);
    s.follow(Point { x: 100, y: 0 });
    assert_eq!(s.start(), Point { x: 90, y: 0 });
    assert_eq!(s.end(), Point { x: 100, y: 0 });
}

#[test]
fn follow_vertical_quarter_turn() {
    let mut s = Segment::new(Point { x: 0, y: 0 }, 10, 1);
    s.follow(Point { x: 0, y: 10 });
    assert_eq!(s.start(), Point { x: 0, y: 0 });
    assert_eq!(s.end(), Point { x: 0, y: 10 });
    assert_eq!(s.heading.dx, 0);
    assert_eq!(s.heading.dy, 10);
    assert_eq!(s.heading.mag, 10);
}

#[test]
fn follow_diagonal_exact() {
    let mut s = Segment::new(Point { x: 0, y: 0 }, 5, 1);
    s.follow(Point { x: 30, y: 40 });
    assert_eq!(s.heading.mag, 50);
    assert_eq!(s.start(), Point { x: 27, y: 36 });
    assert_eq!(s.end(), Point { x: 30, y: 40 });
}

#[test]
fn follow_degenerate_target_keeps_start() {
    let mut s = Segment::new(Point { x: 5, y: 5 }, 10, 2);
    s.follow(Point { x: 0, y: 10 });
    let trailing = s.start();
    s.follow(trailing);
    assert_eq!(s.start(), trailing);
    assert_eq!(s.heading.dx, 1);
    assert_eq!(s.heading.dy, 0);
    assert_eq!(s.heading.mag, 1);
    assert_eq!(s.end(), Point { x: trailing.x + 10, y: trailing.y });
}

#[test]
fn follow_already_aimed_is_stable() {
    let mut s = Segment::new(Point { x: 0, y: 0 }, 10, 1);
    s.follow(Point { x: 37, y: 81 });
    let once = s;
    s.follow(Point { x: 37, y: 81 });
    assert_eq!(s, once);
}

#[test]
fn follow_inexact_magnitude_rounds_toward_zero() {
    let mut s = Segment::new(Point { x: 0, y: 0 }, 10, 1);
    s.follow(Point { x: 2, y: 3 });
    assert_eq!(s.heading.mag, 3);
    assert_eq!(s.start(), Point { x: -4, y: -7 });
    assert_eq!(s.end(), Point { x: 2, y: 3 });
}

#[test]
fn update_dimensions_then_recompute_end() {
    let mut s = Segment::new(Point { x: 3, y: 4 }, 10, 1);
    s.update_dimensions(20, 7);
    assert_eq!(s.length, 20);
    assert_eq!(s.width, 7);
    assert_eq!(s.start(), Point { x: 3, y: 4 });
    s.recompute_end();
    assert_eq!(s.end(), Point { x: 23, y: 4 });
}

#[test]
fn show_reports_geometry() {
    let mut s = Segment::new(Point { x: 0, y: 0 }, 10, 3);
    s.follow(Point { x: 0, y: 10 });
    let pr = s.show();
    assert_eq!(pr.from, Point { x: 0, y: 0 });
    assert_eq!(pr.to, Point { x: 0, y: 10 });
    assert_eq!(pr.width, 3);
}
