use inverse_kinematics::geometry::Point;
use inverse_kinematics::tracker::{TargetTracker, TrackerMode};

#[test]
fn active_adopts_input() {
    let mut t = TargetTracker::new();
    t.step(Some(Point { x: 50, y: 60 }), 10);
    assert_eq!(t.effective_target(), Point { x: 50, y: 60 });
    t.step(Some(Point { x: -3, y: 7 }), 10);
    assert_eq!(t.effective_target(), Point { x: -3, y: 7 });
}

#[test]
fn paused_freezes_target() {
    let mut t = TargetTracker::new();
    t.step(Some(Point { x: 50, y: 60 }), 10);
    t.set_paused(true);
    t.step(Some(Point { x: 80, y: 90 }), 10);
    assert_eq!(t.effective_target(), Point { x: 50, y: 60 });
    t.step(None, 10);
    assert_eq!(t.effective_target(), Point { x: 50, y: 60 });
    t.step(None, -5);
    assert_eq!(t.effective_target(), Point { x: 50, y: 60 });
}

#[test]
fn unpause_reevaluates_input() {
    let mut t = TargetTracker::new();
    t.step(Some(Point { x: 1, y: 2 }), 10);
    t.set_paused(true);
    t.step(Some(Point { x: 9, y: 9 }), 10);
    assert_eq!(t.effective_target(), Point { x: 1, y: 2 });
    t.set_paused(false);
    t.step(Some(Point { x: 9, y: 9 }), 10);
    assert_eq!(t.effective_target(), Point { x: 9, y: 9 });
}

#[test]
fn wander_drifts_until_tail_leaves_frame() {
    let mut t = TargetTracker::new();
    t.step(Some(Point { x: 5, y: 7 }), 10);
    t.step(None, 5);
    assert_eq!(t.effective_target(), Point { x: 4, y: 8 });
    t.step(None, 3);
    assert_eq!(t.effective_target(), Point { x: 3, y: 9 });
    t.step(None, 0);
    assert_eq!(t.effective_target(), Point { x: 3, y: 9 });
    t.step(None, -2);
    assert_eq!(t.effective_target(), Point { x: 3, y: 9 });
}

#[test]
fn wander_holds_at_coordinate_range_edge() {
    let mut t = TargetTracker::new();
    t.step(Some(Point { x: -1_000_000_000, y: 0 }), 10);
    t.step(None, 5);
    assert_eq!(t.effective_target(), Point { x: -1_000_000_000, y: 0 });
    t.step(Some(Point { x: 0, y: 1_000_000_000 }), 10);
    t.step(None, 5);
    assert_eq!(t.effective_target(), Point { x: 0, y: 1_000_000_000 });
}

#[test]
fn mode_classification() {
    let mut t = TargetTracker::new();
    assert_eq!(t.mode(Some(Point { x: 0, y: 0 }), 10), TrackerMode::Active);
    assert_eq!(t.mode(None, 10), TrackerMode::Wandering);
    assert_eq!(t.mode(None, 0), TrackerMode::Resting);
    t.set_paused(true);
    assert_eq!(t.mode(Some(Point { x: 0, y: 0 }), 10), TrackerMode::Paused);
    assert_eq!(t.mode(None, -1), TrackerMode::Paused);
    assert!(t.paused());
}
