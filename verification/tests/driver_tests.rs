use inverse_kinematics::chain::{Chain, ChainParams};
use inverse_kinematics::driver::frame;
use inverse_kinematics::geometry::Point;
use inverse_kinematics::tracker::TargetTracker;

fn params() -> ChainParams {
    ChainParams { segment_count: 3, length: 10, base_width: 1, width_growth: 0 }
}

#[test]
fn frame_regenerates_and_aims() {
    let mut chain = Chain::new();
    let mut tracker = TargetTracker::new();
    let prims = frame(&mut chain, &mut tracker, params(), true, Some(Point { x: 100, y: 0 }));
    assert_eq!(prims.len(), 3);
    assert_eq!(prims[0].from, Point { x: 90, y: 0 });
    assert_eq!(prims[0].to, Point { x: 100, y: 0 });
    assert_eq!(prims[1].from, Point { x: 80, y: 0 });
    assert_eq!(prims[1].to, Point { x: 90, y: 0 });
    assert_eq!(prims[2].from, Point { x: 70, y: 0 });
    assert_eq!(prims[2].to, Point { x: 80, y: 0 });
}

#[test]
fn frame_while_paused_keeps_geometry() {
    let mut chain = Chain::new();
    let mut tracker = TargetTracker::new();
    let before = frame(&mut chain, &mut tracker, params(), true, Some(Point { x: 100, y: 0 }));
    tracker.set_paused(true);
    let after = frame(&mut chain, &mut tracker, params(), false, Some(Point { x: 500, y: 500 }));
    assert_eq!(tracker.effective_target(), Point { x: 100, y: 0 });
    assert_eq!(before, after);
}

#[test]
fn frame_on_empty_chain_wanders_from_origin() {
    let mut chain = Chain::new();
    let mut tracker = TargetTracker::new();
    let prims = frame(&mut chain, &mut tracker, params(), false, None);
    assert!(prims.is_empty());
    assert_eq!(tracker.effective_target(), Point { x: -1, y: 1 });
}

#[test]
fn frame_without_input_wanders() {
    let mut chain = Chain::new();
    let mut tracker = TargetTracker::new();
    frame(&mut chain, &mut tracker, params(), true, Some(Point { x: 100, y: 0 }));
    let prims = frame(&mut chain, &mut tracker, params(), false, None);
    assert_eq!(tracker.effective_target(), Point { x: 99, y: 1 });
    assert_eq!(prims[0].to, Point { x: 99, y: 1 });
}
