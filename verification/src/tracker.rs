//! The target tracker: decides, each frame, what position the chain should
//! aim at — the live input position, a frozen last-known position while
//! paused, or a synthetic drifting position while the input is absent.

use crate::geometry::{in_coord_range, Point, COORD_LIMIT};
use vstd::prelude::*;

verus! {

/// The state the tracker is in on a given frame, a pure function of the
/// paused flag, the input, and the tail's leading edge.
#[derive(Clone, Copy, Debug, PartialEq, Eq, Structural)]
pub enum TrackerMode {
    /// Input present and not paused: the target is the input position.
    Active,
    /// Paused: the target is frozen, whatever the input does.
    Paused,
    /// Input absent, not paused, tail still on-frame: the target drifts.
    Wandering,
    /// Input absent, not paused, tail off-frame: the target rests.
    Resting,
}

/// The per-frame drift applied while wandering: one unit toward the lower
/// left (x falls, y grows), held back at the coordinate range's edge.
pub open spec fn wander_post(t: Point, n: Point) -> bool {
    if -COORD_LIMIT < t.x && t.y < COORD_LIMIT {
        n.x == t.x - 1 && n.y == t.y + 1
    } else {
        n == t
    }
}

/// Owns the effective target the chain is aimed at, and the paused flag that
/// freezes it.
#[derive(Clone, Copy, Debug, PartialEq, Eq, Structural)]
pub struct TargetTracker {
    /// The last position actually applied.
    pub effective_target: Point,
    /// While set, the effective target does not move.
    pub paused: bool,
}

/// Which state a frame with this paused flag, input, and tail leading edge
/// x coordinate is in.
pub open spec fn mode_of(paused: bool, input: Option<Point>, tail_end_x: int) -> TrackerMode {
    if paused {
        TrackerMode::Paused
    } else {
        match input {
            Some(_) => TrackerMode::Active,
            None => if tail_end_x > 0 {
                TrackerMode::Wandering
            } else {
                TrackerMode::Resting
            },
        }
    }
}

/// What one tracker step does to the effective target, by state: adopted
/// while active, frozen while paused, drifted while wandering, held while
/// resting.  The paused flag is never changed by a step.
pub open spec fn step_post(
    o: TargetTracker,
    input: Option<Point>,
    tail_end_x: int,
    n: TargetTracker,
) -> bool {
    &&& n.paused == o.paused
    &&& match mode_of(o.paused, input, tail_end_x) {
        TrackerMode::Active => n.effective_target == input.unwrap(),
        TrackerMode::Paused => n.effective_target == o.effective_target,
        TrackerMode::Wandering => wander_post(o.effective_target, n.effective_target),
        TrackerMode::Resting => n.effective_target == o.effective_target,
    }
}

/// An input position, if one is present, lies in the accepted range.
pub open spec fn input_ok(input: Option<Point>) -> bool {
    match input {
        Some(p) => in_coord_range(p),
        None => true,
    }
}

impl TargetTracker {
    /// The effective target stays in the range the chain accepts.
    pub open spec fn wf(self) -> bool {
        in_coord_range(self.effective_target)
    }

    /// A tracker at rest at the origin, not paused.
    pub fn new() -> (t: TargetTracker)
        ensures
            t.effective_target == (Point { x: 0, y: 0 }),
            !t.paused,
            t.wf(),
    {
        TargetTracker { effective_target: Point { x: 0, y: 0 }, paused: false }
    }

    /// The last position actually applied.
    pub fn effective_target(&self) -> (p: Point)
        ensures
            p == self.effective_target,
    {
        self.effective_target
    }

    /// Whether the tracker is frozen.
    pub fn paused(&self) -> (b: bool)
        ensures
            b == self.paused,
    {
        self.paused
    }

    /// Freezes or releases the effective target.  Releasing changes nothing
    /// until the next step, which re-evaluates the input at once.
    pub fn set_paused(&mut self, paused: bool)
        ensures
            final(self).paused == paused,
            final(self).effective_target == old(self).effective_target,
    {
        self.paused = paused;
    }

    /// The state this frame is in, given the input and the tail segment's
    /// leading-edge x coordinate.
    pub fn mode(&self, input: Option<Point>, tail_end_x: i64) -> (m: TrackerMode)
        ensures
            m == mode_of(self.paused, input, tail_end_x as int),
    {
        if self.paused {
            TrackerMode::Paused
        } else if input.is_some() {
            TrackerMode::Active
        } else if tail_end_x > 0 {
            TrackerMode::Wandering
        } else {
            TrackerMode::Resting
        }
    }

    /// One frame's target resolution: adopts the input position while
    /// active, freezes while paused, drifts one unit toward the lower left
    /// while wandering, and holds still while resting.
    pub fn step(&mut self, input: Option<Point>, tail_end_x: i64)
        requires
            old(self).wf(),
            input_ok(input),
        ensures
            final(self).wf(),
            step_post(*old(self), input, tail_end_x as int, *final(self)),
    {
        if self.paused {
            return ;
        }
        match input {
            Some(p) => {
                self.effective_target = p;
            },
            None => {
                if tail_end_x > 0 {
                    let t = self.effective_target;
                    if -COORD_LIMIT < t.x && t.y < COORD_LIMIT {
                        self.effective_target = Point { x: t.x - 1, y: t.y + 1 };
                    }
                }
            },
        }
    }
}

} // verus!
