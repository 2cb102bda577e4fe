//! The frame driver: the once-per-frame pass that regenerates the chain if
//! the parameters changed, resolves the effective target, runs the aiming
//! pass, and extracts the drawable strokes.

use crate::chain::{regen_post, update_post, Chain, ChainParams};
use crate::geometry::{LinePrimitive, Point};
use crate::segment::Segment;
use crate::tracker::{input_ok, step_post, TargetTracker};
use vstd::prelude::*;

verus! {

/// The tail leading-edge x coordinate a frame hands the tracker: the last
/// segment's leading point, or a positive stand-in while the chain is still
/// empty (an empty chain never blocks wandering).
pub open spec fn tail_edge_x(segs: Seq<Segment>) -> int {
    if segs.len() == 0 {
        1
    } else {
        segs[segs.len() - 1].end.x as int
    }
}

/// What one frame leaves behind, with `mid` the chain as it stood after the
/// regeneration step (the chain unchanged, when the parameters had not): the
/// tracker stepped against `mid`'s tail, and the chain aimed at the stepped
/// tracker's target.
pub open spec fn frame_post(
    chain0: Seq<Segment>,
    tracker0: TargetTracker,
    p: ChainParams,
    params_changed: bool,
    input: Option<Point>,
    mid: Seq<Segment>,
    chain1: Seq<Segment>,
    tracker1: TargetTracker,
) -> bool {
    &&& if params_changed {
        regen_post(chain0, p, tracker0.effective_target, mid)
    } else {
        mid == chain0
    }
    &&& step_post(tracker0, input, tail_edge_x(mid), tracker1)
    &&& update_post(mid, tracker1.effective_target, chain1)
}

/// One frame: regenerate if the parameters changed (anchored at the target
/// last applied), resolve this frame's effective target, aim the whole chain
/// at it, and hand back one stroke per segment in head-to-tail order.
pub fn frame(
    chain: &mut Chain,
    tracker: &mut TargetTracker,
    p: ChainParams,
    params_changed: bool,
    input: Option<Point>,
) -> (prims: Vec<LinePrimitive>)
    requires
        old(chain).wf(),
        old(tracker).wf(),
        p.wf(),
        input_ok(input),
    ensures
        final(chain).wf(),
        final(tracker).wf(),
        exists|mid: Seq<Segment>|
            #[trigger] frame_post(
                old(chain).segments@,
                *old(tracker),
                p,
                params_changed,
                input,
                mid,
                final(chain).segments@,
                *final(tracker),
            ),
        prims@.len() == final(chain).segments@.len(),
        forall|i: int|
            0 <= i < prims@.len() ==> {
                let pr = #[trigger] prims@[i];
                &&& pr.from == final(chain).segments@[i].start
                &&& pr.to == final(chain).segments@[i].end
                &&& pr.width == final(chain).segments@[i].width
            },
{
    if params_changed {
        let anchor: Point = tracker.effective_target();
        chain.regenerate(p, anchor);
    }
    let ghost mid: Seq<Segment> = chain.segments@;
    let tail_x: i64 = match chain.last_end() {
        Some(pt) => pt.x,
        None => 1,
    };
    tracker.step(input, tail_x);
    let target: Point = tracker.effective_target();
    chain.update(target);
    let prims: Vec<LinePrimitive> = chain.render_primitives();
    proof {
        assert(frame_post(
            old(chain).segments@,
            *old(tracker),
            p,
            params_changed,
            input,
            mid,
            chain.segments@,
            *tracker,
        ));
    }
    prims
}

} // verus!
