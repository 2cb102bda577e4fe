//! The chain: an ordered sequence of segments, index 0 the head (nearest the
//! target) and the last index the tail, with the backward-propagation aiming
//! pass and in-place regeneration when the parameters change.

use crate::geometry::{
    in_coord_range, unit_heading, LinePrimitive, Point, COORD_LIMIT, COUNT_LIMIT, LEN_LIMIT,
    WIDTH_MAX,
};
use crate::segment::Segment;
use vstd::prelude::*;

verus! {

/// The user-editable chain parameters.
#[derive(Clone, Copy, Debug, PartialEq, Eq, Structural)]
pub struct ChainParams {
    /// How many segments the chain should have.
    pub segment_count: usize,
    /// Each segment's rigid length.
    pub length: i64,
    /// The head segment's stroke width.
    pub base_width: i64,
    /// Per-index width delta; may be negative.
    pub width_growth: i64,
}

impl ChainParams {
    /// The accepted parameter ranges.
    pub open spec fn wf(self) -> bool {
        &&& 1 <= self.segment_count <= COUNT_LIMIT
        &&& 1 <= self.length <= LEN_LIMIT
        &&& 1 <= self.base_width <= LEN_LIMIT
        &&& -LEN_LIMIT <= self.width_growth <= LEN_LIMIT
    }

    /// The stroke width of the segment at index `i`.
    pub open spec fn width_at(self, i: int) -> int {
        self.base_width + self.width_growth * i
    }
}

/// The aim target of the segment at index `i` during an update pass toward
/// `t`: the head is aimed at `t` itself, and every later segment at the
/// newly-computed trailing point of the segment before it.
pub open spec fn update_target(new: Seq<Segment>, t: Point, i: int) -> Point {
    if i == 0 {
        t
    } else {
        new[i - 1].start
    }
}

/// What one step of the update pass toward `t` did at index `i`: dimensions
/// kept, geometry re-aimed at that step's target.
pub open spec fn update_step(old_segs: Seq<Segment>, t: Point, new: Seq<Segment>, i: int) -> bool {
    &&& new[i].length == old_segs[i].length
    &&& new[i].width == old_segs[i].width
    &&& Segment::follow_geo(
        old_segs[i].start,
        old_segs[i].heading,
        new[i].length as int,
        update_target(new, t, i),
        new[i],
    )
}

/// What a whole update pass toward `t` does: every segment re-aimed once, in
/// index order, each at the previous segment's new trailing point.
pub open spec fn update_post(old_segs: Seq<Segment>, t: Point, new: Seq<Segment>) -> bool {
    &&& new.len() == old_segs.len()
    &&& forall|i: int| 0 <= i < new.len() ==> #[trigger] update_step(old_segs, t, new, i)
}

/// What regeneration at index `i < min(old len, count)` did to a surviving
/// segment: dimensions set from the new parameters, then re-aimed exactly as
/// an update pass toward `anchor` would, before any structural change.
pub open spec fn regen_step(
    old_segs: Seq<Segment>,
    p: ChainParams,
    anchor: Point,
    new: Seq<Segment>,
    i: int,
) -> bool {
    &&& new[i].length == p.length
    &&& new[i].width == p.width_at(i)
    &&& Segment::follow_geo(
        old_segs[i].start,
        old_segs[i].heading,
        p.length as int,
        update_target(new, anchor, i),
        new[i],
    )
}

/// A segment freshly appended at index `i` by regeneration: trailing at
/// `(length * i, 0)`, at rest along the positive x axis, not yet aimed.
pub open spec fn fresh_at(p: ChainParams, i: int, s: Segment) -> bool {
    &&& s.start.x == p.length * i
    &&& s.start.y == 0
    &&& s.heading == unit_heading()
    &&& s.end.x == p.length * i + p.length
    &&& s.end.y == 0
    &&& s.length == p.length
    &&& s.width == p.width_at(i)
}

/// What regeneration with parameters `p` and anchor target `anchor` does:
/// surviving segments are re-dimensioned and re-aimed in place, then the
/// sequence is resized — missing segments appended fresh, excess ones
/// truncated from the tail, never the head.
pub open spec fn regen_post(
    old_segs: Seq<Segment>,
    p: ChainParams,
    anchor: Point,
    new: Seq<Segment>,
) -> bool {
    &&& new.len() == p.segment_count
    &&& forall|i: int|
        0 <= i < old_segs.len() && i < p.segment_count ==> #[trigger] regen_step(
            old_segs,
            p,
            anchor,
            new,
            i,
        )
    &&& forall|i: int|
        old_segs.len() <= i < p.segment_count ==> fresh_at(p, i, #[trigger] new[i])
}

/// The stroke width the parameters give the segment at index `i`, computed
/// within bounds.
fn width_for(p: ChainParams, i: usize) -> (w: i64)
    requires
        p.wf(),
        i <= COUNT_LIMIT,
    ensures
        w == p.width_at(i as int),
        -WIDTH_MAX <= w <= WIDTH_MAX,
{
    proof {
        assert(-500_000_000 <= p.width_growth * (i as int) <= 500_000_000) by (nonlinear_arith)
            requires -1_000_000 <= p.width_growth <= 1_000_000, 0 <= i as int <= 500;
    }
    p.base_width + p.width_growth * (i as i64)
}

/// The x coordinate a fresh segment at index `i` trails at, computed within
/// bounds.
fn fresh_x_for(p: ChainParams, i: usize) -> (x: i64)
    requires
        p.wf(),
        i <= COUNT_LIMIT,
    ensures
        x == p.length * i,
        0 <= x <= 500_000_000,
{
    proof {
        assert(0 <= p.length * (i as int) <= 500_000_000) by (nonlinear_arith)
            requires 1 <= p.length <= 1_000_000, 0 <= i as int <= 500;
    }
    p.length * (i as i64)
}

/// The ordered chain of segments.
#[derive(Debug, PartialEq)]
pub struct Chain {
    pub segments: Vec<Segment>,
}

impl Chain {
    /// Every segment well-formed and the count within the accepted range.
    pub open spec fn wf(self) -> bool {
        &&& self.segments@.len() <= COUNT_LIMIT
        &&& forall|i: int| 0 <= i < self.segments@.len() ==> (#[trigger] self.segments@[i]).wf()
    }

    /// An empty chain; segments appear on the first regeneration.
    pub fn new() -> (c: Chain)
        ensures
            c.segments@.len() == 0,
            c.wf(),
    {
        Chain { segments: Vec::new() }
    }

    /// How many segments the chain holds.
    pub fn len(&self) -> (n: usize)
        ensures
            n == self.segments@.len(),
    {
        self.segments.len()
    }

    /// The segment at index `i`.
    pub fn segment(&self, i: usize) -> (s: Segment)
        requires
            i < self.segments@.len(),
        ensures
            s == self.segments@[i as int],
    {
        self.segments[i]
    }

    /// The leading point of the tail segment, if the chain has one: the
    /// point whose x coordinate decides whether a wandering chain has left
    /// the frame.
    pub fn last_end(&self) -> (r: Option<Point>)
        ensures
            self.segments@.len() == 0 ==> r is None,
            self.segments@.len() > 0 ==> r == Some(
                self.segments@[self.segments@.len() - 1].end,
            ),
    {
        if self.segments.len() == 0 {
            None
        } else {
            Some(self.segments[self.segments.len() - 1].end)
        }
    }

    /// The backward-propagation aiming pass: the head follows `target`, and
    /// each later segment follows the newly-computed trailing point of the
    /// one before it, in strict index order.
    pub fn update(&mut self, target: Point)
        requires
            old(self).wf(),
            in_coord_range(target),
        ensures
            final(self).wf(),
            update_post(old(self).segments@, target, final(self).segments@),
    {
        let n: usize = self.segments.len();
        let mut tgt: Point = target;
        let mut i: usize = 0;
        while i < n
            invariant
                i <= n,
                n == self.segments@.len(),
                forall|j: int| i <= j < n ==> self.segments@[j] == old(self).segments@[j],
                forall|j: int|
                    0 <= j < i ==> #[trigger] update_step(
                        old(self).segments@,
                        target,
                        self.segments@,
                        j,
                    ),
                forall|j: int| 0 <= j < n ==> (#[trigger] self.segments@[j]).wf(),
                tgt == update_target(self.segments@, target, i as int),
                -(COORD_LIMIT + i * LEN_LIMIT) <= tgt.x <= COORD_LIMIT + i * LEN_LIMIT,
                -(COORD_LIMIT + i * LEN_LIMIT) <= tgt.y <= COORD_LIMIT + i * LEN_LIMIT,
            decreases n - i,
        {
            let ghost segs0: Seq<Segment> = self.segments@;
            let ghost tgt0: Point = tgt;
            let mut s: Segment = self.segments[i];
            s.follow(tgt);
            self.segments.set(i, s);
            proof {
                assert forall|j: int| 0 <= j < i + 1 implies #[trigger] update_step(
                    old(self).segments@,
                    target,
                    self.segments@,
                    j,
                ) by {
                    if j < i {
                        assert(update_step(old(self).segments@, target, segs0, j));
                        assert(self.segments@[j] == segs0[j]);
                        if j > 0 {
                            assert(self.segments@[j - 1] == segs0[j - 1]);
                        }
                    } else {
                        assert(self.segments@[j] == s);
                        if j > 0 {
                            assert(self.segments@[j - 1] == segs0[j - 1]);
                            assert(update_target(self.segments@, target, j) == tgt0);
                        }
                    }
                }
            }
            tgt = s.start;
            i = i + 1;
        }
    }

    /// Reconciles the chain with changed parameters: every existing segment
    /// takes its new dimensions, the whole chain is re-aimed toward `anchor`
    /// so nothing renders a frame with stale geometry, and only then is the
    /// sequence resized — grown by appending fresh segments (aimed on the
    /// next update pass), or shrunk by truncating the tail.
    pub fn regenerate(&mut self, p: ChainParams, anchor: Point)
        requires
            old(self).wf(),
            p.wf(),
            in_coord_range(anchor),
        ensures
            final(self).wf(),
            final(self).segments@.len() == p.segment_count,
            regen_post(old(self).segments@, p, anchor, final(self).segments@),
    {
        let n0: usize = self.segments.len();
        let mut i: usize = 0;
        while i < n0
            invariant
                i <= n0,
                n0 == self.segments@.len(),
                forall|j: int| i <= j < n0 ==> self.segments@[j] == old(self).segments@[j],
                forall|j: int|
                    0 <= j < i ==> {
                        let s = #[trigger] self.segments@[j];
                        &&& s.length == p.length
                        &&& s.width == p.width_at(j)
                        &&& s.start == old(self).segments@[j].start
                        &&& s.end == old(self).segments@[j].end
                        &&& s.heading == old(self).segments@[j].heading
                    },
                forall|j: int| 0 <= j < n0 ==> (#[trigger] self.segments@[j]).wf(),
            decreases n0 - i,
        {
            let w: i64 = width_for(p, i);
            let mut s: Segment = self.segments[i];
            s.update_dimensions(p.length, w);
            self.segments.set(i, s);
            i = i + 1;
        }
        let ghost redimmed: Seq<Segment> = self.segments@;
        self.update(anchor);
        let ghost aimed: Seq<Segment> = self.segments@;
        proof {
            assert forall|j: int| 0 <= j < n0 implies #[trigger] regen_step(
                old(self).segments@,
                p,
                anchor,
                aimed,
                j,
            ) by {
                assert(update_step(redimmed, anchor, aimed, j));
            }
        }
        if self.segments.len() < p.segment_count {
            let mut i: usize = self.segments.len();
            while i < p.segment_count
                invariant
                    n0 <= i <= p.segment_count,
                    self.segments@.len() == i,
                    forall|j: int| 0 <= j < n0 ==> self.segments@[j] == aimed[j],
                    forall|j: int| n0 <= j < i ==> fresh_at(p, j, #[trigger] self.segments@[j]),
                    forall|j: int| 0 <= j < i ==> (#[trigger] self.segments@[j]).wf(),
                decreases p.segment_count - i,
            {
                let x: i64 = fresh_x_for(p, i);
                let w: i64 = width_for(p, i);
                let s: Segment = Segment::new(Point { x, y: 0 }, p.length, w);
                self.segments.push(s);
                i = i + 1;
            }
        } else if self.segments.len() > p.segment_count {
            self.segments.truncate(p.segment_count);
        }
        proof {
            assert forall|j: int| 0 <= j < n0 && j < p.segment_count implies #[trigger] regen_step(
                old(self).segments@,
                p,
                anchor,
                self.segments@,
                j,
            ) by {
                assert(regen_step(old(self).segments@, p, anchor, aimed, j));
                assert(self.segments@[j] == aimed[j]);
                if j > 0 {
                    assert(self.segments@[j - 1] == aimed[j - 1]);
                }
            }
        }
    }

    /// One drawable stroke per segment, in head-to-tail order.
    pub fn render_primitives(&self) -> (v: Vec<LinePrimitive>)
        ensures
            v@.len() == self.segments@.len(),
            forall|i: int|
                0 <= i < v@.len() ==> {
                    let pr = #[trigger] v@[i];
                    &&& pr.from == self.segments@[i].start
                    &&& pr.to == self.segments@[i].end
                    &&& pr.width == self.segments@[i].width
                },
    {
        let mut v: Vec<LinePrimitive> = Vec::new();
        let n: usize = self.segments.len();
        let mut i: usize = 0;
        while i < n
            invariant
                i <= n,
                n == self.segments@.len(),
                v@.len() == i,
                forall|j: int|
                    0 <= j < i ==> {
                        let pr = #[trigger] v@[j];
                        &&& pr.from == self.segments@[j].start
                        &&& pr.to == self.segments@[j].end
                        &&& pr.width == self.segments@[j].width
                    },
            decreases n - i,
        {
            let pr: LinePrimitive = self.segments[i].show();
            v.push(pr);
            i = i + 1;
        }
        v
    }
}

} // verus!
