//! A single rigid link of the chain: a trailing point, a derived leading
//! point, a target length and stroke width, and the orientation it was last
//! aimed along.

use crate::geometry::{
    heading_wf, in_target_range, scale_part, sqrt_floor, unit_heading, Heading, LinePrimitive,
    Point, END_LIMIT, LEN_LIMIT, POS_LIMIT, WIDTH_MAX,
};
use crate::geometry::{isqrt, lemma_sqrt_floor_dominates, scale_len};
use vstd::arithmetic::div_mod::lemma_div_multiples_vanish;
use vstd::prelude::*;

verus! {

/// One rigid link.  `start` is the trailing point (toward the chain's
/// anchor), `end` the leading point, derived from `start`, `length` and
/// `heading` and never set independently.
#[derive(Clone, Copy, Debug, PartialEq, Eq, Structural)]
pub struct Segment {
    pub start: Point,
    pub end: Point,
    pub length: i64,
    pub width: i64,
    pub heading: Heading,
}

impl Segment {
    /// Field bounds every operation preserves.
    pub open spec fn wf(self) -> bool {
        &&& -POS_LIMIT <= self.start.x <= POS_LIMIT
        &&& -POS_LIMIT <= self.start.y <= POS_LIMIT
        &&& -END_LIMIT <= self.end.x <= END_LIMIT
        &&& -END_LIMIT <= self.end.y <= END_LIMIT
        &&& 0 <= self.length <= LEN_LIMIT
        &&& -WIDTH_MAX <= self.width <= WIDTH_MAX
        &&& heading_wf(self.heading)
    }

    /// The x displacement of walking `len` units along `h`.
    pub open spec fn heading_off_x(len: int, h: Heading) -> int {
        scale_part(len, h.dx as int, h.mag as int)
    }

    /// The y displacement of walking `len` units along `h`.
    pub open spec fn heading_off_y(len: int, h: Heading) -> int {
        scale_part(len, h.dy as int, h.mag as int)
    }

    /// The leading point sits exactly `length` along `heading` from the
    /// trailing point (up to the fixed rounding of `scale_part`): the
    /// invariant every aiming or recomputation step re-establishes.
    pub open spec fn end_consistent(self) -> bool {
        &&& self.end.x == self.start.x + Self::heading_off_x(self.length as int, self.heading)
        &&& self.end.y == self.start.y + Self::heading_off_y(self.length as int, self.heading)
    }

    /// What aiming at `t` does to the geometry of a segment that trailed at
    /// `start0` with orientation `h0` and length `len`, leaving `n` behind.
    ///
    /// - If `t` equals the trailing point there is no direction to aim
    ///   along: the trailing point stays, and the orientation falls back to
    ///   the positive x axis (the zero vector's conventional angle).
    /// - If the segment already points exactly at `t` (the direction to `t`
    ///   equals the segment's own displacement), nothing moves: re-deriving
    ///   the orientation from a vector that lies along it would only lose
    ///   the stored direction's precision.
    /// - Otherwise the orientation becomes the direction vector toward `t`
    ///   with its rounded magnitude, and the trailing point is placed so
    ///   that walking `len` along it lands exactly on `t`.
    pub open spec fn follow_geo(start0: Point, h0: Heading, len: int, t: Point, n: Segment) -> bool {
        let dx = t.x - start0.x;
        let dy = t.y - start0.y;
        if dx == 0 && dy == 0 {
            &&& n.start == start0
            &&& n.heading == unit_heading()
            &&& n.end.x == start0.x + len
            &&& n.end.y == start0.y
        } else if dx == Self::heading_off_x(len, h0) && dy == Self::heading_off_y(len, h0) {
            &&& n.start == start0
            &&& n.heading == h0
            &&& n.end == t
        } else {
            let mag = sqrt_floor(dx * dx + dy * dy);
            &&& n.heading.dx == dx
            &&& n.heading.dy == dy
            &&& n.heading.mag == mag
            &&& n.start.x == t.x - scale_part(len, dx, mag)
            &&& n.start.y == t.y - scale_part(len, dy, mag)
            &&& n.end == t
        }
    }

    /// A fresh segment trailing at `start`, oriented along the positive x
    /// axis, with its leading point already derived.
    pub fn new(start: Point, length: i64, width: i64) -> (s: Segment)
        requires
            -POS_LIMIT <= start.x <= POS_LIMIT,
            -POS_LIMIT <= start.y <= POS_LIMIT,
            0 <= length <= LEN_LIMIT,
            -WIDTH_MAX <= width <= WIDTH_MAX,
        ensures
            s.start == start,
            s.length == length,
            s.width == width,
            s.heading == unit_heading(),
            s.end.x == start.x + length,
            s.end.y == start.y,
            s.wf(),
            s.end_consistent(),
    {
        let mut s = Segment {
            start,
            end: Point { x: 0, y: 0 },
            length,
            width,
            heading: Heading { dx: 1, dy: 0, mag: 1 },
        };
        s.recompute_end();
        proof {
            lemma_div_multiples_vanish(length as int, 1);
            lemma_div_multiples_vanish(0, 1);
        }
        s
    }

    /// Overwrites the target length and stroke width alone.  The leading
    /// point is left as it was, so it is stale until the caller pairs this
    /// with an aim or an explicit recomputation in the same pass.
    pub fn update_dimensions(&mut self, length: i64, width: i64)
        requires
            old(self).wf(),
            0 <= length <= LEN_LIMIT,
            -WIDTH_MAX <= width <= WIDTH_MAX,
        ensures
            final(self).length == length,
            final(self).width == width,
            final(self).start == old(self).start,
            final(self).end == old(self).end,
            final(self).heading == old(self).heading,
            final(self).wf(),
    {
        self.length = length;
        self.width = width;
    }

    /// Re-aims the segment so that its leading point sits on `target` while
    /// its length is preserved: the orientation becomes the direction from
    /// the old trailing point toward `target`, and the trailing point is
    /// pulled to `length` before `target` along it.  When `target` equals
    /// the trailing point there is no direction, and the trailing point
    /// stays put.  The leading point is re-derived before returning: it is
    /// never left stale.
    pub fn follow(&mut self, target: Point)
        requires
            old(self).wf(),
            in_target_range(target),
        ensures
            final(self).length == old(self).length,
            final(self).width == old(self).width,
            Self::follow_geo(
                old(self).start,
                old(self).heading,
                old(self).length as int,
                target,
                *final(self),
            ),
            final(self).wf(),
            final(self).end_consistent(),
            target.x - old(self).length <= final(self).start.x <= target.x + old(self).length,
            target.y - old(self).length <= final(self).start.y <= target.y + old(self).length,
            target == old(self).start ==> final(self).start == old(self).start,
    {
        let dx: i64 = target.x - self.start.x;
        let dy: i64 = target.y - self.start.y;
        if dx == 0 && dy == 0 {
            self.heading = Heading { dx: 1, dy: 0, mag: 1 };
            self.end = Point { x: self.start.x + self.length, y: self.start.y };
            proof {
                lemma_div_multiples_vanish(self.length as int, 1);
                lemma_div_multiples_vanish(0, 1);
            }
            return ;
        }
        let hx: i64 = scale_len(self.length, self.heading.dx, self.heading.mag);
        let hy: i64 = scale_len(self.length, self.heading.dy, self.heading.mag);
        if dx == hx && dy == hy {
            self.end = target;
            return ;
        }
        let dxa: u64 = if dx < 0 {
            (-dx) as u64
        } else {
            dx as u64
        };
        let dya: u64 = if dy < 0 {
            (-dy) as u64
        } else {
            dy as u64
        };
        assert(dxa * dxa + dya * dya <= 18_024_008_000_000_000_000u64) by (nonlinear_arith)
            requires dxa <= 3_002_000_000u64, dya <= 3_002_000_000u64;
        let n: u64 = dxa * dxa + dya * dya;
        let mag_u: u64 = isqrt(n);
        proof {
            assert(n as int == (dx as int) * (dx as int) + (dy as int) * (dy as int))
                by (nonlinear_arith)
                requires
                    dxa == (if dx < 0 { -(dx as int) } else { dx as int }),
                    dya == (if dy < 0 { -(dy as int) } else { dy as int }),
                    n == dxa * dxa + dya * dya;
            lemma_sqrt_floor_dominates(dx as int, dy as int);
            assert(n >= 1) by (nonlinear_arith)
                requires
                    n == dxa * dxa + dya * dya,
                    dxa >= 1 || dya >= 1;
            assert(mag_u >= 1) by {
                if mag_u == 0 {
                    assert(n < 1);
                }
            }
            assert(mag_u <= 4_300_000_000u64) by (nonlinear_arith)
                requires
                    mag_u * mag_u <= n,
                    n <= 18_024_008_000_000_000_000u64;
        }
        let mag: i64 = mag_u as i64;
        let ox: i64 = scale_len(self.length, dx, mag);
        let oy: i64 = scale_len(self.length, dy, mag);
        self.heading = Heading { dx, dy, mag };
        self.start = Point { x: target.x - ox, y: target.y - oy };
        self.end = target;
    }

    /// Re-derives the leading point from the trailing point, length and
    /// orientation, restoring the invariant after a dimension change.
    pub fn recompute_end(&mut self)
        requires
            old(self).wf(),
        ensures
            final(self).start == old(self).start,
            final(self).length == old(self).length,
            final(self).width == old(self).width,
            final(self).heading == old(self).heading,
            final(self).wf(),
            final(self).end_consistent(),
    {
        let ox: i64 = scale_len(self.length, self.heading.dx, self.heading.mag);
        let oy: i64 = scale_len(self.length, self.heading.dy, self.heading.mag);
        self.end = Point { x: self.start.x + ox, y: self.start.y + oy };
    }

    /// The drawable stroke for this segment: a line from the trailing point
    /// to the leading point at the segment's width.
    pub fn show(&self) -> (p: LinePrimitive)
        ensures
            p.from == self.start,
            p.to == self.end,
            p.width == self.width,
    {
        LinePrimitive { from: self.start, to: self.end, width: self.width }
    }

    /// The trailing point.
    pub fn start(&self) -> (p: Point)
        ensures
            p == self.start,
    {
        self.start
    }

    /// The leading point.
    pub fn end(&self) -> (p: Point)
        ensures
            p == self.end,
    {
        self.end
    }
}

} // verus!
