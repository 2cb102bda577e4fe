//! Exact integer geometry: points, orientations, and the scaling and
//! square-root helpers the segment math is built on.

use vstd::arithmetic::div_mod::{lemma_div_is_ordered, lemma_div_multiples_vanish};
use vstd::prelude::*;

verus! {

/// Largest coordinate magnitude accepted from the outside world (targets,
/// anchors, pointer positions).
pub const COORD_LIMIT: i64 = 1_000_000_000;

/// Largest segment length.
pub const LEN_LIMIT: i64 = 1_000_000;

/// Largest number of segments in a chain.
pub const COUNT_LIMIT: usize = 500;

/// Largest width magnitude a segment may carry.
pub const WIDTH_MAX: i64 = 1_000_000_000;

/// Largest coordinate magnitude an internal aim target can reach: the head is
/// aimed at an outside target, and each later segment at a point at most
/// `LEN_LIMIT` further out, through at most `COUNT_LIMIT` segments.
pub const TARGET_LIMIT: i64 = 1_500_000_000;

/// Largest coordinate magnitude of a segment's trailing point: at most
/// `LEN_LIMIT` beyond the target it was aimed at.
pub const POS_LIMIT: i64 = 1_501_000_000;

/// Largest coordinate magnitude of a segment's leading point: at most
/// `LEN_LIMIT` beyond its trailing point.
pub const END_LIMIT: i64 = 1_502_000_000;

/// Largest magnitude of an orientation's components: a direction vector joins
/// two points within `TARGET_LIMIT` and `POS_LIMIT`, so each component is at
/// most `TARGET_LIMIT + POS_LIMIT` and the rounded magnitude at most
/// `sqrt(2)` times that.
pub const DIR_LIMIT: i64 = 4_300_000_000;

/// A position in the plane, in integer units.
#[derive(Clone, Copy, Debug, PartialEq, Eq, Structural)]
pub struct Point {
    pub x: i64,
    pub y: i64,
}

/// The orientation of a segment: the direction vector it was last aimed
/// along, kept un-normalized as `(dx, dy)` together with the rounded-down
/// magnitude of that vector.  The unit direction it stands for is
/// `(dx / mag, dy / mag)`.
#[derive(Clone, Copy, Debug, PartialEq, Eq, Structural)]
pub struct Heading {
    pub dx: i64,
    pub dy: i64,
    pub mag: i64,
}

/// A drawable stroke: one segment rendered as a line from its trailing point
/// to its leading point.
#[derive(Clone, Copy, Debug, PartialEq, Eq, Structural)]
pub struct LinePrimitive {
    pub from: Point,
    pub to: Point,
    pub width: i64,
}

/// The orientation that stands for "pointing along the positive x axis",
/// the rest orientation of a segment that has never been aimed and the one a
/// degenerate aim (target equal to the trailing point) falls back to.
pub open spec fn unit_heading() -> Heading {
    Heading { dx: 1, dy: 0, mag: 1 }
}

/// A well-formed orientation: positive magnitude bounding both components.
pub open spec fn heading_wf(h: Heading) -> bool {
    &&& 1 <= h.mag <= DIR_LIMIT
    &&& -h.mag <= h.dx <= h.mag
    &&& -h.mag <= h.dy <= h.mag
}

/// A point within the range accepted from the outside world.
pub open spec fn in_coord_range(p: Point) -> bool {
    &&& -COORD_LIMIT <= p.x <= COORD_LIMIT
    &&& -COORD_LIMIT <= p.y <= COORD_LIMIT
}

/// A point within the range an internal aim target can reach.
pub open spec fn in_target_range(p: Point) -> bool {
    &&& -TARGET_LIMIT <= p.x <= TARGET_LIMIT
    &&& -TARGET_LIMIT <= p.y <= TARGET_LIMIT
}

/// The rounded-down square root: the largest `r` with `r * r <= n`.
pub open spec fn sqrt_floor(n: int) -> int
    decreases n,
{
    if n < 1 {
        0
    } else {
        let r = sqrt_floor(n - 1);
        if (r + 1) * (r + 1) <= n {
            r + 1
        } else {
            r
        }
    }
}

/// `sqrt_floor` is what its name says: its square is at most `n`, and the
/// next square is beyond `n`.
pub proof fn lemma_sqrt_floor(n: int)
    requires
        n >= 0,
    ensures
        sqrt_floor(n) >= 0,
        sqrt_floor(n) * sqrt_floor(n) <= n,
        n < (sqrt_floor(n) + 1) * (sqrt_floor(n) + 1),
    decreases n,
{
    if n >= 1 {
        lemma_sqrt_floor(n - 1);
        let r = sqrt_floor(n - 1);
        if (r + 1) * (r + 1) <= n {
            assert(n <= (r + 1) * (r + 1));
            assert((r + 1 + 1) * (r + 1 + 1) > (r + 1) * (r + 1)) by (nonlinear_arith)
                requires r >= 0;
        }
    }
}

/// Only one value satisfies the square-root characterization.
pub proof fn lemma_sqrt_floor_unique(n: int, r: int)
    requires
        n >= 0,
        r >= 0,
        r * r <= n,
        n < (r + 1) * (r + 1),
    ensures
        r == sqrt_floor(n),
{
    lemma_sqrt_floor(n);
    let s = sqrt_floor(n);
    if r < s {
        assert((r + 1) * (r + 1) <= s * s) by (nonlinear_arith)
            requires 0 <= r + 1 <= s;
    }
    if s < r {
        assert((s + 1) * (s + 1) <= r * r) by (nonlinear_arith)
            requires 0 <= s + 1 <= r;
    }
}

/// The rounded-down magnitude of a vector never falls below either component.
pub proof fn lemma_sqrt_floor_dominates(dx: int, dy: int)
    ensures
        sqrt_floor(dx * dx + dy * dy) >= (if dx >= 0 { dx } else { -dx }),
        sqrt_floor(dx * dx + dy * dy) >= (if dy >= 0 { dy } else { -dy }),
{
    let ax = if dx >= 0 { dx } else { -dx };
    let ay = if dy >= 0 { dy } else { -dy };
    let n = dx * dx + dy * dy;
    assert(dx * dx + dy * dy == ax * ax + ay * ay && dx * dx + dy * dy >= 0) by (nonlinear_arith)
        requires ax == (if dx >= 0 { dx } else { -dx }), ay == (if dy >= 0 { dy } else { -dy });
    lemma_sqrt_floor(n);
    let s = sqrt_floor(n);
    if s < ax {
        assert((s + 1) * (s + 1) <= ax * ax) by (nonlinear_arith)
            requires 0 <= s + 1 <= ax;
        assert(ay * ay >= 0) by (nonlinear_arith);
    }
    if s < ay {
        assert((s + 1) * (s + 1) <= ay * ay) by (nonlinear_arith)
            requires 0 <= s + 1 <= ay;
        assert(ax * ax >= 0) by (nonlinear_arith);
    }
}

/// The rounded-down magnitude of a vector never exceeds the sum of the
/// component magnitudes.
pub proof fn lemma_sqrt_floor_within_sum(dx: int, dy: int)
    ensures
        sqrt_floor(dx * dx + dy * dy) <= (if dx >= 0 { dx } else { -dx }) + (if dy >= 0 {
            dy
        } else {
            -dy
        }),
{
    let ax = if dx >= 0 { dx } else { -dx };
    let ay = if dy >= 0 { dy } else { -dy };
    let n = dx * dx + dy * dy;
    assert(dx * dx + dy * dy == ax * ax + ay * ay && dx * dx + dy * dy >= 0) by (nonlinear_arith)
        requires ax == (if dx >= 0 { dx } else { -dx }), ay == (if dy >= 0 { dy } else { -dy });
    lemma_sqrt_floor(n);
    let s = sqrt_floor(n);
    if s > ax + ay {
        assert(ax * ax + ay * ay < s * s) by (nonlinear_arith)
            requires 0 <= ax, 0 <= ay, ax + ay < s;
    }
}

/// One component of walking `len` along the direction `(d, _)` of rounded
/// magnitude `mag`: `len * d / mag`, rounded toward zero.
pub open spec fn scale_part(len: int, d: int, mag: int) -> int {
    if d >= 0 {
        (len * d) / mag
    } else {
        -((len * -d) / mag)
    }
}

/// The rounded-down square root, computed by binary search.
pub fn isqrt(n: u64) -> (r: u64)
    ensures
        r * r <= n < (r + 1) * (r + 1),
        r == sqrt_floor(n as int),
{
    let mut lo: u64 = 0;
    let mut hi: u64 = 4_294_967_296;
    proof {
        assert((4_294_967_296u64 as int) * (4_294_967_296u64 as int) > u64::MAX as int)
            by (nonlinear_arith);
    }
    while lo + 1 < hi
        invariant
            lo < hi <= 4_294_967_296,
            lo * lo <= n,
            n < hi * hi,
        decreases hi - lo,
    {
        let mid: u64 = lo + (hi - lo) / 2;
        assert(lo < mid < hi);
        assert(mid * mid <= u64::MAX) by (nonlinear_arith)
            requires mid <= 4_294_967_295u64;
        if mid * mid <= n {
            lo = mid;
        } else {
            hi = mid;
        }
    }
    proof {
        lemma_sqrt_floor_unique(n as int, lo as int);
    }
    lo
}

/// One component of walking `len` along a direction vector: scales the
/// component `d` by `len / mag`, rounding toward zero.  The result never
/// exceeds `len` in magnitude because `|d| <= mag`.
pub fn scale_len(len: i64, d: i64, mag: i64) -> (r: i64)
    requires
        0 <= len <= LEN_LIMIT,
        1 <= mag <= DIR_LIMIT,
        -mag <= d <= mag,
    ensures
        r == scale_part(len as int, d as int, mag as int),
        -len <= r <= len,
{
    let da: u64 = if d < 0 {
        (-d) as u64
    } else {
        d as u64
    };
    let la: u64 = len as u64;
    let ma: u64 = mag as u64;
    assert(la * da <= u64::MAX) by (nonlinear_arith)
        requires la <= 1_000_000, da <= 4_300_000_000u64;
    let q: u64 = (la * da) / ma;
    proof {
        assert((la as int) * (da as int) <= (ma as int) * (la as int)) by (nonlinear_arith)
            requires da <= ma;
        lemma_div_is_ordered((la as int) * (da as int), (ma as int) * (la as int), ma as int);
        lemma_div_multiples_vanish(la as int, ma as int);
    }
    if d < 0 {
        -(q as i64)
    } else {
        q as i64
    }
}

} // verus!
