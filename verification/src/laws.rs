//! The chain-level laws: what the aiming pass and regeneration guarantee
//! beyond any single call — abutment after an update pass, stability of an
//! aimed chain, idempotence of regeneration, and restoration after a grow
//! and shrink round trip.

use crate::chain::{
    regen_post, regen_step, update_post, update_step, update_target, ChainParams,
};
use crate::geometry::{
    heading_wf, lemma_sqrt_floor_dominates, lemma_sqrt_floor_within_sum, scale_part, sqrt_floor,
    Heading, Point,
};
use crate::segment::Segment;
use vstd::arithmetic::div_mod::{lemma_div_is_ordered, lemma_div_multiples_vanish};
use vstd::prelude::*;

verus! {

/// A nonnegative value divided by a positive one only vanishes when it is
/// smaller.
proof fn lemma_div_zero_means_less(a: int, b: int)
    requires
        0 <= a,
        1 <= b,
        a / b == 0,
    ensures
        a < b,
{
    if a >= b {
        lemma_div_is_ordered(b, a, b);
        lemma_div_multiples_vanish(1, b);
    }
}

/// Walking a length of at least two along a nonzero direction never rounds
/// both displacement components away: the segment visibly points somewhere.
proof fn lemma_offset_nonzero(len: int, dx: int, dy: int)
    requires
        len >= 2,
        dx != 0 || dy != 0,
    ensures
        scale_part(len, dx, sqrt_floor(dx * dx + dy * dy)) != 0 || scale_part(
            len,
            dy,
            sqrt_floor(dx * dx + dy * dy),
        ) != 0,
{
    let ax = if dx >= 0 { dx } else { -dx };
    let ay = if dy >= 0 { dy } else { -dy };
    let mag = sqrt_floor(dx * dx + dy * dy);
    lemma_sqrt_floor_dominates(dx, dy);
    lemma_sqrt_floor_within_sum(dx, dy);
    if scale_part(len, dx, mag) == 0 && scale_part(len, dy, mag) == 0 {
        assert((len * ax) / mag == 0);
        assert((len * ay) / mag == 0);
        assert(len * ax >= 0 && len * ay >= 0) by (nonlinear_arith)
            requires len >= 2, ax >= 0, ay >= 0;
        lemma_div_zero_means_less(len * ax, mag);
        lemma_div_zero_means_less(len * ay, mag);
        assert(false) by (nonlinear_arith)
            requires
                len >= 2,
                ax >= 0,
                ay >= 0,
                ax >= 1 || ay >= 1,
                len * ax < mag,
                len * ay < mag,
                mag <= ax + ay;
    }
}

/// Aiming pins the geometry: two segments left by the same aim from the
/// same starting geometry agree on everything the aim touches.
proof fn lemma_follow_geo_unique(start0: Point, h0: Heading, len: int, t: Point, a: Segment, b: Segment)
    requires
        Segment::follow_geo(start0, h0, len, t, a),
        Segment::follow_geo(start0, h0, len, t, b),
    ensures
        a.start == b.start,
        a.end == b.end,
        a.heading == b.heading,
{
}

/// Aiming is stable: a segment that an aim at `t` has just left behind is
/// left untouched by a second aim at `t`, as long as its length is at least
/// two, so that the rounded displacement cannot collapse to zero.
pub proof fn lemma_follow_geo_stable(start0: Point, h0: Heading, len: int, t: Point, n: Segment)
    requires
        heading_wf(h0),
        len >= 2,
        Segment::follow_geo(start0, h0, len, t, n),
    ensures
        Segment::follow_geo(n.start, n.heading, len, t, n),
{
    let dx = t.x - start0.x;
    let dy = t.y - start0.y;
    if dx == 0 && dy == 0 {
    } else if dx == Segment::heading_off_x(len, h0) && dy == Segment::heading_off_y(len, h0) {
    } else {
        lemma_offset_nonzero(len, dx, dy);
    }
}

/// Two aim passes from the same chain with the same head target leave the
/// same first `m` segments, as long as each step's starting geometry and
/// dimensions agree.
proof fn lemma_aim_unique(
    src: Seq<Segment>,
    len: int,
    t: Point,
    a: Seq<Segment>,
    b: Seq<Segment>,
    m: int,
)
    requires
        0 <= m <= src.len(),
        m <= a.len(),
        m <= b.len(),
        forall|i: int|
            0 <= i < m ==> Segment::follow_geo(
                src[i].start,
                src[i].heading,
                len,
                #[trigger] update_target(a, t, i),
                a[i],
            ),
        forall|i: int|
            0 <= i < m ==> Segment::follow_geo(
                src[i].start,
                src[i].heading,
                len,
                #[trigger] update_target(b, t, i),
                b[i],
            ),
        forall|i: int| 0 <= i < m ==> (#[trigger] a[i]).length == b[i].length,
        forall|i: int| 0 <= i < m ==> (#[trigger] a[i]).width == b[i].width,
    ensures
        forall|i: int| 0 <= i < m ==> #[trigger] a[i] == b[i],
    decreases m,
{
    if m > 0 {
        lemma_aim_unique(src, len, t, a, b, m - 1);
        let j = m - 1;
        assert(update_target(a, t, j) == update_target(b, t, j));
        lemma_follow_geo_unique(
            src[j].start,
            src[j].heading,
            len,
            update_target(a, t, j),
            a[j],
            b[j],
        );
        assert(a[j] == b[j]);
        assert forall|i: int| 0 <= i < m implies #[trigger] a[i] == b[i] by {
            if i < m - 1 {
                assert(a[i] == b[i]);
            }
        }
    }
}

/// Abutment: after an update pass toward `t` in which no segment's target
/// coincided with its old trailing point, the head's leading point sits on
/// `t`, and every later segment's leading point sits exactly on the trailing
/// point of the segment before it.
pub proof fn lemma_update_abutment(old_segs: Seq<Segment>, t: Point, new: Seq<Segment>)
    requires
        update_post(old_segs, t, new),
        forall|i: int|
            0 <= i < old_segs.len() ==> #[trigger] update_target(new, t, i)
                != old_segs[i].start,
    ensures
        new.len() > 0 ==> new[0].end == t,
        forall|i: int| 1 <= i < new.len() ==> (#[trigger] new[i]).end == new[i - 1].start,
{
    assert forall|i: int| 0 <= i < new.len() implies (#[trigger] new[i]).end == update_target(
        new,
        t,
        i,
    ) by {
        assert(update_step(old_segs, t, new, i));
    }
}

/// An update pass is idempotent: the chain it leaves behind is a fixed
/// point of a second pass toward the same target, as long as every segment
/// is at least two units long.
pub proof fn lemma_update_idempotent(old_segs: Seq<Segment>, t: Point, new: Seq<Segment>)
    requires
        update_post(old_segs, t, new),
        forall|i: int| 0 <= i < old_segs.len() ==> (#[trigger] old_segs[i]).wf(),
        forall|i: int| 0 <= i < old_segs.len() ==> (#[trigger] old_segs[i]).length >= 2,
    ensures
        update_post(new, t, new),
{
    assert forall|i: int| 0 <= i < new.len() implies #[trigger] update_step(new, t, new, i) by {
        assert(update_step(old_segs, t, new, i));
        lemma_follow_geo_stable(
            old_segs[i].start,
            old_segs[i].heading,
            new[i].length as int,
            update_target(new, t, i),
            new[i],
        );
    }
}

/// Regeneration is idempotent: run twice with the same parameters and the
/// same anchor, with no update pass between, the second run changes nothing
/// — as long as the count does not grow (a growing run appends segments
/// that are deliberately left unaimed, which the next pass then aims) and
/// the segment length is at least two.
pub proof fn lemma_regenerate_idempotent(
    s0: Seq<Segment>,
    p: ChainParams,
    anchor: Point,
    s1: Seq<Segment>,
    s2: Seq<Segment>,
)
    requires
        p.wf(),
        p.length >= 2,
        p.segment_count <= s0.len(),
        forall|i: int| 0 <= i < s0.len() ==> (#[trigger] s0[i]).wf(),
        regen_post(s0, p, anchor, s1),
        regen_post(s1, p, anchor, s2),
    ensures
        s2 == s1,
{
    let k = p.segment_count as int;
    assert forall|i: int|
        0 <= i < k implies Segment::follow_geo(
        s1[i].start,
        s1[i].heading,
        p.length as int,
        #[trigger] update_target(s1, anchor, i),
        s1[i],
    ) by {
        assert(regen_step(s0, p, anchor, s1, i));
        lemma_follow_geo_stable(
            s0[i].start,
            s0[i].heading,
            p.length as int,
            update_target(s1, anchor, i),
            s1[i],
        );
    }
    assert forall|i: int|
        0 <= i < k implies Segment::follow_geo(
        s1[i].start,
        s1[i].heading,
        p.length as int,
        #[trigger] update_target(s2, anchor, i),
        s2[i],
    ) by {
        assert(regen_step(s1, p, anchor, s2, i));
    }
    assert forall|i: int| 0 <= i < k implies (#[trigger] s2[i]).length == s1[i].length
        && s2[i].width == s1[i].width by {
        assert(regen_step(s0, p, anchor, s1, i));
        assert(regen_step(s1, p, anchor, s2, i));
    }
    lemma_aim_unique(s1, p.length as int, anchor, s2, s1, k);
    assert(s2 =~= s1);
}

/// Growing the chain and shrinking it back restores it exactly: starting
/// from a chain whose dimensions already match the parameters and which an
/// update pass toward `anchor` leaves in place, regenerating to a larger
/// count and then back to the original count returns the original chain —
/// survivors are never touched, only the tail is appended to and truncated.
pub proof fn lemma_grow_shrink_restores(
    s0: Seq<Segment>,
    p_grow: ChainParams,
    p_back: ChainParams,
    anchor: Point,
    s1: Seq<Segment>,
    s2: Seq<Segment>,
)
    requires
        p_grow.wf(),
        p_back.wf(),
        p_back.length == p_grow.length,
        p_back.base_width == p_grow.base_width,
        p_back.width_growth == p_grow.width_growth,
        p_back.segment_count == s0.len(),
        p_grow.segment_count >= s0.len(),
        forall|i: int|
            0 <= i < s0.len() ==> (#[trigger] s0[i]).length == p_grow.length && s0[i].width
                == p_grow.width_at(i),
        update_post(s0, anchor, s0),
        regen_post(s0, p_grow, anchor, s1),
        regen_post(s1, p_back, anchor, s2),
    ensures
        s2 == s0,
{
    let n0 = s0.len() as int;
    let len = p_grow.length as int;
    assert forall|i: int|
        0 <= i < n0 implies Segment::follow_geo(
        s0[i].start,
        s0[i].heading,
        len,
        #[trigger] update_target(s1, anchor, i),
        s1[i],
    ) && s1[i].length == s0[i].length && s1[i].width == s0[i].width by {
        assert(regen_step(s0, p_grow, anchor, s1, i));
    }
    assert forall|i: int|
        0 <= i < n0 implies Segment::follow_geo(
        s0[i].start,
        s0[i].heading,
        len,
        #[trigger] update_target(s0, anchor, i),
        s0[i],
    ) by {
        assert(update_step(s0, anchor, s0, i));
    }
    assert forall|i: int|
        0 <= i < n0 implies (#[trigger] s1[i]).length == s0[i].length && s1[i].width
        == s0[i].width by {
        assert(regen_step(s0, p_grow, anchor, s1, i));
    }
    lemma_aim_unique(s0, len, anchor, s1, s0, n0);
    assert forall|i: int|
        0 <= i < n0 implies Segment::follow_geo(
        s0[i].start,
        s0[i].heading,
        len,
        #[trigger] update_target(s2, anchor, i),
        s2[i],
    ) && s2[i].length == s0[i].length && s2[i].width == s0[i].width by {
        assert(regen_step(s1, p_back, anchor, s2, i));
        assert(s1[i] == s0[i]);
    }
    assert forall|i: int|
        0 <= i < n0 implies (#[trigger] s2[i]).length == s0[i].length && s2[i].width
        == s0[i].width by {
        assert(regen_step(s1, p_back, anchor, s2, i));
        assert(s1[i] == s0[i]);
    }
    lemma_aim_unique(s0, len, anchor, s2, s0, n0);
    assert(s2 =~= s0);
}

} // verus!
