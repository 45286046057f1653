//! Rigid-body physics: component types, gravity, integration, and the
//! resolution of collisions between dynamic circles and static circles or
//! rectangles.
//!
//! An entity with a `Velocity` component is dynamic; one without is static
//! and acts only as a collision target.

use vstd::prelude::*;
use crate::vec2::{Vec2i, in_world, clip, clamp, div_trunc, div_away, dist_sq, sqrt_floor,
    is_sqrt_floor, clip_i128, clamp_i64, div_trunc_i128, div_away_i128, dist_sq_i128, isqrt_u64,
    lemma_sqrt_floor_unique, lemma_div_away_magnitude, lemma_div_away_bound};
use crate::world::{Entity, World};
use crate::{WORLD_LIMIT, SHAPE_LIMIT, TIME_SCALE, GRAVITY_ACCELERATION};

verus! {

/// World position of an entity's centre.
#[derive(Clone, Copy, Debug, PartialEq, Eq, Structural)]
pub struct Position(pub Vec2i);

/// Velocity in world units per second.
#[derive(Clone, Copy, Debug, PartialEq, Eq, Structural)]
pub struct Velocity(pub Vec2i);

/// Circular collision shape.
#[derive(Clone, Copy, Debug, PartialEq, Eq, Structural)]
pub struct CirclePhysics {
    pub radius: i64,
}

/// Axis-aligned rectangular collision shape, offset from the owning
/// entity's position.
#[derive(Clone, Copy, Debug, PartialEq, Eq, Structural)]
pub struct RectanglePhysics {
    pub width: i64,
    pub height: i64,
    pub offset_x: i64,
    pub offset_y: i64,
}

impl Default for RectanglePhysics {
    fn default() -> (r: Self)
        ensures
            r == (RectanglePhysics { width: 10, height: 10, offset_x: 0, offset_y: 0 }),
    {
        RectanglePhysics { width: 10, height: 10, offset_x: 0, offset_y: 0 }
    }
}

/// The set of rectangular colliders carried by one static entity.
#[derive(Clone, Debug)]
pub struct ColliderCollection(pub Vec<RectanglePhysics>);

impl CirclePhysics {
    /// The radius is positive and small against the world bound.
    pub open spec fn wf(self) -> bool {
        0 < self.radius <= SHAPE_LIMIT
    }
}

impl RectanglePhysics {
    /// Sides are non-negative and the shape is small against the world
    /// bound.
    pub open spec fn wf(self) -> bool {
        &&& 0 <= self.width <= SHAPE_LIMIT
        &&& 0 <= self.height <= SHAPE_LIMIT
        &&& -SHAPE_LIMIT <= self.offset_x <= SHAPE_LIMIT
        &&& -SHAPE_LIMIT <= self.offset_y <= SHAPE_LIMIT
    }
}

impl ColliderCollection {
    pub open spec fn wf(self) -> bool {
        forall|i: int| 0 <= i < self.0@.len() ==> (#[trigger] self.0@[i]).wf()
    }
}

/// `p` stands clear of the world bound by more than any shape can reach,
/// so resolving a collision against a shape at `p` never clips.
pub open spec fn interior(p: Vec2i) -> bool {
    &&& -(WORLD_LIMIT - 5 * SHAPE_LIMIT) <= p.x <= WORLD_LIMIT - 5 * SHAPE_LIMIT
    &&& -(WORLD_LIMIT - 5 * SHAPE_LIMIT) <= p.y <= WORLD_LIMIT - 5 * SHAPE_LIMIT
}

/// The new velocity component when a closing contact along a unit axis is
/// reflected: the normal component is removed `1 + 7/10` times.
pub open spec fn axis_reflected(vc: int) -> int {
    clip(vc - div_trunc(17 * vc, 10))
}

/// One resolution of a dynamic circle at `(px, py)` with velocity
/// `(vx, vy)` and radius `rad` against a static circle at `(sx, sy)` with
/// radius `srad`. Yields the new position and velocity.
///
/// Without contact nothing changes. On contact the dynamic circle is
/// pushed out along the centre-to-centre direction far enough that the
/// centres stand at least the radius sum apart (the quotient rounds away
/// from zero, so integer rounding never leaves penetration), and a closing
/// velocity is reflected with restitution 7/10. Coincident centres fall
/// back to the positive x axis.
pub open spec fn circle_resolved(
    px: int, py: int, vx: int, vy: int, rad: int,
    sx: int, sy: int, srad: int,
) -> (int, int, int, int) {
    let dx = px - sx;
    let dy = py - sy;
    let s = dx * dx + dy * dy;
    let sum = rad + srad;
    if s >= sum * sum {
        (px, py, vx, vy)
    } else if s == 0 {
        let nvx = if vx < 0 { axis_reflected(vx) } else { vx };
        (clip(sx + sum), clip(sy), nvx, vy)
    } else {
        let d = sqrt_floor(s);
        let npx = clip(sx + div_away(dx * sum, d));
        let npy = clip(sy + div_away(dy * sum, d));
        let q = vx * dx + vy * dy;
        if q < 0 {
            let nvx = clip(vx - div_trunc(17 * q * dx, 10 * s));
            let nvy = clip(vy - div_trunc(17 * q * dy, 10 * s));
            (npx, npy, nvx, nvy)
        } else {
            (npx, npy, vx, vy)
        }
    }
}

/// The pair `(np, nv)` is what `circle_resolved` yields for this contact.
pub open spec fn circle_resolution_ok(
    p: Position, v: Velocity, rad: i64, sp: Position, srad: i64,
    np: Position, nv: Velocity,
) -> bool {
    let t = circle_resolved(
        p.0.x as int, p.0.y as int, v.0.x as int, v.0.y as int, rad as int,
        sp.0.x as int, sp.0.y as int, srad as int,
    );
    np.0.x as int == t.0 && np.0.y as int == t.1 && nv.0.x as int == t.2 && nv.0.y as int == t.3
}

/// If each pushed component covers the exact push in magnitude (the
/// away-from-zero rounding guarantees it), the pushed point stands at
/// least `sum` away from the centre.
proof fn lemma_push_separates(dx: int, dy: int, s: int, d: int, sum: int, ndx: int, ndy: int)
    requires
        s == dx * dx + dy * dy,
        0 < d,
        d * d <= s,
        0 < sum,
        dx >= 0 ==> ndx >= 0 && ndx * d >= dx * sum,
        dx < 0 ==> ndx <= 0 && ndx * d <= dx * sum,
        dy >= 0 ==> ndy >= 0 && ndy * d >= dy * sum,
        dy < 0 ==> ndy <= 0 && ndy * d <= dy * sum,
    ensures
        ndx * ndx + ndy * ndy >= sum * sum,
{
    assert(ndx * ndx * (d * d) >= dx * dx * (sum * sum)) by (nonlinear_arith)
        requires
            dx >= 0 ==> ndx >= 0 && ndx * d >= dx * sum,
            dx < 0 ==> ndx <= 0 && ndx * d <= dx * sum,
            0 < d,
            0 < sum,
    ;
    assert(ndy * ndy * (d * d) >= dy * dy * (sum * sum)) by (nonlinear_arith)
        requires
            dy >= 0 ==> ndy >= 0 && ndy * d >= dy * sum,
            dy < 0 ==> ndy <= 0 && ndy * d <= dy * sum,
            0 < d,
            0 < sum,
    ;
    assert((ndx * ndx + ndy * ndy) * (d * d) >= (d * d) * (sum * sum)) by (nonlinear_arith)
        requires
            ndx * ndx * (d * d) >= dx * dx * (sum * sum),
            ndy * ndy * (d * d) >= dy * dy * (sum * sum),
            s == dx * dx + dy * dy,
            d * d <= s,
            0 < sum,
    ;
    assert(ndx * ndx + ndy * ndy >= sum * sum) by (nonlinear_arith)
        requires
            (ndx * ndx + ndy * ndy) * (d * d) >= (d * d) * (sum * sum),
            0 < d,
    ;
}

/// Squared distance from the point `(px, py)` to the axis-aligned
/// rectangle centred at `(rcx, rcy)` with sides `w` and `h`: the distance
/// to the closest point of the rectangle, clamped per axis.
pub open spec fn point_rect_dist_sq(px: int, py: int, rcx: int, rcy: int, w: int, h: int) -> int {
    let cx = clamp(px, rcx - w / 2, rcx + w / 2);
    let cy = clamp(py, rcy - h / 2, rcy + h / 2);
    (px - cx) * (px - cx) + (py - cy) * (py - cy)
}

/// One resolution of a dynamic circle against a static rectangle centred
/// at `(rcx, rcy)`.
///
/// The closest rectangle point to the circle's centre is found by
/// clamping per axis. Without contact nothing changes. On contact the
/// circle is pushed out along the direction from that point, as in
/// `circle_resolved`. When the centre lies inside the rectangle the axis
/// of least penetration is chosen and the circle is pushed one full
/// radius along it: a documented heuristic, not exact resolution.
pub open spec fn rect_resolved(
    px: int, py: int, vx: int, vy: int, rad: int,
    rcx: int, rcy: int, w: int, h: int,
) -> (int, int, int, int) {
    let hw = w / 2;
    let hh = h / 2;
    let cx = clamp(px, rcx - hw, rcx + hw);
    let cy = clamp(py, rcy - hh, rcy + hh);
    let dx = px - cx;
    let dy = py - cy;
    let s = dx * dx + dy * dy;
    if s >= rad * rad {
        (px, py, vx, vy)
    } else if s == 0 {
        let dx_min = px - (rcx - hw);
        let dx_max = (rcx + hw) - px;
        let dy_min = py - (rcy - hh);
        let dy_max = (rcy + hh) - py;
        let mx = if dx_min < dx_max { dx_min } else { dx_max };
        let my = if dy_min < dy_max { dy_min } else { dy_max };
        if mx < my {
            let npx = if dx_min < dx_max { clip(px - rad) } else { clip(px + rad) };
            let reflect = if dx_min < dx_max { vx > 0 } else { vx < 0 };
            let nvx = if reflect { axis_reflected(vx) } else { vx };
            (npx, py, nvx, vy)
        } else {
            let npy = if dy_min < dy_max { clip(py - rad) } else { clip(py + rad) };
            let reflect = if dy_min < dy_max { vy > 0 } else { vy < 0 };
            let nvy = if reflect { axis_reflected(vy) } else { vy };
            (px, npy, vx, nvy)
        }
    } else {
        let d = sqrt_floor(s);
        let npx = clip(cx + div_away(dx * rad, d));
        let npy = clip(cy + div_away(dy * rad, d));
        let q = vx * dx + vy * dy;
        if q < 0 {
            let nvx = clip(vx - div_trunc(17 * q * dx, 10 * s));
            let nvy = clip(vy - div_trunc(17 * q * dy, 10 * s));
            (npx, npy, nvx, nvy)
        } else {
            (npx, npy, vx, vy)
        }
    }
}

/// The pair `(np, nv)` is what `rect_resolved` yields for this contact.
pub open spec fn rect_resolution_ok(
    p: Position, v: Velocity, rad: i64, rcx: int, rcy: int, w: i64, h: i64,
    np: Position, nv: Velocity,
) -> bool {
    let t = rect_resolved(
        p.0.x as int, p.0.y as int, v.0.x as int, v.0.y as int, rad as int,
        rcx, rcy, w as int, h as int,
    );
    np.0.x as int == t.0 && np.0.y as int == t.1 && nv.0.x as int == t.2 && nv.0.y as int == t.3
}

/// Pushing away from the clamped point keeps that point the closest one:
/// the clamp of the pushed coordinate is unchanged.
proof fn lemma_axis_clamp_stable(pc: int, lo: int, hi: int, ndc: int, d: int, rad: int)
    requires
        lo <= hi,
        0 < d < rad,
        ({
            let cc = clamp(pc, lo, hi);
            let dc = pc - cc;
            &&& -d <= dc <= d
            &&& dc == 0 ==> ndc == 0
            &&& dc > 0 ==> ndc >= 0 && ndc * d >= dc * rad
            &&& dc < 0 ==> ndc <= 0 && ndc * d <= dc * rad
        }),
    ensures
        clamp(clamp(pc, lo, hi) + ndc, lo, hi) == clamp(pc, lo, hi),
{
    let cc = clamp(pc, lo, hi);
    let dc = pc - cc;
    if dc > 0 {
        assert(cc == hi);
        assert(ndc >= 1) by (nonlinear_arith)
            requires
                ndc * d >= dc * rad,
                dc >= 1,
                0 < d < rad,
                ndc >= 0,
        ;
    } else if dc < 0 {
        assert(cc == lo);
        assert(ndc <= -1) by (nonlinear_arith)
            requires
                ndc * d <= dc * rad,
                dc <= -1,
                0 < d < rad,
                ndc <= 0,
        ;
    }
}

/// Resolve one dynamic circle against one static rectangle centred at
/// `(rcx, rcy)`.
///
/// The result is exactly `rect_resolved`; when the rectangle stands clear
/// of the world bound and the circle's centre is not inside it, the
/// centre ends at least one radius away from the rectangle.
#[verifier::rlimit(50)]
pub fn resolve_circle_rect(
    p: Position, v: Velocity, radius: i64, rcx: i64, rcy: i64, w: i64, h: i64,
) -> (r: (Position, Velocity))
    requires
        in_world(p.0),
        in_world(v.0),
        -(WORLD_LIMIT + SHAPE_LIMIT) <= rcx <= WORLD_LIMIT + SHAPE_LIMIT,
        -(WORLD_LIMIT + SHAPE_LIMIT) <= rcy <= WORLD_LIMIT + SHAPE_LIMIT,
        0 < radius <= SHAPE_LIMIT,
        0 <= w <= SHAPE_LIMIT,
        0 <= h <= SHAPE_LIMIT,
    ensures
        rect_resolution_ok(p, v, radius, rcx as int, rcy as int, w, h, r.0, r.1),
        in_world(r.0.0),
        in_world(r.1.0),
        ({
            let s0 = point_rect_dist_sq(p.0.x as int, p.0.y as int, rcx as int, rcy as int,
                w as int, h as int);
            interior(Vec2i { x: rcx, y: rcy }) && s0 > 0
                ==> point_rect_dist_sq(r.0.0.x as int, r.0.0.y as int, rcx as int, rcy as int,
                    w as int, h as int) >= radius * radius
        }),
{
    let hw = w / 2;
    let hh = h / 2;
    let cx = clamp_i64(p.0.x, rcx - hw, rcx + hw);
    let cy = clamp_i64(p.0.y, rcy - hh, rcy + hh);
    let s128 = dist_sq_i128(p.0, Vec2i { x: cx, y: cy });
    let rad128 = radius as i128;
    proof {
        assert(rad128 * rad128 <= 0x4_0000_0000_0000) by (nonlinear_arith)
            requires 0 < rad128 <= 1_000_000;
    }
    if s128 >= rad128 * rad128 {
        (p, v)
    } else if s128 == 0 {
        let dx_min = p.0.x - (rcx - hw);
        let dx_max = (rcx + hw) - p.0.x;
        let dy_min = p.0.y - (rcy - hh);
        let dy_max = (rcy + hh) - p.0.y;
        let mx = if dx_min < dx_max { dx_min } else { dx_max };
        let my = if dy_min < dy_max { dy_min } else { dy_max };
        if mx < my {
            let npx = if dx_min < dx_max {
                clip_i128(p.0.x as i128 - rad128)
            } else {
                clip_i128(p.0.x as i128 + rad128)
            };
            let reflect = if dx_min < dx_max { v.0.x > 0 } else { v.0.x < 0 };
            let nvx = if reflect {
                let t = div_trunc_i128(17 * (v.0.x as i128), 10);
                clip_i128(v.0.x as i128 - t)
            } else {
                v.0.x
            };
            (Position(Vec2i { x: npx, y: p.0.y }), Velocity(Vec2i { x: nvx, y: v.0.y }))
        } else {
            let npy = if dy_min < dy_max {
                clip_i128(p.0.y as i128 - rad128)
            } else {
                clip_i128(p.0.y as i128 + rad128)
            };
            let reflect = if dy_min < dy_max { v.0.y > 0 } else { v.0.y < 0 };
            let nvy = if reflect {
                let t = div_trunc_i128(17 * (v.0.y as i128), 10);
                clip_i128(v.0.y as i128 - t)
            } else {
                v.0.y
            };
            (Position(Vec2i { x: p.0.x, y: npy }), Velocity(Vec2i { x: v.0.x, y: nvy }))
        }
    } else {
        let d64 = isqrt_u64(s128 as u64);
        proof {
            lemma_sqrt_floor_unique(s128 as int, d64 as int);
        }
        let d: i128 = d64 as i128;
        let dx: i128 = p.0.x as i128 - cx as i128;
        let dy: i128 = p.0.y as i128 - cy as i128;
        proof {
            assert(-(1_000_000 as i128) * 0x1_0000_0000 <= dx * rad128 <= 1_000_000 * 0x1_0000_0000
                && -(1_000_000 as i128) * 0x1_0000_0000 <= dy * rad128 <= 1_000_000 * 0x1_0000_0000)
                by (nonlinear_arith)
                requires
                    -4_000_000_000 <= dx <= 4_000_000_000,
                    -4_000_000_000 <= dy <= 4_000_000_000,
                    0 < rad128 <= 1_000_000,
            ;
        }
        let px_push = div_away_i128(dx * rad128, d);
        let py_push = div_away_i128(dy * rad128, d);
        let npx = clip_i128(cx as i128 + px_push);
        let npy = clip_i128(cy as i128 + py_push);
        proof {
            assert(-0x4000_0000_0000_0000 <= (v.0.x as i128) * dx <= 0x4000_0000_0000_0000
                && -0x4000_0000_0000_0000 <= (v.0.y as i128) * dy <= 0x4000_0000_0000_0000)
                by (nonlinear_arith)
                requires
                    -4_000_000_000 <= dx <= 4_000_000_000,
                    -4_000_000_000 <= dy <= 4_000_000_000,
                    -1_000_000_000 <= v.0.x as i128 <= 1_000_000_000,
                    -1_000_000_000 <= v.0.y as i128 <= 1_000_000_000,
            ;
        }
        let q: i128 = (v.0.x as i128) * dx + (v.0.y as i128) * dy;
        let (nvx, nvy) = if q < 0 {
            let den: i128 = 10 * s128;
            let q17: i128 = 17 * q;
            proof {
                assert(-0x1000_0000_0000_0000_0000_0000_0000 <= q17 * dx
                    <= 0x1000_0000_0000_0000_0000_0000_0000
                    && -0x1000_0000_0000_0000_0000_0000_0000 <= q17 * dy
                    <= 0x1000_0000_0000_0000_0000_0000_0000)
                    by (nonlinear_arith)
                    requires
                        -0x780_0000_0000_0000_0000 <= q17 <= 0x780_0000_0000_0000_0000,
                        -4_000_000_000 <= dx <= 4_000_000_000,
                        -4_000_000_000 <= dy <= 4_000_000_000,
                ;
            }
            let tx = div_trunc_i128(q17 * dx, den);
            let ty = div_trunc_i128(q17 * dy, den);
            (clip_i128(v.0.x as i128 - tx), clip_i128(v.0.y as i128 - ty))
        } else {
            (v.0.x, v.0.y)
        };
        let np = Position(Vec2i { x: npx, y: npy });
        let nv = Velocity(Vec2i { x: nvx, y: nvy });
        proof {
            let dxi = dx as int;
            let dyi = dy as int;
            let si = s128 as int;
            let di = d as int;
            let radi = radius as int;
            let ndx = px_push as int;
            let ndy = py_push as int;
            assert(-di <= dxi <= di && -di <= dyi <= di) by (nonlinear_arith)
                requires
                    dxi * dxi + dyi * dyi == si,
                    si < (di + 1) * (di + 1),
                    di >= 0,
            ;
            assert(di < radi) by (nonlinear_arith)
                requires
                    di * di <= si,
                    si < radi * radi,
                    di >= 0,
                    radi > 0,
            ;
            assert(-(radi * di) <= dxi * radi <= radi * di
                && -(radi * di) <= dyi * radi <= radi * di) by (nonlinear_arith)
                requires
                    -di <= dxi <= di,
                    -di <= dyi <= di,
                    0 < radi,
                    0 < di,
            ;
            lemma_div_away_bound(dxi * radi, di, radi);
            lemma_div_away_bound(dyi * radi, di, radi);
            lemma_div_away_magnitude(dxi * radi, di);
            lemma_div_away_magnitude(dyi * radi, di);
            assert((dxi >= 0 ==> dxi * radi >= 0) && (dxi < 0 ==> dxi * radi < 0)
                && (dyi >= 0 ==> dyi * radi >= 0) && (dyi < 0 ==> dyi * radi < 0))
                by (nonlinear_arith)
                requires 0 < radi;
            if dxi == 0 {
                assert(dxi * radi == 0) by (nonlinear_arith)
                    requires dxi == 0;
                vstd::arithmetic::div_mod::lemma_basic_div(di - 1, di);
                assert(ndx == 0);
            }
            if dyi == 0 {
                assert(dyi * radi == 0) by (nonlinear_arith)
                    requires dyi == 0;
                vstd::arithmetic::div_mod::lemma_basic_div(di - 1, di);
                assert(ndy == 0);
            }
            lemma_push_separates(dxi, dyi, si, di, radi, ndx, ndy);
            if interior(Vec2i { x: rcx, y: rcy }) {
                lemma_axis_clamp_stable(p.0.x as int, rcx - hw, rcx + hw, ndx, di, radi);
                lemma_axis_clamp_stable(p.0.y as int, rcy - hh, rcy + hh, ndy, di, radi);
                assert(np.0.x == cx + ndx && np.0.y == cy + ndy);
            }
        }
        (np, nv)
    }
}

/// The record is a live static circle: a collision target for dynamic
/// circles.
pub open spec fn is_static_circle(e: Entity) -> bool {
    e.alive && e.pos is Some && e.vel is None && e.circle is Some
}

/// The record is a live dynamic circle: moved by physics and resolved
/// against every static collider.
pub open spec fn is_dynamic_circle(e: Entity) -> bool {
    e.alive && e.pos is Some && e.vel is Some && e.circle is Some
}

/// The static circles of the world, in entity order: centre and radius.
pub open spec fn static_circles_of(s: Seq<Entity>) -> Seq<(Position, i64)>
    decreases s.len(),
{
    if s.len() == 0 {
        Seq::empty()
    } else {
        let rest = static_circles_of(s.drop_last());
        let e = s.last();
        if is_static_circle(e) {
            rest.push((e.pos->0, e.circle->0.radius))
        } else {
            rest
        }
    }
}

/// A dynamic circle's position and velocity after resolving against each
/// static circle of `statics`, in order.
pub open spec fn circles_fold(
    px: int, py: int, vx: int, vy: int, rad: int, statics: Seq<(Position, i64)>,
) -> (int, int, int, int)
    decreases statics.len(),
{
    if statics.len() == 0 {
        (px, py, vx, vy)
    } else {
        let t = circles_fold(px, py, vx, vy, rad, statics.drop_last());
        let st = statics.last();
        circle_resolved(t.0, t.1, t.2, t.3, rad, st.0.0.x as int, st.0.0.y as int, st.1 as int)
    }
}

/// The record `e` after the circle-circle pass against `statics`.
pub open spec fn circles_pass_applied(e: Entity, statics: Seq<(Position, i64)>) -> Entity {
    if is_dynamic_circle(e) {
        let p = (e.pos->0).0;
        let v = (e.vel->0).0;
        let t = circles_fold(
            p.x as int, p.y as int, v.x as int, v.y as int,
            (e.circle->0).radius as int, statics,
        );
        Entity {
            pos: Some(Position(Vec2i { x: t.0 as i64, y: t.1 as i64 })),
            vel: Some(Velocity(Vec2i { x: t.2 as i64, y: t.3 as i64 })),
            position_changed: e.position_changed || t.0 != p.x as int || t.1 != p.y as int,
            ..e
        }
    } else {
        e
    }
}

/// Resolve every live dynamic circle against every live static circle, in
/// entity order.
pub fn collision_with_static_circles(world: &mut World)
    requires
        old(world).wf(),
    ensures
        final(world).wf(),
        final(world).entities@.len() == old(world).entities@.len(),
        forall|k: int|
            0 <= k < old(world).entities@.len() ==> final(world).entities@[k]
                == circles_pass_applied(#[trigger] old(world).entities@[k],
                    static_circles_of(old(world).entities@)),
{
    let ghost statics_spec = static_circles_of(old(world).entities@);
    let n = world.entities.len();
    let mut statics: Vec<(Position, i64)> = Vec::new();
    let mut i: usize = 0;
    while i < n
        invariant
            world == old(world),
            world.wf(),
            world.entities@.len() == n,
            0 <= i <= n,
            statics@ == static_circles_of(world.entities@.take(i as int)),
            forall|k: int|
                0 <= k < statics@.len() ==> in_world((#[trigger] statics@[k]).0.0)
                    && 0 < statics@[k].1 <= SHAPE_LIMIT,
        decreases n - i,
    {
        let e = &world.entities[i];
        if e.alive && e.vel.is_none() {
            if let (Some(p), Some(c)) = (e.pos, e.circle) {
                proof {
                    assert(world.entities@[i as int].wf());
                }
                statics.push((p, c.radius));
            }
        }
        proof {
            let pre = world.entities@.take(i as int);
            let cur = world.entities@.take(i as int + 1);
            assert(cur.drop_last() =~= pre);
            assert(cur.last() == world.entities@[i as int]);
        }
        i = i + 1;
    }
    proof {
        assert(world.entities@.take(n as int) =~= world.entities@);
        assert(statics@ == statics_spec);
    }
    let m = statics.len();
    let mut k: usize = 0;
    while k < n
        invariant
            world.entities@.len() == old(world).entities@.len() == n,
            0 <= k <= n,
            statics@ == statics_spec,
            statics@.len() == m,
            forall|j: int|
                0 <= j < statics@.len() ==> in_world((#[trigger] statics@[j]).0.0)
                    && 0 < statics@[j].1 <= SHAPE_LIMIT,
            forall|j: int|
                0 <= j < k ==> world.entities@[j]
                    == circles_pass_applied(#[trigger] old(world).entities@[j], statics_spec),
            forall|j: int| k <= j < n ==> world.entities@[j] == old(world).entities@[j],
            forall|j: int| 0 <= j < n ==> (#[trigger] world.entities@[j]).wf(),
            old(world).wf(),
        decreases n - k,
    {
        let alive = world.entities[k].alive;
        let poso = world.entities[k].pos;
        let velo = world.entities[k].vel;
        let circo = world.entities[k].circle;
        if alive {
            if let (Some(p0), Some(v0), Some(c)) = (poso, velo, circo) {
                proof {
                    assert(old(world).entities@[k as int].wf());
                }
                let mut p = p0;
                let mut v = v0;
                let mut j: usize = 0;
                while j < m
                    invariant
                        0 <= j <= m,
                        statics@.len() == m,
                        forall|t: int|
                            0 <= t < statics@.len() ==> in_world((#[trigger] statics@[t]).0.0)
                                && 0 < statics@[t].1 <= SHAPE_LIMIT,
                        in_world(p.0),
                        in_world(v.0),
                        0 < c.radius <= SHAPE_LIMIT,
                        ({
                            let t = circles_fold(p0.0.x as int, p0.0.y as int, v0.0.x as int,
                                v0.0.y as int, c.radius as int, statics@.take(j as int));
                            p.0.x as int == t.0 && p.0.y as int == t.1
                                && v.0.x as int == t.2 && v.0.y as int == t.3
                        }),
                    decreases m - j,
                {
                    let st = statics[j];
                    let (np, nv) = resolve_circle_circle(p, v, c.radius, st.0, st.1);
                    proof {
                        let pre = statics@.take(j as int);
                        let cur = statics@.take(j as int + 1);
                        assert(cur.drop_last() =~= pre);
                        assert(cur.last() == statics@[j as int]);
                    }
                    p = np;
                    v = nv;
                    j = j + 1;
                }
                proof {
                    assert(statics@.take(m as int) =~= statics@);
                }
                let changed = p.0.x != p0.0.x || p.0.y != p0.0.y;
                let ent = &mut world.entities[k];
                ent.pos = Some(p);
                ent.vel = Some(v);
                if changed {
                    ent.position_changed = true;
                }
            }
        }
        k = k + 1;
    }
}

/// The mathematical view of a collected rectangle list: each tuple's
/// components as unbounded integers.
pub open spec fn rects_view(v: Seq<(i64, i64, i64, i64)>) -> Seq<(int, int, int, int)> {
    v.map_values(|t: (i64, i64, i64, i64)| (t.0 as int, t.1 as int, t.2 as int, t.3 as int))
}

/// The absolute rectangles one record contributes as collision targets:
/// centre, then sides. Only live static entities with a collider
/// collection contribute.
pub open spec fn rects_of(e: Entity) -> Seq<(int, int, int, int)> {
    if e.alive && e.pos is Some && e.vel is None && e.colliders is Some {
        let p = (e.pos->0).0;
        (e.colliders->0).0@.map_values(
            |r: RectanglePhysics|
                (p.x + r.offset_x, p.y + r.offset_y, r.width as int, r.height as int),
        )
    } else {
        Seq::empty()
    }
}

/// All static rectangles of the world, in entity order.
pub open spec fn static_rects_of(s: Seq<Entity>) -> Seq<(int, int, int, int)>
    decreases s.len(),
{
    if s.len() == 0 {
        Seq::empty()
    } else {
        static_rects_of(s.drop_last()) + rects_of(s.last())
    }
}

/// A dynamic circle's position and velocity after resolving against each
/// rectangle of `rects`, in order.
pub open spec fn rects_fold(
    px: int, py: int, vx: int, vy: int, rad: int, rects: Seq<(int, int, int, int)>,
) -> (int, int, int, int)
    decreases rects.len(),
{
    if rects.len() == 0 {
        (px, py, vx, vy)
    } else {
        let t = rects_fold(px, py, vx, vy, rad, rects.drop_last());
        let rc = rects.last();
        rect_resolved(t.0, t.1, t.2, t.3, rad, rc.0, rc.1, rc.2, rc.3)
    }
}

/// The record `e` after the circle-rectangle pass against `rects`.
pub open spec fn rects_pass_applied(e: Entity, rects: Seq<(int, int, int, int)>) -> Entity {
    if is_dynamic_circle(e) {
        let p = (e.pos->0).0;
        let v = (e.vel->0).0;
        let t = rects_fold(
            p.x as int, p.y as int, v.x as int, v.y as int,
            (e.circle->0).radius as int, rects,
        );
        Entity {
            pos: Some(Position(Vec2i { x: t.0 as i64, y: t.1 as i64 })),
            vel: Some(Velocity(Vec2i { x: t.2 as i64, y: t.3 as i64 })),
            position_changed: e.position_changed || t.0 != p.x as int || t.1 != p.y as int,
            ..e
        }
    } else {
        e
    }
}

/// Resolve every live dynamic circle against every static rectangle, in
/// entity order.
pub fn collision_with_static_rectangles(world: &mut World)
    requires
        old(world).wf(),
    ensures
        final(world).wf(),
        final(world).entities@.len() == old(world).entities@.len(),
        forall|k: int|
            0 <= k < old(world).entities@.len() ==> final(world).entities@[k]
                == rects_pass_applied(#[trigger] old(world).entities@[k],
                    static_rects_of(old(world).entities@)),
{
    let ghost rects_spec = static_rects_of(old(world).entities@);
    let n = world.entities.len();
    let mut statics: Vec<(i64, i64, i64, i64)> = Vec::new();
    let mut i: usize = 0;
    while i < n
        invariant
            world == old(world),
            world.wf(),
            world.entities@.len() == n,
            0 <= i <= n,
            rects_view(statics@) == static_rects_of(world.entities@.take(i as int)),
            forall|k: int|
                0 <= k < statics@.len()
                    ==> -(WORLD_LIMIT + SHAPE_LIMIT) <= (#[trigger] statics@[k]).0
                        <= WORLD_LIMIT + SHAPE_LIMIT
                    && -(WORLD_LIMIT + SHAPE_LIMIT) <= statics@[k].1 <= WORLD_LIMIT + SHAPE_LIMIT
                    && 0 <= statics@[k].2 <= SHAPE_LIMIT && 0 <= statics@[k].3 <= SHAPE_LIMIT,
        decreases n - i,
    {
        let alive = world.entities[i].alive;
        let has_vel = world.entities[i].vel.is_some();
        let poso = world.entities[i].pos;
        let has_coll = world.entities[i].colliders.is_some();
        if alive && !has_vel && has_coll {
            if let Some(p) = poso {
                proof {
                    assert(world.entities@[i as int].wf());
                }
                let ghost ent_rects = rects_of(world.entities@[i as int]);
                let ghost before = statics@;
                let nc = world.entities[i].colliders.as_ref().unwrap().0.len();
                let mut j: usize = 0;
                while j < nc
                    invariant
                        world == old(world),
                        world.wf(),
                        world.entities@.len() == n,
                        0 <= i < n,
                        0 <= j <= nc,
                        world.entities@[i as int].alive,
                        world.entities@[i as int].vel is None,
                        world.entities@[i as int].pos == Some(p),
                        in_world(p.0),
                        world.entities@[i as int].colliders is Some,
                        nc == (world.entities@[i as int].colliders->0).0@.len(),
                        ent_rects == rects_of(world.entities@[i as int]),
                        rects_view(statics@) == static_rects_of(world.entities@.take(i as int))
                            + ent_rects.take(j as int),
                        forall|k: int|
                            0 <= k < statics@.len()
                                ==> -(WORLD_LIMIT + SHAPE_LIMIT) <= (#[trigger] statics@[k]).0
                                    <= WORLD_LIMIT + SHAPE_LIMIT
                                && -(WORLD_LIMIT + SHAPE_LIMIT) <= statics@[k].1
                                    <= WORLD_LIMIT + SHAPE_LIMIT
                                && 0 <= statics@[k].2 <= SHAPE_LIMIT
                                && 0 <= statics@[k].3 <= SHAPE_LIMIT,
                    decreases nc - j,
                {
                    let r = world.entities[i].colliders.as_ref().unwrap().0[j];
                    proof {
                        assert(world.entities@[i as int].wf());
                        assert((world.entities@[i as int].colliders->0).0@[j as int].wf());
                    }
                    let ghost stat_pre = statics@;
                    statics.push((p.0.x + r.offset_x, p.0.y + r.offset_y, r.width, r.height));
                    proof {
                        let colls = (world.entities@[i as int].colliders->0).0@;
                        assert(r == colls[j as int]);
                        assert(ent_rects[j as int]
                            == (p.0.x + r.offset_x, p.0.y + r.offset_y, r.width as int,
                                r.height as int));
                        assert(ent_rects.take(j as int + 1) =~= ent_rects.take(j as int).push(
                            ent_rects[j as int]));
                        let lhs = rects_view(statics@);
                        let rhs = static_rects_of(world.entities@.take(i as int))
                            + ent_rects.take(j as int + 1);
                        let prev = rects_view(stat_pre);
                        assert(lhs.len() == statics@.len());
                        assert(statics@.len() == stat_pre.len() + 1);
                        assert(prev.len() == stat_pre.len());
                        assert(prev == static_rects_of(world.entities@.take(i as int))
                            + ent_rects.take(j as int));
                        assert(rhs.len() == prev.len() + 1);
                        assert(lhs.len() == rhs.len());
                        assert forall|k2: int| 0 <= k2 < lhs.len() implies lhs[k2] == rhs[k2] by {
                            if k2 < lhs.len() - 1 {
                                assert(lhs[k2] == prev[k2]);
                            }
                        }
                        assert(lhs =~= rhs);
                    }
                    j = j + 1;
                }
                proof {
                    assert(ent_rects.take(nc as int) =~= ent_rects);
                }
            }
        }
        proof {
            let pre = world.entities@.take(i as int);
            let cur = world.entities@.take(i as int + 1);
            assert(cur.drop_last() =~= pre);
            assert(cur.last() == world.entities@[i as int]);
            if !(alive && !has_vel && has_coll && poso is Some) {
                assert(rects_of(world.entities@[i as int]) =~= Seq::<(int, int, int, int)>::empty());
            }
        }
        i = i + 1;
    }
    proof {
        assert(world.entities@.take(n as int) =~= world.entities@);
    }
    let m = statics.len();
    let mut k: usize = 0;
    while k < n
        invariant
            world.entities@.len() == old(world).entities@.len() == n,
            0 <= k <= n,
            rects_view(statics@) == rects_spec,
            statics@.len() == m,
            forall|j: int|
                0 <= j < statics@.len()
                    ==> -(WORLD_LIMIT + SHAPE_LIMIT) <= (#[trigger] statics@[j]).0
                        <= WORLD_LIMIT + SHAPE_LIMIT
                    && -(WORLD_LIMIT + SHAPE_LIMIT) <= statics@[j].1 <= WORLD_LIMIT + SHAPE_LIMIT
                    && 0 <= statics@[j].2 <= SHAPE_LIMIT && 0 <= statics@[j].3 <= SHAPE_LIMIT,
            forall|j: int|
                0 <= j < k ==> world.entities@[j]
                    == rects_pass_applied(#[trigger] old(world).entities@[j], rects_spec),
            forall|j: int| k <= j < n ==> world.entities@[j] == old(world).entities@[j],
            forall|j: int| 0 <= j < n ==> (#[trigger] world.entities@[j]).wf(),
            old(world).wf(),
        decreases n - k,
    {
        let alive = world.entities[k].alive;
        let poso = world.entities[k].pos;
        let velo = world.entities[k].vel;
        let circo = world.entities[k].circle;
        if alive {
            if let (Some(p0), Some(v0), Some(c)) = (poso, velo, circo) {
                proof {
                    assert(old(world).entities@[k as int].wf());
                }
                let mut p = p0;
                let mut v = v0;
                let mut j: usize = 0;
                while j < m
                    invariant
                        0 <= j <= m,
                        statics@.len() == m,
                        rects_view(statics@) == rects_spec,
                        forall|t: int|
                            0 <= t < statics@.len()
                                ==> -(WORLD_LIMIT + SHAPE_LIMIT) <= (#[trigger] statics@[t]).0
                                    <= WORLD_LIMIT + SHAPE_LIMIT
                                && -(WORLD_LIMIT + SHAPE_LIMIT) <= statics@[t].1
                                    <= WORLD_LIMIT + SHAPE_LIMIT
                                && 0 <= statics@[t].2 <= SHAPE_LIMIT
                                && 0 <= statics@[t].3 <= SHAPE_LIMIT,
                        in_world(p.0),
                        in_world(v.0),
                        0 < c.radius <= SHAPE_LIMIT,
                        ({
                            let t = rects_fold(p0.0.x as int, p0.0.y as int, v0.0.x as int,
                                v0.0.y as int, c.radius as int, rects_spec.take(j as int));
                            p.0.x as int == t.0 && p.0.y as int == t.1
                                && v.0.x as int == t.2 && v.0.y as int == t.3
                        }),
                    decreases m - j,
                {
                    let st = statics[j];
                    let (np, nv) = resolve_circle_rect(p, v, c.radius, st.0, st.1, st.2, st.3);
                    proof {
                        let pre = rects_spec.take(j as int);
                        let cur = rects_spec.take(j as int + 1);
                        assert(cur.drop_last() =~= pre);
                        assert(cur.last() == rects_spec[j as int]);
                    }
                    p = np;
                    v = nv;
                    j = j + 1;
                }
                proof {
                    assert(rects_spec.take(m as int) =~= rects_spec);
                }
                let changed = p.0.x != p0.0.x || p.0.y != p0.0.y;
                let ent = &mut world.entities[k];
                ent.pos = Some(p);
                ent.vel = Some(v);
                if changed {
                    ent.position_changed = true;
                }
            }
        }
        k = k + 1;
    }
}

/// The drop in vertical velocity that `dt` microseconds of gravity cause.
pub open spec fn gravity_delta(dt: int) -> int {
    (GRAVITY_ACCELERATION * dt) / (TIME_SCALE as int)
}

/// How far a velocity component carries in `dt` microseconds.
pub open spec fn travel(v: int, dt: int) -> int {
    div_trunc(v * dt, TIME_SCALE as int)
}

/// The record `e` after `dt` microseconds of gravity.
pub open spec fn gravity_applied(e: Entity, dt: int) -> Entity {
    if e.alive && e.vel is Some {
        let v = e.vel->0;
        Entity {
            vel: Some(Velocity(Vec2i { x: v.0.x, y: clip(v.0.y - gravity_delta(dt)) as i64 })),
            ..e
        }
    } else {
        e
    }
}

/// Lower every dynamic entity's vertical velocity by gravity for `dt`
/// microseconds.
pub fn add_gravity(world: &mut World, dt: u64)
    requires
        old(world).wf(),
    ensures
        final(world).wf(),
        final(world).entities@.len() == old(world).entities@.len(),
        forall|k: int|
            0 <= k < old(world).entities@.len() ==> final(world).entities@[k]
                == gravity_applied(#[trigger] old(world).entities@[k], dt as int),
{
    let delta128: i128 = (GRAVITY_ACCELERATION as i128 * dt as i128) / (TIME_SCALE as i128);
    proof {
        vstd::arithmetic::div_mod::lemma_div_pos_is_pos(
            GRAVITY_ACCELERATION as int * dt as int, TIME_SCALE as int);
        vstd::arithmetic::div_mod::lemma_div_nonincreasing(
            GRAVITY_ACCELERATION as int * dt as int, TIME_SCALE as int);
        assert(0 <= delta128 <= GRAVITY_ACCELERATION as int * dt as int);
    }
    let mut i: usize = 0;
    let n = world.entities.len();
    while i < n
        invariant
            world.entities@.len() == old(world).entities@.len() == n,
            0 <= i <= n,
            forall|k: int|
                0 <= k < i ==> world.entities@[k]
                    == gravity_applied(#[trigger] old(world).entities@[k], dt as int),
            forall|k: int| i <= k < n ==> world.entities@[k] == old(world).entities@[k],
            old(world).wf(),
            0 <= delta128 <= 0x1_0000_0000_0000_0000_0000,
            delta128 == gravity_delta(dt as int),
        decreases n - i,
    {
        let alive = world.entities[i].alive;
        let velo = world.entities[i].vel;
        if alive {
            if let Some(v) = velo {
                proof {
                    assert(old(world).entities@[i as int].wf());
                }
                let ny = clip_i128(v.0.y as i128 - delta128);
                let ent = &mut world.entities[i];
                ent.vel = Some(Velocity(Vec2i { x: v.0.x, y: ny }));
            }
        }
        i = i + 1;
    }
    proof {
        assert forall|k: int| 0 <= k < final(world).entities@.len()
            implies (#[trigger] final(world).entities@[k]).wf() by {
            assert(old(world).entities@[k].wf());
        }
    }
}

/// The record `e` after its velocity has carried its position for `dt`
/// microseconds. The change is flagged for the presentation layer.
pub open spec fn position_integrated(e: Entity, dt: int) -> Entity {
    if e.alive && e.pos is Some && e.vel is Some {
        let p = e.pos->0;
        let v = e.vel->0;
        Entity {
            pos: Some(Position(Vec2i {
                x: clip(p.0.x + travel(v.0.x as int, dt)) as i64,
                y: clip(p.0.y + travel(v.0.y as int, dt)) as i64,
            })),
            position_changed: true,
            ..e
        }
    } else {
        e
    }
}

/// Move every dynamic entity by its velocity for `dt` microseconds.
pub fn update_position(world: &mut World, dt: u64)
    requires
        old(world).wf(),
    ensures
        final(world).wf(),
        final(world).entities@.len() == old(world).entities@.len(),
        forall|k: int|
            0 <= k < old(world).entities@.len() ==> final(world).entities@[k]
                == position_integrated(#[trigger] old(world).entities@[k], dt as int),
{
    let mut i: usize = 0;
    let n = world.entities.len();
    while i < n
        invariant
            world.entities@.len() == old(world).entities@.len() == n,
            0 <= i <= n,
            forall|k: int|
                0 <= k < i ==> world.entities@[k]
                    == position_integrated(#[trigger] old(world).entities@[k], dt as int),
            forall|k: int| i <= k < n ==> world.entities@[k] == old(world).entities@[k],
            old(world).wf(),
        decreases n - i,
    {
        let alive = world.entities[i].alive;
        let poso = world.entities[i].pos;
        let velo = world.entities[i].vel;
        if alive {
            if let (Some(p), Some(v)) = (poso, velo) {
                proof {
                    assert(old(world).entities@[i as int].wf());
                    assert(-0x8000_0000_0000_0000_0000_0000 <= (v.0.x as i128) * (dt as i128)
                        <= 0x8000_0000_0000_0000_0000_0000
                        && -0x8000_0000_0000_0000_0000_0000 <= (v.0.y as i128) * (dt as i128)
                        <= 0x8000_0000_0000_0000_0000_0000) by (nonlinear_arith)
                        requires
                            -1_000_000_000 <= v.0.x as i128 <= 1_000_000_000,
                            -1_000_000_000 <= v.0.y as i128 <= 1_000_000_000,
                            0 <= dt as i128 <= 0x1_0000_0000_0000_0000,
                    ;
                }
                let tx = div_trunc_i128((v.0.x as i128) * (dt as i128), TIME_SCALE as i128);
                let ty = div_trunc_i128((v.0.y as i128) * (dt as i128), TIME_SCALE as i128);
                let nx = clip_i128(p.0.x as i128 + tx);
                let ny = clip_i128(p.0.y as i128 + ty);
                let ent = &mut world.entities[i];
                ent.pos = Some(Position(Vec2i { x: nx, y: ny }));
                ent.position_changed = true;
            }
        }
        i = i + 1;
    }
    proof {
        assert forall|k: int| 0 <= k < final(world).entities@.len()
            implies (#[trigger] final(world).entities@[k]).wf() by {
            assert(old(world).entities@[k].wf());
        }
    }
}

/// The record reports a position change to the presentation layer: it is
/// live, rendered, positioned, and moved this tick.
pub open spec fn reports_change(e: Entity) -> bool {
    e.alive && e.position_changed && e.view is Some && e.pos is Some
}

/// The id and position of every record that reports a change, in entity
/// order.
pub open spec fn changed_list(s: Seq<Entity>) -> Seq<(usize, Position)>
    decreases s.len(),
{
    if s.len() == 0 {
        Seq::empty()
    } else {
        let rest = changed_list(s.drop_last());
        if reports_change(s.last()) {
            rest.push((((s.len() - 1) as usize), s.last().pos->0))
        } else {
            rest
        }
    }
}

/// Collect the rendered entities whose position changed this tick, so the
/// presentation layer can refresh exactly those, and clear their flags.
pub fn on_changed_position(world: &mut World) -> (r: Vec<(usize, Position)>)
    requires
        old(world).wf(),
    ensures
        final(world).wf(),
        r@ == changed_list(old(world).entities@),
        final(world).entities@.len() == old(world).entities@.len(),
        forall|k: int|
            0 <= k < old(world).entities@.len() ==> final(world).entities@[k] == ({
                let e = #[trigger] old(world).entities@[k];
                if reports_change(e) {
                    Entity { position_changed: false, ..e }
                } else {
                    e
                }
            }),
{
    let ghost s0 = old(world).entities@;
    let n = world.entities.len();
    let mut r: Vec<(usize, Position)> = Vec::new();
    let mut i: usize = 0;
    proof {
        assert(s0.take(0) =~= Seq::<Entity>::empty());
    }
    while i < n
        invariant
            s0 == old(world).entities@,
            n == s0.len(),
            world.entities@.len() == n,
            0 <= i <= n,
            r@ == changed_list(s0.take(i as int)),
            forall|k: int|
                0 <= k < i ==> world.entities@[k] == ({
                    let e = #[trigger] s0[k];
                    if reports_change(e) {
                        Entity { position_changed: false, ..e }
                    } else {
                        e
                    }
                }),
            forall|k: int| i <= k < n ==> world.entities@[k] == s0[k],
            forall|k: int| 0 <= k < n ==> (#[trigger] world.entities@[k]).wf(),
            forall|k: int| 0 <= k < n ==> (#[trigger] s0[k]).wf(),
        decreases n - i,
    {
        proof {
            let pre = s0.take(i as int);
            let cur = s0.take(i as int + 1);
            assert(cur.drop_last() =~= pre);
            assert(cur.last() == s0[i as int]);
        }
        let alive = world.entities[i].alive;
        let changed = world.entities[i].position_changed;
        let has_view = world.entities[i].view.is_some();
        let poso = world.entities[i].pos;
        if alive && changed && has_view {
            if let Some(p) = poso {
                r.push((i, p));
                let ent = &mut world.entities[i];
                ent.position_changed = false;
            }
        }
        i = i + 1;
    }
    proof {
        assert(s0.take(n as int) =~= s0);
    }
    r
}

/// Resolve one dynamic circle against one static circle.
///
/// The result is exactly `circle_resolved`; when the static circle stands
/// clear of the world bound, the two centres end at least the radius sum
/// apart, whether or not they collided.
pub fn resolve_circle_circle(
    p: Position, v: Velocity, radius: i64, sp: Position, srad: i64,
) -> (r: (Position, Velocity))
    requires
        in_world(p.0),
        in_world(v.0),
        in_world(sp.0),
        0 < radius <= SHAPE_LIMIT,
        0 < srad <= SHAPE_LIMIT,
    ensures
        circle_resolution_ok(p, v, radius, sp, srad, r.0, r.1),
        in_world(r.0.0),
        in_world(r.1.0),
        interior(sp.0) ==> dist_sq(r.0.0, sp.0) >= (radius + srad) * (radius + srad),
{
    let s128 = dist_sq_i128(p.0, sp.0);
    let sum: i64 = radius + srad;
    let sum128: i128 = sum as i128;
    proof {
        assert(sum128 * sum128 <= 0x10_0000_0000_0000) by (nonlinear_arith)
            requires 0 < sum128 <= 2_000_000;
    }
    if s128 >= sum128 * sum128 {
        proof {
            assert(dist_sq(p.0, sp.0) >= (radius + srad) * (radius + srad));
        }
        (p, v)
    } else if s128 == 0 {
        let npx = clip_i128(sp.0.x as i128 + sum128);
        let npy = clip_i128(sp.0.y as i128);
        let nvx = if v.0.x < 0 {
            let t = div_trunc_i128(17 * (v.0.x as i128), 10);
            clip_i128(v.0.x as i128 - t)
        } else {
            v.0.x
        };
        let np = Position(Vec2i { x: npx, y: npy });
        let nv = Velocity(Vec2i { x: nvx, y: v.0.y });
        proof {
            if interior(sp.0) {
                assert(np.0.x - sp.0.x == sum && np.0.y - sp.0.y == 0);
            }
        }
        (np, nv)
    } else {
        let d64 = isqrt_u64(s128 as u64);
        proof {
            lemma_sqrt_floor_unique(s128 as int, d64 as int);
        }
        let d: i128 = d64 as i128;
        let dx: i128 = p.0.x as i128 - sp.0.x as i128;
        let dy: i128 = p.0.y as i128 - sp.0.y as i128;
        proof {
            assert(-(2_000_000 as i128) * 0x1_0000_0000 <= dx * sum128 <= 2_000_000 * 0x1_0000_0000
                && -(2_000_000 as i128) * 0x1_0000_0000 <= dy * sum128 <= 2_000_000 * 0x1_0000_0000)
                by (nonlinear_arith)
                requires
                    -4_000_000_000 <= dx <= 4_000_000_000,
                    -4_000_000_000 <= dy <= 4_000_000_000,
                    0 < sum128 <= 2_000_000,
            ;
        }
        let px_push = div_away_i128(dx * sum128, d);
        let py_push = div_away_i128(dy * sum128, d);
        let npx = clip_i128(sp.0.x as i128 + px_push);
        let npy = clip_i128(sp.0.y as i128 + py_push);
        proof {
            assert(-0x4000_0000_0000_0000 <= (v.0.x as i128) * dx <= 0x4000_0000_0000_0000
                && -0x4000_0000_0000_0000 <= (v.0.y as i128) * dy <= 0x4000_0000_0000_0000)
                by (nonlinear_arith)
                requires
                    -4_000_000_000 <= dx <= 4_000_000_000,
                    -4_000_000_000 <= dy <= 4_000_000_000,
                    -1_000_000_000 <= v.0.x as i128 <= 1_000_000_000,
                    -1_000_000_000 <= v.0.y as i128 <= 1_000_000_000,
            ;
        }
        let q: i128 = (v.0.x as i128) * dx + (v.0.y as i128) * dy;
        let (nvx, nvy) = if q < 0 {
            let den: i128 = 10 * s128;
            let q17: i128 = 17 * q;
            proof {
                assert(-0x1000_0000_0000_0000_0000_0000_0000 <= q17 * dx
                    <= 0x1000_0000_0000_0000_0000_0000_0000
                    && -0x1000_0000_0000_0000_0000_0000_0000 <= q17 * dy
                    <= 0x1000_0000_0000_0000_0000_0000_0000)
                    by (nonlinear_arith)
                    requires
                        -0x780_0000_0000_0000_0000 <= q17 <= 0x780_0000_0000_0000_0000,
                        -4_000_000_000 <= dx <= 4_000_000_000,
                        -4_000_000_000 <= dy <= 4_000_000_000,
                ;
            }
            let tx = div_trunc_i128(q17 * dx, den);
            let ty = div_trunc_i128(q17 * dy, den);
            (clip_i128(v.0.x as i128 - tx), clip_i128(v.0.y as i128 - ty))
        } else {
            (v.0.x, v.0.y)
        };
        let np = Position(Vec2i { x: npx, y: npy });
        let nv = Velocity(Vec2i { x: nvx, y: nvy });
        proof {
            let dxi = dx as int;
            let dyi = dy as int;
            let si = s128 as int;
            let di = d as int;
            let sumi = sum as int;
            let ndx = px_push as int;
            let ndy = py_push as int;
            assert(-di <= dxi <= di && -di <= dyi <= di) by (nonlinear_arith)
                requires
                    dxi * dxi + dyi * dyi == si,
                    si < (di + 1) * (di + 1),
                    di >= 0,
            ;
            assert(-(sumi * di) <= dxi * sumi <= sumi * di
                && -(sumi * di) <= dyi * sumi <= sumi * di) by (nonlinear_arith)
                requires
                    -di <= dxi <= di,
                    -di <= dyi <= di,
                    0 < sumi,
                    0 < di,
            ;
            lemma_div_away_bound(dxi * sumi, di, sumi);
            lemma_div_away_bound(dyi * sumi, di, sumi);
            lemma_div_away_magnitude(dxi * sumi, di);
            lemma_div_away_magnitude(dyi * sumi, di);
            assert((dxi >= 0 ==> dxi * sumi >= 0) && (dxi < 0 ==> dxi * sumi < 0)
                && (dyi >= 0 ==> dyi * sumi >= 0) && (dyi < 0 ==> dyi * sumi < 0))
                by (nonlinear_arith)
                requires 0 < sumi;
            lemma_push_separates(dxi, dyi, si, di, sumi, ndx, ndy);
            if interior(sp.0) {
                assert(np.0.x - sp.0.x == ndx && np.0.y - sp.0.y == ndy);
            }
        }
        (np, nv)
    }
}

} // verus!
