//! Narrow-phase contact tests and impulse resolution.
use crate::body::MAX_EXTENT;
use crate::contacts::ContactData;
use crate::fixed::{
    ceil_sqrt, clamp_coord, clamp_limit, clamp_vec, clamp_wide, div_floor, div_trunc, dot, fine, floor_sqrt,
    isqrt, lemma_floor_div_bound, lemma_floor_sqrt_square, lemma_tdiv, lemma_tdiv_exact, lemma_tdiv_le,
    len_sq, scale_to, tdiv, unit, Vec2, LIMIT, PRECISION, SCALE,
};
use vstd::arithmetic::div_mod::{lemma_fundamental_div_mod, lemma_mod_bound};
use vstd::prelude::*;

verus! {

/// The unit vector toward `(1, 1)`, used when two centers coincide.
pub const FALLBACK_NORMAL: i64 = 707;

/// Contact geometry: a unit normal and how deep the shapes overlap.
#[derive(Clone, Copy, PartialEq, Eq, Structural, Debug)]
pub struct Contact {
    pub normal: Vec2,
    pub penetration: i64,
}

impl Contact {
    pub open spec fn wf(self) -> bool {
        self.normal.within(SCALE as int) && 0 <= self.penetration <= 2 * MAX_EXTENT
    }
}

/// `v` held within `[-h, h]`.
pub open spec fn clamp_to(v: int, h: int) -> int {
    if v < -h {
        -h
    } else if v > h {
        h
    } else {
        v
    }
}

/// `SCALE` with the sign of `v`, zero counting as positive.
pub open spec fn signed_unit(v: int) -> int {
    if v >= 0 {
        SCALE as int
    } else {
        -SCALE
    }
}

pub open spec fn abs(v: int) -> int {
    if v >= 0 {
        v
    } else {
        -v
    }
}

/// From the closest point of the box `center ± half` to `c`.
pub open spec fn box_offset(c: Vec2, center: Vec2, half: Vec2) -> Vec2 {
    let dx = c.x - center.x;
    let dy = c.y - center.y;
    Vec2 { x: (dx - clamp_to(dx, half.x as int)) as i64, y: (dy - clamp_to(dy, half.y as int)) as i64 }
}

/// The contact of a circle (center `c`, radius `r`) with the box
/// `center ± half`: there is one iff the closest point of the box lies within
/// `r`; the normal points from that point to the circle's center (for a
/// center inside the box: along the axis of the larger offset, toward it);
/// the penetration is `r` less the distance, rounded down.
pub open spec fn circle_rect_contact(c: Vec2, r: int, center: Vec2, half: Vec2) -> Option<Contact> {
    let diff = box_offset(c, center, half);
    let dx = c.x - center.x;
    let dy = c.y - center.y;
    if len_sq(diff) > r * r {
        None
    } else {
        let normal = if len_sq(diff) != 0 {
            unit(diff)
        } else if abs(dx) > abs(dy) {
            Vec2 { x: signed_unit(dx) as i64, y: 0 }
        } else {
            Vec2 { x: 0, y: signed_unit(dy) as i64 }
        };
        Some(Contact { normal, penetration: (r - floor_sqrt(len_sq(diff))) as i64 })
    }
}

/// The contact of two circles: there is one iff the centers are closer than
/// the sum of the radii; the normal points from the first center to the
/// second (`FALLBACK_NORMAL` on both axes when they coincide); the
/// penetration is the sum of the radii less the distance, rounded down, so
/// it is positive whenever there is a contact.
pub open spec fn circle_circle_contact(p1: Vec2, r1: int, p2: Vec2, r2: int) -> Option<Contact> {
    let diff = Vec2 { x: (p2.x - p1.x) as i64, y: (p2.y - p1.y) as i64 };
    let rsum = r1 + r2;
    if len_sq(diff) >= rsum * rsum {
        None
    } else {
        let normal = if len_sq(diff) != 0 {
            unit(diff)
        } else {
            Vec2 { x: FALLBACK_NORMAL, y: FALLBACK_NORMAL }
        };
        Some(Contact { normal, penetration: (rsum - floor_sqrt(len_sq(diff))) as i64 })
    }
}

proof fn lemma_len_sq_fits(v: Vec2)
    requires
        v.within(2 * LIMIT),
    ensures
        0 <= v.x * v.x <= 4 * LIMIT * LIMIT,
        0 <= v.y * v.y <= 4 * LIMIT * LIMIT,
{
    assert(0 <= v.x * v.x <= 4 * LIMIT * LIMIT && 0 <= v.y * v.y <= 4 * LIMIT * LIMIT)
        by (nonlinear_arith)
        requires
            -2 * LIMIT <= v.x <= 2 * LIMIT,
            -2 * LIMIT <= v.y <= 2 * LIMIT,
    ;
}

/// The squared length of `v` as a `u64`.
fn length_squared(v: Vec2) -> (r: u64)
    requires
        v.within(2 * LIMIT),
    ensures
        r == len_sq(v),
{
    proof {
        lemma_len_sq_fits(v);
    }
    let x = v.x as i128;
    let y = v.y as i128;
    (x * x + y * y) as u64
}

/// Circle against an axis-aligned box; see `circle_rect_contact`.
pub fn circle_vs_rect(circle_pos: Vec2, radius: i64, rect_pos: Vec2, half: Vec2) -> (r: Option<
    Contact,
>)
    requires
        circle_pos.within(LIMIT as int),
        rect_pos.within(LIMIT as int),
        0 < radius <= MAX_EXTENT,
        0 < half.x <= MAX_EXTENT,
        0 < half.y <= MAX_EXTENT,
    ensures
        r == circle_rect_contact(circle_pos, radius as int, rect_pos, half),
        r matches Some(c) ==> c.wf(),
{
    let dx = circle_pos.x - rect_pos.x;
    let dy = circle_pos.y - rect_pos.y;
    let cx = if dx < -half.x {
        -half.x
    } else if dx > half.x {
        half.x
    } else {
        dx
    };
    let cy = if dy < -half.y {
        -half.y
    } else if dy > half.y {
        half.y
    } else {
        dy
    };
    let diff = Vec2 { x: dx - cx, y: dy - cy };
    let n = length_squared(diff);
    assert(radius * radius <= MAX_EXTENT * MAX_EXTENT) by (nonlinear_arith)
        requires
            0 < radius <= MAX_EXTENT,
    ;
    if n as i128 > (radius as i128) * (radius as i128) {
        return None;
    }
    let dist = isqrt(n);
    proof {
        if dist > radius {
            assert(dist * dist > radius * radius) by (nonlinear_arith)
                requires
                    dist > radius > 0,
            ;
        }
    }
    let normal = if n != 0 {
        scale_to(diff, SCALE)
    } else {
        let ax = if dx >= 0 {
            dx
        } else {
            -dx
        };
        let ay = if dy >= 0 {
            dy
        } else {
            -dy
        };
        if ax > ay {
            Vec2 {
                x: if dx >= 0 {
                    SCALE
                } else {
                    -SCALE
                },
                y: 0,
            }
        } else {
            Vec2 {
                x: 0,
                y: if dy >= 0 {
                    SCALE
                } else {
                    -SCALE
                },
            }
        }
    };
    Some(Contact { normal, penetration: radius - dist as i64 })
}

/// Circle against circle; see `circle_circle_contact`.
pub fn circle_vs_circle(p1: Vec2, r1: i64, p2: Vec2, r2: i64) -> (r: Option<Contact>)
    requires
        p1.within(LIMIT as int),
        p2.within(LIMIT as int),
        0 < r1 <= MAX_EXTENT,
        0 < r2 <= MAX_EXTENT,
    ensures
        r == circle_circle_contact(p1, r1 as int, p2, r2 as int),
        r matches Some(c) ==> c.wf() && c.penetration > 0,
{
    let diff = Vec2 { x: p2.x - p1.x, y: p2.y - p1.y };
    let n = length_squared(diff);
    let rsum = r1 + r2;
    assert(rsum * rsum <= 4 * MAX_EXTENT * MAX_EXTENT) by (nonlinear_arith)
        requires
            0 < rsum <= 2 * MAX_EXTENT,
    ;
    if n as i128 >= (rsum as i128) * (rsum as i128) {
        return None;
    }
    let dist = isqrt(n);
    proof {
        if dist >= rsum {
            assert(dist * dist >= rsum * rsum) by (nonlinear_arith)
                requires
                    dist >= rsum > 0,
            ;
        }
    }
    let normal = if n != 0 {
        scale_to(diff, SCALE)
    } else {
        Vec2 { x: FALLBACK_NORMAL, y: FALLBACK_NORMAL }
    };
    Some(Contact { normal, penetration: rsum - dist as i64 })
}

/// The component of `v` along the unit normal `n`.
pub open spec fn normal_speed(v: Vec2, n: Vec2) -> int {
    tdiv(dot(v, n), SCALE as int)
}

/// How fast the first body closes on the second along `n`, which points
/// from the first to the second; positive while they approach.
pub open spec fn closing_speed(v1: Vec2, v2: Vec2, n: Vec2) -> int {
    normal_speed(Vec2 { x: (v1.x - v2.x) as i64, y: (v1.y - v2.y) as i64 }, n)
}

/// `p` moved by `d` along `n`.
pub open spec fn moved_along(p: Vec2, n: Vec2, d: int) -> Vec2 {
    clamp_vec(p.x + tdiv(d * n.x, SCALE as int), p.y + tdiv(d * n.y, SCALE as int))
}

/// `p` moved by `d` against `n`.
pub open spec fn moved_against(p: Vec2, n: Vec2, d: int) -> Vec2 {
    clamp_vec(p.x - tdiv(d * n.x, SCALE as int), p.y - tdiv(d * n.y, SCALE as int))
}

/// `a * c / den` for `den > 0`, rounded down when `c >= 0` and up when
/// `c < 0`, so that its product with `c` never exceeds `a * c * c / den`.
pub open spec fn toward(a: int, c: int, den: int) -> int {
    if c >= 0 {
        (a * c) / den
    } else {
        -((-(a * c)) / den)
    }
}

/// The reflection `v - (1 + e) (v . n) n / |n|²` off a wall with normal
/// `n`, before it is held in range. Projecting on the normal's own length,
/// and rounding each component as `toward` does, keeps a rounded normal
/// from leaving the velocity pointing into the wall.
pub open spec fn wall_reflected(v: Vec2, n: Vec2, e: int) -> (int, int) {
    let a = (SCALE + e) * dot(v, n);
    let den = SCALE * len_sq(n);
    (v.x - toward(a, n.x as int, den), v.y - toward(a, n.y as int, den))
}

/// A velocity after hitting an immovable wall with normal `n`: reflected
/// (see `wall_reflected`) when moving into it, unchanged otherwise.
pub open spec fn wall_bounce(v: Vec2, n: Vec2, e: int) -> Vec2 {
    if dot(v, n) < 0 {
        clamp_vec(wall_reflected(v, n, e).0, wall_reflected(v, n, e).1)
    } else {
        v
    }
}

/// The product of `toward(a, c, den)` with `c`, scaled by `den`, is at most
/// `a * c * c`.
proof fn lemma_toward(a: int, c: int, den: int)
    requires
        den > 0,
    ensures
        toward(a, c, den) * c * den <= a * c * c,
{
    if c >= 0 {
        let t = a * c;
        lemma_fundamental_div_mod(t, den);
        lemma_mod_bound(t, den);
        let p = t / den;
        assert(p * c * den <= a * c * c) by (nonlinear_arith)
            requires
                t == den * p + t % den,
                t % den >= 0,
                t == a * c,
                c >= 0,
        ;
    } else {
        let t = -(a * c);
        lemma_fundamental_div_mod(t, den);
        lemma_mod_bound(t, den);
        let f = t / den;
        assert((-f) * c * den <= a * c * c) by (nonlinear_arith)
            requires
                t == den * f + t % den,
                t % den >= 0,
                t == -(a * c),
                c < 0,
        ;
    }
}

/// Whenever a body moving into a wall has its reflected velocity in range,
/// it no longer moves into the wall, whatever the restitution in `[0, 1]`
/// and however the normal was rounded.
pub proof fn lemma_bounce_leaves_wall(v: Vec2, n: Vec2, e: int)
    requires
        dot(v, n) < 0,
        0 <= e <= SCALE,
    ensures
        wall_reflected(v, n, e).0 * n.x + wall_reflected(v, n, e).1 * n.y >= 0,
{
    let d = dot(v, n);
    let q = len_sq(n);
    if q == 0 {
        assert(n.x == 0 && n.y == 0) by (nonlinear_arith)
            requires
                n.x * n.x + n.y * n.y == 0,
        ;
        assert(d == 0);
    }
    assert(q >= 0 && (q > 0 || q == 0)) by (nonlinear_arith)
        requires
            q == n.x * n.x + n.y * n.y,
    ;
    let den = SCALE * q;
    let a = (SCALE + e) * d;
    lemma_toward(a, n.x as int, den);
    lemma_toward(a, n.y as int, den);
    let px = toward(a, n.x as int, den);
    let py = toward(a, n.y as int, den);
    assert((px * n.x + py * n.y) * SCALE <= a) by (nonlinear_arith)
        requires
            px * n.x * den <= a * n.x * n.x,
            py * n.y * den <= a * n.y * n.y,
            den == SCALE * q,
            q == n.x * n.x + n.y * n.y,
            q > 0,
    ;
    let r = wall_reflected(v, n, e);
    assert(r.0 * n.x + r.1 * n.y == d - (px * n.x + py * n.y)) by (nonlinear_arith)
        requires
            r.0 == v.x - px,
            r.1 == v.y - py,
            d == v.x * n.x + v.y * n.y,
    ;
    assert(r.0 * n.x + r.1 * n.y >= 0) by (nonlinear_arith)
        requires
            r.0 * n.x + r.1 * n.y == d - (px * n.x + py * n.y),
            (px * n.x + py * n.y) * SCALE <= a,
            a == (SCALE + e) * d,
            d < 0,
            0 <= e <= SCALE,
    ;
}

/// The velocity change that one body of a pair receives along the normal:
/// `(1 + e) * closing * m_other / (m1 + m2)`.
pub open spec fn velocity_change(closing: int, m_other: int, m1: int, m2: int, e: int) -> int {
    tdiv((SCALE + e) * closing * m_other, SCALE * (m1 + m2))
}

/// The velocities of two circles after their impulse: only while they
/// approach, each changes along the normal in proportion to the other's mass.
pub open spec fn circles_bounce(v1: Vec2, m1: int, v2: Vec2, m2: int, n: Vec2, e: int) -> (Vec2, Vec2) {
    let c = closing_speed(v1, v2, n);
    if c > 0 {
        (
            moved_against(v1, n, velocity_change(c, m2, m1, m2, e)),
            moved_along(v2, n, velocity_change(c, m1, m1, m2, e)),
        )
    } else {
        (v1, v2)
    }
}

/// The positions of two overlapping circles after separation: the first
/// moves `pen * m2 / (m1 + m2)` against the normal, the second
/// `pen * m1 / (m1 + m2)` along it.
pub open spec fn circles_separated(p1: Vec2, m1: int, p2: Vec2, m2: int, n: Vec2, pen: int) -> (Vec2, Vec2) {
    if pen > 0 {
        (moved_against(p1, n, tdiv(pen * m2, m1 + m2)), moved_along(p2, n, tdiv(pen * m1, m1 + m2)))
    } else {
        (p1, p2)
    }
}

/// What a wall contact records: the impulse `(1 + e) * -(v . n) * m` when
/// moving into the wall (else zero), the mover's speed into the wall, and
/// zero for the wall.
pub open spec fn wall_contact_data(v: Vec2, m: int, n: Vec2, e: int) -> ContactData {
    let vn = normal_speed(v, n);
    ContactData {
        impulse: if vn < 0 {
            tdiv((SCALE + e) * (-vn) * m, SCALE * SCALE) as i128
        } else {
            0
        },
        v_a_n: (-vn) as i64,
        v_b_n: 0,
    }
}

/// What a circle pair records: the impulse magnitude
/// `(1 + e) * closing / (1/m1 + 1/m2)` while approaching (else zero), and each
/// body's speed along the normal before it.
pub open spec fn circles_contact_data(v1: Vec2, v2: Vec2, m1: int, m2: int, n: Vec2, e: int) -> ContactData {
    let c = closing_speed(v1, v2, n);
    ContactData {
        impulse: if c > 0 {
            tdiv((SCALE + e) * c * m1 * m2, SCALE * SCALE * (m1 + m2)) as i128
        } else {
            0
        },
        v_a_n: normal_speed(v1, n) as i64,
        v_b_n: normal_speed(v2, n) as i64,
    }
}

/// The component of `v` along `n`; see `normal_speed`.
fn speed_along(v: Vec2, n: Vec2) -> (r: i64)
    requires
        v.within(2 * LIMIT),
        n.within(SCALE as int),
    ensures
        r == normal_speed(v, n),
        -4 * LIMIT <= r <= 4 * LIMIT,
{
    assert(-2 * LIMIT * SCALE <= v.x * n.x <= 2 * LIMIT * SCALE && -2 * LIMIT * SCALE <= v.y * n.y
        <= 2 * LIMIT * SCALE) by (nonlinear_arith)
        requires
            v.within(2 * LIMIT),
            n.within(SCALE as int),
    ;
    proof {
        lemma_tdiv_le(dot(v, n), SCALE as int, 4 * LIMIT);
    }
    let d = (v.x as i128) * (n.x as i128) + (v.y as i128) * (n.y as i128);
    div_trunc(d, SCALE as i128) as i64
}

/// `d * c / SCALE` for a normal component `c`.
fn along(d: i64, c: i64) -> (r: i64)
    requires
        -8 * LIMIT <= d <= 8 * LIMIT,
        -SCALE <= c <= SCALE,
    ensures
        r == tdiv(d * c, SCALE as int),
        -8 * LIMIT <= r <= 8 * LIMIT,
{
    assert(-8 * LIMIT * SCALE <= d * c <= 8 * LIMIT * SCALE) by (nonlinear_arith)
        requires
            -8 * LIMIT <= d <= 8 * LIMIT,
            -SCALE <= c <= SCALE,
    ;
    proof {
        lemma_tdiv_le(d * c, SCALE as int, 8 * LIMIT);
    }
    div_trunc((d as i128) * (c as i128), SCALE as i128) as i64
}

/// The reflection of one velocity component; see `wall_reflected`.
fn reflect_component(vc: i64, a: i128, c: i64, den: i128) -> (r: i64)
    requires
        -LIMIT <= vc <= LIMIT,
        -0x1_0000_0000_0000_0000 <= a <= 0x1_0000_0000_0000_0000,
        -SCALE <= c <= SCALE,
        0 < den <= 0x1_0000_0000_0000,
    ensures
        r == clamp_limit(vc - toward(a as int, c as int, den as int)),
{
    assert(-0x1_0000_0000_0000_0000 * 1000 <= a * c <= 0x1_0000_0000_0000_0000 * 1000) by (nonlinear_arith)
        requires
            -0x1_0000_0000_0000_0000 <= a <= 0x1_0000_0000_0000_0000,
            -1000 <= c <= 1000,
    ;
    let ac = a * (c as i128);
    proof {
        lemma_floor_div_bound(ac as int, den as int);
        lemma_floor_div_bound(-ac, den as int);
    }
    let p = if c >= 0 {
        div_floor(ac, den)
    } else {
        -div_floor(-ac, den)
    };
    clamp_wide(vc as i128 - p)
}

/// Reflects a circle's velocity off a wall and pushes it out of the wall.
pub fn resolve_circle_wall(pos: &mut Vec2, vel: &mut Vec2, contact: Contact, restitution: i64)
    requires
        old(pos).within(LIMIT as int),
        old(vel).within(LIMIT as int),
        contact.wf(),
        0 <= restitution <= SCALE,
    ensures
        *final(vel) == wall_bounce(*old(vel), contact.normal, restitution as int),
        *final(pos) == moved_along(*old(pos), contact.normal, contact.penetration as int),
        final(vel).within(LIMIT as int),
        final(pos).within(LIMIT as int),
        dot(*old(vel), contact.normal) < 0 && -LIMIT <= wall_reflected(
            *old(vel),
            contact.normal,
            restitution as int,
        ).0 <= LIMIT && -LIMIT <= wall_reflected(*old(vel), contact.normal, restitution as int).1
            <= LIMIT ==> dot(*final(vel), contact.normal) >= 0,
{
    let n = contact.normal;
    let ghost v0 = *vel;
    let vx = vel.x as i128;
    let vy = vel.y as i128;
    let nx = n.x as i128;
    let ny = n.y as i128;
    assert(-0x1_0000_0000_0000 <= vx * nx <= 0x1_0000_0000_0000 && -0x1_0000_0000_0000 <= vy * ny
        <= 0x1_0000_0000_0000 && -0x1_0000_0000_0000 <= vx * nx + vy * ny <= 0x1_0000_0000_0000)
        by (nonlinear_arith)
        requires
            -0x4000_0000 <= vx <= 0x4000_0000,
            -0x4000_0000 <= vy <= 0x4000_0000,
            -1000 <= nx <= 1000,
            -1000 <= ny <= 1000,
    ;
    let d = vx * nx + vy * ny;
    if d < 0 {
        assert(0 <= nx * nx + ny * ny <= 2000000) by (nonlinear_arith)
            requires
                -1000 <= nx <= 1000,
                -1000 <= ny <= 1000,
        ;
        assert(0 <= nx * nx <= 1000000 && 0 <= ny * ny <= 1000000) by (nonlinear_arith)
            requires
                -1000 <= nx <= 1000,
                -1000 <= ny <= 1000,
        ;
        let q = nx * nx + ny * ny;
        if q == 0 {
            assert(vx * nx == 0 && vy * ny == 0) by (nonlinear_arith)
                requires
                    nx * nx + ny * ny == 0,
            ;
        }
        let es = (SCALE + restitution) as i128;
        assert(-0x1_0000_0000_0000 * 2000 <= es * d <= 0) by (nonlinear_arith)
            requires
                -0x1_0000_0000_0000 <= d < 0,
                0 <= es <= 2000,
        ;
        let a = es * d;
        assert(0 < q <= 2000000);
        let den = 1000 * q;
        let rx = reflect_component(vel.x, a, n.x, den);
        let ry = reflect_component(vel.y, a, n.y, den);
        *vel = Vec2 { x: rx, y: ry };
        proof {
            lemma_bounce_leaves_wall(v0, n, restitution as int);
        }
    }
    let px = along(contact.penetration, n.x);
    let py = along(contact.penetration, n.y);
    *pos = Vec2 { x: clamp_coord(pos.x + px), y: clamp_coord(pos.y + py) };
}

/// `(1 + e) * closing * m_other / (m1 + m2)`; see `velocity_change`.
fn change_for(closing: i64, m_other: i64, m1: i64, m2: i64, e: i64) -> (r: i64)
    requires
        0 < closing <= 4 * LIMIT,
        0 < m1 <= LIMIT,
        0 < m2 <= LIMIT,
        m_other == m1 || m_other == m2,
        0 <= e <= SCALE,
    ensures
        r == velocity_change(closing as int, m_other as int, m1 as int, m2 as int, e as int),
        0 <= r <= 8 * LIMIT,
{
    assert(0 < (SCALE + e) * closing <= 8 * LIMIT * SCALE) by (nonlinear_arith)
        requires
            0 < closing <= 4 * LIMIT,
            0 <= e <= SCALE,
    ;
    let t = (SCALE + e) as i128 * closing as i128;
    let b = SCALE as i128 * (m1 as i128 + m2 as i128);
    assert(0 < t * m_other <= (8 * LIMIT) * b) by (nonlinear_arith)
        requires
            0 < t <= 8 * LIMIT * SCALE,
            b == SCALE * (m1 + m2),
            0 < m_other <= m1 + m2,
    ;
    assert(t * m_other <= 8 * LIMIT * SCALE * LIMIT * 2) by (nonlinear_arith)
        requires
            0 < t <= 8 * LIMIT * SCALE,
            0 < m_other <= LIMIT * 2,
    ;
    assert(-(8 * LIMIT) * b <= 0) by (nonlinear_arith)
        requires
            b > 0,
    ;
    proof {
        lemma_tdiv_le(t * m_other, b as int, 8 * LIMIT);
        lemma_tdiv(t * m_other, b as int);
        assert((SCALE + e) * closing * m_other == t * m_other);
    }
    div_trunc(t * m_other as i128, b) as i64
}

/// Applies the impulse between two overlapping circles (only while they
/// approach) and separates them in inverse proportion to their masses.
#[allow(clippy::too_many_arguments)]
pub fn resolve_circle_circle(
    pos1: &mut Vec2,
    vel1: &mut Vec2,
    m1: i64,
    pos2: &mut Vec2,
    vel2: &mut Vec2,
    m2: i64,
    contact: Contact,
    restitution: i64,
)
    requires
        old(pos1).within(LIMIT as int),
        old(vel1).within(LIMIT as int),
        old(pos2).within(LIMIT as int),
        old(vel2).within(LIMIT as int),
        0 < m1 <= LIMIT,
        0 < m2 <= LIMIT,
        contact.wf(),
        0 <= restitution <= SCALE,
    ensures
        (*final(vel1), *final(vel2)) == circles_bounce(
            *old(vel1),
            m1 as int,
            *old(vel2),
            m2 as int,
            contact.normal,
            restitution as int,
        ),
        (*final(pos1), *final(pos2)) == circles_separated(
            *old(pos1),
            m1 as int,
            *old(pos2),
            m2 as int,
            contact.normal,
            contact.penetration as int,
        ),
        final(vel1).within(LIMIT as int),
        final(vel2).within(LIMIT as int),
        final(pos1).within(LIMIT as int),
        final(pos2).within(LIMIT as int),
{
    let n = contact.normal;
    let rel = Vec2 { x: vel1.x - vel2.x, y: vel1.y - vel2.y };
    let closing = speed_along(rel, n);
    if closing > 0 {
        let d1 = change_for(closing, m2, m1, m2, restitution);
        let d2 = change_for(closing, m1, m1, m2, restitution);
        let ax = along(d1, n.x);
        let ay = along(d1, n.y);
        let bx = along(d2, n.x);
        let by = along(d2, n.y);
        *vel1 = Vec2 { x: clamp_coord(vel1.x - ax), y: clamp_coord(vel1.y - ay) };
        *vel2 = Vec2 { x: clamp_coord(vel2.x + bx), y: clamp_coord(vel2.y + by) };
    }
    let pen = contact.penetration;
    if pen > 0 {
        let total = m1 as i128 + m2 as i128;
        assert(0 <= pen * m2 <= 2 * MAX_EXTENT * (m1 + m2) && 0 <= pen * m1 <= 2 * MAX_EXTENT * (m1
            + m2)) by (nonlinear_arith)
            requires
                0 < pen <= 2 * MAX_EXTENT,
                0 < m1,
                0 < m2,
        ;
        assert(pen * m2 <= 2 * MAX_EXTENT * LIMIT && pen * m1 <= 2 * MAX_EXTENT * LIMIT)
            by (nonlinear_arith)
            requires
                0 < pen <= 2 * MAX_EXTENT,
                0 < m1 <= LIMIT,
                0 < m2 <= LIMIT,
        ;
        proof {
            lemma_tdiv_le(pen * m2, m1 + m2, 2 * MAX_EXTENT);
            lemma_tdiv_le(pen * m1, m1 + m2, 2 * MAX_EXTENT);
        }
        let c1 = div_trunc(pen as i128 * m2 as i128, total) as i64;
        let c2 = div_trunc(pen as i128 * m1 as i128, total) as i64;
        let ax = along(c1, n.x);
        let ay = along(c1, n.y);
        let bx = along(c2, n.x);
        let by = along(c2, n.y);
        *pos1 = Vec2 { x: clamp_coord(pos1.x - ax), y: clamp_coord(pos1.y - ay) };
        *pos2 = Vec2 { x: clamp_coord(pos2.x + bx), y: clamp_coord(pos2.y + by) };
    }
}

/// What a wall contact records; see `wall_contact_data`.
pub fn circle_wall_contact_data(vel: Vec2, m: i64, contact: &Contact, restitution: i64) -> (r:
    ContactData)
    requires
        vel.within(LIMIT as int),
        0 < m <= LIMIT,
        contact.wf(),
        0 <= restitution <= SCALE,
    ensures
        r == wall_contact_data(vel, m as int, contact.normal, restitution as int),
{
    let vn = speed_along(vel, contact.normal);
    let impulse: i128 = if vn < 0 {
        assert(0 < (SCALE + restitution) * (-vn) <= 8 * LIMIT * SCALE) by (nonlinear_arith)
            requires
                -4 * LIMIT <= vn < 0,
                0 <= restitution <= SCALE,
        ;
        let t = (SCALE + restitution) as i128 * (-vn) as i128;
        assert(0 < t * m <= 8 * LIMIT * SCALE * LIMIT) by (nonlinear_arith)
            requires
                0 < t <= 8 * LIMIT * SCALE,
                0 < m <= LIMIT,
        ;
        assert((SCALE + restitution) * (-vn) * m == t * m);
        div_trunc(t * m as i128, (SCALE * SCALE) as i128)
    } else {
        0
    };
    ContactData { impulse, v_a_n: -vn, v_b_n: 0 }
}

/// What a circle pair records; see `circles_contact_data`.
pub fn circle_circle_contact_data(v1: Vec2, v2: Vec2, m1: i64, m2: i64, contact: &Contact, restitution: i64) -> (r:
    ContactData)
    requires
        v1.within(LIMIT as int),
        v2.within(LIMIT as int),
        0 < m1 <= LIMIT,
        0 < m2 <= LIMIT,
        contact.wf(),
        0 <= restitution <= SCALE,
    ensures
        r == circles_contact_data(v1, v2, m1 as int, m2 as int, contact.normal, restitution as int),
{
    let rel = Vec2 { x: v1.x - v2.x, y: v1.y - v2.y };
    let closing = speed_along(rel, contact.normal);
    let impulse: i128 = if closing > 0 {
        assert(0 < (SCALE + restitution) * closing <= 8 * LIMIT * SCALE) by (nonlinear_arith)
            requires
                0 < closing <= 4 * LIMIT,
                0 <= restitution <= SCALE,
        ;
        let t = (SCALE + restitution) as i128 * closing as i128;
        assert(0 < m1 * m2 <= LIMIT * LIMIT) by (nonlinear_arith)
            requires
                0 < m1 <= LIMIT,
                0 < m2 <= LIMIT,
        ;
        let mm = m1 as i128 * m2 as i128;
        assert(0 < t * mm <= 8 * LIMIT * SCALE * (LIMIT * LIMIT)) by (nonlinear_arith)
            requires
                0 < t <= 8 * LIMIT * SCALE,
                0 < mm <= LIMIT * LIMIT,
        ;
        assert((SCALE + restitution) * closing * m1 * m2 == t * mm) by (nonlinear_arith)
            requires
                t == (SCALE + restitution) * closing,
                mm == m1 * m2,
        ;
        let b = (SCALE * SCALE) as i128 * (m1 as i128 + m2 as i128);
        div_trunc(t * mm, b)
    } else {
        0
    };
    let a = speed_along(v1, contact.normal);
    let b = speed_along(v2, contact.normal);
    ContactData { impulse, v_a_n: a, v_b_n: b }
}

/// The unit vectors along the axes, and the exact root of a square.
proof fn lemma_axis_unit(r: int)
    requires
        0 < r <= MAX_EXTENT,
    ensures
        floor_sqrt(r * r) == r,
        unit(Vec2 { x: r as i64, y: 0 }) == (Vec2 { x: SCALE, y: 0 }),
        unit(Vec2 { x: (-r) as i64, y: 0 }) == (Vec2 { x: (-SCALE) as i64, y: 0 }),
        unit(Vec2 { x: 0, y: r as i64 }) == (Vec2 { x: 0, y: SCALE }),
        unit(Vec2 { x: 0, y: (-r) as i64 }) == (Vec2 { x: 0, y: (-SCALE) as i64 }),
{
    lemma_floor_sqrt_square(r);
    let f = PRECISION as int;
    let k = r * f;
    assert(0 < k <= 1073741824 * 65536) by (nonlinear_arith)
        requires
            k == r * f,
            0 < r <= 1073741824,
            f == 65536,
    ;
    lemma_floor_sqrt_square(k);
    assert(k * k == (-k) * (-k)) by (nonlinear_arith);
    assert(ceil_sqrt(k * k) == k);
    assert(k * SCALE == SCALE * k && (-k) * SCALE == (-SCALE) * k && 0 * SCALE == 0) by (nonlinear_arith);
    lemma_tdiv_exact(SCALE as int, k);
    lemma_tdiv_exact(-SCALE, k);
    lemma_tdiv_exact(0, k);
    assert(0 * PRECISION == 0);
    assert((-r) * f == -k) by (nonlinear_arith)
        requires
            k == r * f,
    ;
    let px = Vec2 { x: r as i64, y: 0 };
    let nx = Vec2 { x: (-r) as i64, y: 0 };
    let py = Vec2 { x: 0, y: r as i64 };
    let ny = Vec2 { x: 0, y: (-r) as i64 };
    assert(fine(px) == Vec2 { x: k as i64, y: 0 });
    assert(fine(nx) == Vec2 { x: (-k) as i64, y: 0 });
    assert(fine(py) == Vec2 { x: 0, y: k as i64 });
    assert(fine(ny) == Vec2 { x: 0, y: (-k) as i64 });
    assert(len_sq(px) == r * r && len_sq(nx) == r * r && len_sq(py) == r * r && len_sq(ny) == r * r) by (nonlinear_arith)
        requires
            px.x == r,
            px.y == 0,
            nx.x == -r,
            nx.y == 0,
            py.x == 0,
            py.y == r,
            ny.x == 0,
            ny.y == -r,
    ;
    assert(r * r > 0) by (nonlinear_arith)
        requires
            r > 0,
    ;
    assert(len_sq(fine(px)) == k * k && len_sq(fine(nx)) == k * k && len_sq(fine(py)) == k * k
        && len_sq(fine(ny)) == k * k);
}

/// A circle whose center lies exactly its radius outside a face of a box
/// (within the face's extent) touches the box with zero penetration, the
/// normal pointing straight out of that face.
pub proof fn lemma_touching_face(center: Vec2, half: Vec2, r: int, t: int)
    requires
        center.within(LIMIT as int),
        0 < half.x <= MAX_EXTENT,
        0 < half.y <= MAX_EXTENT,
        0 < r <= MAX_EXTENT,
        -half.x <= t <= half.x,
        -half.y <= t <= half.y,
    ensures
        circle_rect_contact(
            Vec2 { x: (center.x + half.x + r) as i64, y: (center.y + t) as i64 },
            r,
            center,
            half,
        ) == Some(Contact { normal: Vec2 { x: SCALE, y: 0 }, penetration: 0 }),
        circle_rect_contact(
            Vec2 { x: (center.x - half.x - r) as i64, y: (center.y + t) as i64 },
            r,
            center,
            half,
        ) == Some(Contact { normal: Vec2 { x: (-SCALE) as i64, y: 0 }, penetration: 0 }),
        circle_rect_contact(
            Vec2 { x: (center.x + t) as i64, y: (center.y + half.y + r) as i64 },
            r,
            center,
            half,
        ) == Some(Contact { normal: Vec2 { x: 0, y: SCALE }, penetration: 0 }),
        circle_rect_contact(
            Vec2 { x: (center.x + t) as i64, y: (center.y - half.y - r) as i64 },
            r,
            center,
            half,
        ) == Some(Contact { normal: Vec2 { x: 0, y: (-SCALE) as i64 }, penetration: 0 }),
{
    lemma_axis_unit(r);
    let right = Vec2 { x: (center.x + half.x + r) as i64, y: (center.y + t) as i64 };
    assert(right.x == center.x + half.x + r && right.y == center.y + t);
    assert(box_offset(right, center, half) == Vec2 { x: r as i64, y: 0 });
    let ri = r as i64;
    let nr = (-r) as i64;
    assert(ri == r && nr == -r);
    assert(ri * ri == r * r && nr * nr == r * r && 0 * 0 == 0) by (nonlinear_arith)
        requires
            ri == r,
            nr == -r,
    ;
    assert(len_sq(Vec2 { x: r as i64, y: 0 }) == r * r);
    let left = Vec2 { x: (center.x - half.x - r) as i64, y: (center.y + t) as i64 };
    assert(left.x == center.x - half.x - r && left.y == center.y + t);
    assert(box_offset(left, center, half) == Vec2 { x: -r as i64, y: 0 });
    assert(len_sq(Vec2 { x: -r as i64, y: 0 }) == r * r);
    let top = Vec2 { x: (center.x + t) as i64, y: (center.y + half.y + r) as i64 };
    assert(top.x == center.x + t && top.y == center.y + half.y + r);
    assert(box_offset(top, center, half) == Vec2 { x: 0, y: r as i64 });
    assert(len_sq(Vec2 { x: 0, y: r as i64 }) == r * r);
    let bottom = Vec2 { x: (center.x + t) as i64, y: (center.y - half.y - r) as i64 };
    assert(bottom.x == center.x + t && bottom.y == center.y - half.y - r);
    assert(box_offset(bottom, center, half) == Vec2 { x: 0, y: -r as i64 });
    assert(len_sq(Vec2 { x: 0, y: -r as i64 }) == r * r);
}

/// Two equal masses meeting head-on with equal and opposite velocities along
/// an exactly unit normal: elastic resolution (`e = 1`) reverses both
/// velocities exactly, inelastic resolution (`e = 0`) leaves no relative
/// velocity along the normal.
pub proof fn lemma_equal_masses_head_on(k: int, n: Vec2, m: int, v1: Vec2, v2: Vec2)
    requires
        n.within(SCALE as int),
        n.x * n.x + n.y * n.y == SCALE * SCALE,
        0 < m <= LIMIT,
        k >= 0,
        v1.x == k * n.x,
        v1.y == k * n.y,
        v2.x == -k * n.x,
        v2.y == -k * n.y,
        v1.within(LIMIT as int),
    ensures
        circles_bounce(v1, m, v2, m, n, SCALE as int) == (
            Vec2 { x: -v1.x as i64, y: -v1.y as i64 },
            Vec2 { x: -v2.x as i64, y: -v2.y as i64 },
        ),
        closing_speed(circles_bounce(v1, m, v2, m, n, 0).0, circles_bounce(v1, m, v2, m, n, 0).1, n)
            == 0,
{
    assert(-k * n.x == -(k * n.x) && -k * n.y == -(k * n.y)) by (nonlinear_arith);
    assert(v2.x == -v1.x && v2.y == -v1.y);
    let rel = Vec2 { x: (v1.x - v2.x) as i64, y: (v1.y - v2.y) as i64 };
    assert(2 * k * n.x == 2 * (k * n.x) && 2 * k * n.y == 2 * (k * n.y)) by (nonlinear_arith);
    assert(rel.x == 2 * k * n.x && rel.y == 2 * k * n.y);
    assert(dot(rel, n) == (2 * k * SCALE) * SCALE) by (nonlinear_arith)
        requires
            rel.x == 2 * k * n.x,
            rel.y == 2 * k * n.y,
            n.x * n.x + n.y * n.y == SCALE * SCALE,
    ;
    lemma_tdiv_exact(2 * k * SCALE, SCALE as int);
    let c = closing_speed(v1, v2, n);
    assert(c == 2 * k * SCALE);
    if k > 0 {
        assert((SCALE + SCALE) * c * m == (2 * k * SCALE) * (SCALE * (m + m))) by (nonlinear_arith)
            requires
                c == 2 * k * SCALE,
        ;
        assert((SCALE + 0) * c * m == (k * SCALE) * (SCALE * (m + m))) by (nonlinear_arith)
            requires
                c == 2 * k * SCALE,
        ;
        assert(SCALE * (m + m) > 0);
        lemma_tdiv_exact(2 * k * SCALE, SCALE * (m + m));
        lemma_tdiv_exact(k * SCALE, SCALE * (m + m));
        assert(velocity_change(c, m, m, m, SCALE as int) == 2 * k * SCALE);
        assert(velocity_change(c, m, m, m, 0) == k * SCALE);
        assert((2 * k * SCALE) * n.x == (2 * k * n.x) * SCALE && (2 * k * SCALE) * n.y == (2 * k
            * n.y) * SCALE) by (nonlinear_arith);
        assert((k * SCALE) * n.x == (k * n.x) * SCALE && (k * SCALE) * n.y == (k * n.y) * SCALE)
            by (nonlinear_arith);
        lemma_tdiv_exact(2 * k * n.x, SCALE as int);
        lemma_tdiv_exact(2 * k * n.y, SCALE as int);
        lemma_tdiv_exact(k * n.x, SCALE as int);
        lemma_tdiv_exact(k * n.y, SCALE as int);
        let w = circles_bounce(v1, m, v2, m, n, 0);
        assert(w.0 == Vec2 { x: 0, y: 0 });
        assert(w.1 == Vec2 { x: 0, y: 0 });
        assert(0 * n.x == 0 && 0 * n.y == 0) by (nonlinear_arith);
        assert(dot(Vec2 { x: 0, y: 0 }, n) == 0);
        lemma_tdiv_exact(0, SCALE as int);
    } else {
        assert(v1.x == 0 && v1.y == 0 && v2.x == 0 && v2.y == 0);
        lemma_tdiv_exact(0, SCALE as int);
    }
}

} // verus!
