//! Steering behaviors: each enabled behavior adds a direction, and their sum
//! becomes the body's input for the tick.
use crate::body::{AccumulatedInput, Body};
use crate::fixed::{
    ceil_sqrt, div_trunc, isqrt_ceil, lemma_ceil_sqrt, lemma_tdiv_le, len_sq, scale_to, tdiv, unit, Vec2,
    LIMIT, SCALE,
};
use vstd::prelude::*;

verus! {

/// Largest wander variation: 1000 radians per second, in thousandths.
pub const MAX_VARIATION: i64 = 1000000;

/// How far from the desired range a body may drift before correcting: 5 units.
pub const RANGE_TOLERANCE: i64 = 5000;

/// The weight of the wander heading: 0.5.
pub const WANDER_WEIGHT: i64 = 500;

/// The weight of avoidance relative to the other behaviors.
pub const AVOID_WEIGHT: i64 = 2;

/// The most neighbors one body avoids in a tick.
pub const MAX_NEIGHBORS: usize = 65536;

/// Move toward the target while it is closer than `distance`.
#[derive(Clone, Copy, PartialEq, Eq, Structural, Debug)]
pub struct Seek {
    pub distance: i64,
}

/// Move away from the target while it is closer than `distance`.
#[derive(Clone, Copy, PartialEq, Eq, Structural, Debug)]
pub struct Flee {
    pub distance: i64,
}

/// Drift along a heading that turns by a random angle each tick.
#[derive(Clone, Copy, PartialEq, Eq, Structural, Debug)]
pub struct Wander {
    /// Unit heading.
    pub direction: Vec2,
    /// Largest turn rate, in thousandths of a radian per second.
    pub base_variation: i64,
}

impl Wander {
    pub open spec fn wf(self) -> bool {
        self.direction.within(SCALE as int) && 0 <= self.base_variation <= MAX_VARIATION
    }
}

impl Seek {
    pub open spec fn wf(self) -> bool {
        0 <= self.distance <= LIMIT
    }
}

impl Flee {
    pub open spec fn wf(self) -> bool {
        0 <= self.distance <= LIMIT
    }
}

impl MaintainRange {
    pub open spec fn wf(self) -> bool {
        0 <= self.distance <= LIMIT
    }
}

impl AvoidAllies {
    pub open spec fn wf(self) -> bool {
        0 < self.radius <= LIMIT
    }
}

/// Keep about `distance` from the target.
#[derive(Clone, Copy, PartialEq, Eq, Structural, Debug)]
pub struct MaintainRange {
    pub distance: i64,
}

/// Push away from allies whose clearance is under `radius`.
#[derive(Clone, Copy, PartialEq, Eq, Structural, Debug)]
pub struct AvoidAllies {
    pub radius: i64,
}

/// A marker for bodies that avoiding bodies keep clear of.
#[derive(Clone, Copy, PartialEq, Eq, Structural, Debug)]
pub struct Ally;

/// Another body to keep clear of: where it is and how large.
#[derive(Clone, Copy, PartialEq, Eq, Structural, Debug)]
pub struct Neighbor {
    pub position: Vec2,
    pub radius: i64,
}

impl Neighbor {
    pub open spec fn wf(self) -> bool {
        self.position.within(LIMIT as int) && 0 <= self.radius <= LIMIT
    }
}

pub open spec fn zero() -> Vec2 {
    Vec2 { x: 0, y: 0 }
}

/// `a - b`.
pub open spec fn diff(a: Vec2, b: Vec2) -> Vec2 {
    Vec2 { x: (a.x - b.x) as i64, y: (a.y - b.y) as i64 }
}

/// The length of `v`, rounded up.
pub open spec fn length(v: Vec2) -> int {
    ceil_sqrt(len_sq(v))
}

/// Toward the target while it is within the seek distance.
pub open spec fn seek_term(pos: Vec2, target: Vec2, seek: Option<Seek>) -> Vec2 {
    match seek {
        Some(s) => if len_sq(diff(target, pos)) < s.distance * s.distance {
            unit(diff(target, pos))
        } else {
            zero()
        },
        None => zero(),
    }
}

/// Away from the target while it is within the flee distance.
pub open spec fn flee_term(pos: Vec2, target: Vec2, flee: Option<Flee>) -> Vec2 {
    match flee {
        Some(f) => if len_sq(diff(pos, target)) < f.distance * f.distance {
            unit(diff(pos, target))
        } else {
            zero()
        },
        None => zero(),
    }
}

/// The heading `h` turned by `a` thousandths of a radian (for small turns;
/// exactly, by twice the angle whose tangent is `a / 2000`) and brought back
/// to unit length; no turn leaves it as it is.
pub open spec fn turned(h: Vec2, a: int) -> Vec2 {
    if a == 0 {
        h
    } else {
        let c = 4 * SCALE * SCALE - a * a;
        let s = 4 * SCALE * a;
        let d = 4 * SCALE * SCALE + a * a;
        unit(Vec2 { x: tdiv(h.x * c - h.y * s, d) as i64, y: tdiv(h.x * s + h.y * c, d) as i64 })
    }
}

/// The wander heading after this tick's turn.
pub open spec fn wandered(w: Option<Wander>, a: int) -> Option<Wander> {
    match w {
        Some(w) => Some(Wander { direction: turned(w.direction, a), ..w }),
        None => None,
    }
}

/// The weighted wander heading.
pub open spec fn wander_term(w: Option<Wander>) -> Vec2 {
    match w {
        Some(w) => Vec2 {
            x: tdiv(w.direction.x * WANDER_WEIGHT, SCALE as int) as i64,
            y: tdiv(w.direction.y * WANDER_WEIGHT, SCALE as int) as i64,
        },
        None => zero(),
    }
}

/// Toward the target when farther than the range plus the tolerance, away
/// from it when nearer than the range less the tolerance, else nothing.
pub open spec fn range_term(pos: Vec2, target: Vec2, r: Option<MaintainRange>) -> Vec2 {
    match r {
        Some(r) => if length(diff(target, pos)) > r.distance + RANGE_TOLERANCE {
            unit(diff(target, pos))
        } else if length(diff(target, pos)) < r.distance - RANGE_TOLERANCE {
            unit(diff(pos, target))
        } else {
            zero()
        },
        None => zero(),
    }
}

/// The push away from one neighbor: its clearance is the distance less both
/// radii; within `radius` (and not touching) the push points away from it
/// with weight `AVOID_WEIGHT * (radius - clearance) / radius`.
pub open spec fn push_from(pos: Vec2, own_radius: int, n: Neighbor, radius: int) -> Vec2 {
    let off = diff(pos, n.position);
    let clearance = length(off) - n.radius - own_radius;
    if 0 < clearance < radius {
        let u = unit(off);
        let k = AVOID_WEIGHT * (radius - clearance);
        Vec2 { x: tdiv(u.x * k, radius) as i64, y: tdiv(u.y * k, radius) as i64 }
    } else {
        zero()
    }
}

/// The sum of the pushes away from every neighbor.
pub open spec fn avoid_sum(pos: Vec2, own_radius: int, ns: Seq<Neighbor>, radius: int) -> (int, int)
    decreases ns.len(),
{
    if ns.len() == 0 {
        (0, 0)
    } else {
        let rest = avoid_sum(pos, own_radius, ns.drop_last(), radius);
        let p = push_from(pos, own_radius, ns.last(), radius);
        (rest.0 + p.x, rest.1 + p.y)
    }
}

/// The avoidance term, when the body avoids its allies.
pub open spec fn avoid_term(b: Body, ns: Seq<Neighbor>) -> (int, int) {
    match b.avoid_allies {
        Some(av) => avoid_sum(b.position, b.radius(), ns, av.radius as int),
        None => (0, 0),
    }
}

/// A body after steering toward or away from `target`, with the wander turn
/// `a`: its wander heading turned, and its input the sum of every enabled
/// behavior's contribution.
pub open spec fn steered(b: Body, target: Vec2, ns: Seq<Neighbor>, a: int) -> Body {
    let w = wandered(b.wander, a);
    let s = seek_term(b.position, target, b.seek);
    let f = flee_term(b.position, target, b.flee);
    let wt = wander_term(w);
    let r = range_term(b.position, target, b.maintain_range);
    let av = avoid_term(b, ns);
    Body {
        input: AccumulatedInput {
            direction: Vec2 {
                x: (s.x + f.x + wt.x + r.x + av.0) as i64,
                y: (s.y + f.y + wt.y + r.y + av.1) as i64,
            },
            samples: 1,
        },
        wander: w,
        ..b
    }
}

/// `a - b` for positions.
fn offset(a: Vec2, b: Vec2) -> (r: Vec2)
    requires
        a.within(LIMIT as int),
        b.within(LIMIT as int),
    ensures
        r == diff(a, b),
        r.within(2 * LIMIT),
{
    Vec2 { x: a.x - b.x, y: a.y - b.y }
}

/// `|v|²` of a difference of positions.
fn length_sq(v: Vec2) -> (r: i128)
    requires
        v.within(2 * LIMIT),
    ensures
        r == len_sq(v),
        0 <= r <= 8 * LIMIT * LIMIT,
{
    assert(0 <= v.x * v.x <= 4 * LIMIT * LIMIT && 0 <= v.y * v.y <= 4 * LIMIT * LIMIT)
        by (nonlinear_arith)
        requires
            v.within(2 * LIMIT),
    ;
    (v.x as i128) * (v.x as i128) + (v.y as i128) * (v.y as i128)
}

/// The length of a difference of positions, rounded up.
fn length_of(v: Vec2) -> (r: i64)
    requires
        v.within(2 * LIMIT),
    ensures
        r == length(v),
        0 <= r <= 4 * LIMIT,
{
    let n = length_sq(v);
    let d = isqrt_ceil(n as u64);
    proof {
        lemma_ceil_sqrt(n as int);
        if d > 4 * LIMIT {
            assert((d - 1) * (d - 1) >= (4 * LIMIT) * (4 * LIMIT)) by (nonlinear_arith)
                requires
                    d - 1 >= 4 * LIMIT,
            ;
        }
    }
    d as i64
}

/// Turns a wander heading; see `turned`.
pub fn turn_heading(h: Vec2, a: i64) -> (r: Vec2)
    requires
        h.within(SCALE as int),
        -MAX_VARIATION <= a <= MAX_VARIATION,
    ensures
        r == turned(h, a as int),
        r.within(SCALE as int),
{
    if a == 0 {
        return h;
    }
    let ai = a as i128;
    let s2: i128 = 4 * (SCALE as i128) * (SCALE as i128);
    assert(0 <= a * a <= MAX_VARIATION * MAX_VARIATION) by (nonlinear_arith)
        requires
            -MAX_VARIATION <= a <= MAX_VARIATION,
    ;
    let c = s2 - ai * ai;
    let s = 4 * (SCALE as i128) * ai;
    let d = s2 + ai * ai;
    assert(-d <= c <= d);
    assert(-d <= s <= d) by (nonlinear_arith)
        requires
            s == 4 * SCALE * a,
            d == 4 * SCALE * SCALE + a * a,
    ;
    assert(-SCALE * d <= h.x * c <= SCALE * d && -SCALE * d <= h.y * s <= SCALE * d && -SCALE * d
        <= h.x * s <= SCALE * d && -SCALE * d <= h.y * c <= SCALE * d) by (nonlinear_arith)
        requires
            -d <= c <= d,
            -d <= s <= d,
            h.within(SCALE as int),
            d > 0,
    ;
    let hx = h.x as i128;
    let hy = h.y as i128;
    let nx = hx * c - hy * s;
    let ny = hx * s + hy * c;
    proof {
        lemma_tdiv_le(nx as int, d as int, 2 * SCALE);
        lemma_tdiv_le(ny as int, d as int, 2 * SCALE);
    }
    let raw = Vec2 { x: div_trunc(nx, d) as i64, y: div_trunc(ny, d) as i64 };
    scale_to(raw, SCALE)
}

/// The push away from one neighbor; see `push_from`.
fn push_away(pos: Vec2, own_radius: i64, n: Neighbor, radius: i64) -> (r: Vec2)
    requires
        pos.within(LIMIT as int),
        n.wf(),
        0 <= own_radius <= LIMIT,
        0 < radius <= LIMIT,
    ensures
        r == push_from(pos, own_radius as int, n, radius as int),
        r.within(2 * SCALE),
{
    let off = offset(pos, n.position);
    let clearance = length_of(off) - n.radius - own_radius;
    if 0 < clearance && clearance < radius {
        let u = scale_to(off, SCALE);
        let k = AVOID_WEIGHT * (radius - clearance);
        let ux = u.x as i128;
        let uy = u.y as i128;
        let ki = k as i128;
        assert(-2 * SCALE * radius <= ux * ki <= 2 * SCALE * radius && -2 * SCALE * radius <= uy * ki
            <= 2 * SCALE * radius) by (nonlinear_arith)
            requires
                -SCALE <= ux <= SCALE,
                -SCALE <= uy <= SCALE,
                0 < ki <= 2 * radius,
        ;
        assert(-0x1_0000_0000_0000 <= ux * ki <= 0x1_0000_0000_0000 && -0x1_0000_0000_0000 <= uy * ki
            <= 0x1_0000_0000_0000) by (nonlinear_arith)
            requires
                -1000 <= ux <= 1000,
                -1000 <= uy <= 1000,
                0 < ki <= 0x1_0000_0000,
        ;
        proof {
            lemma_tdiv_le(u.x * k, radius as int, 2 * SCALE);
            lemma_tdiv_le(u.y * k, radius as int, 2 * SCALE);
        }
        Vec2 { x: div_trunc(ux * ki, radius as i128) as i64, y: div_trunc(uy * ki, radius as i128) as i64 }
    } else {
        Vec2 { x: 0, y: 0 }
    }
}

/// The sum of the pushes away from every neighbor; see `avoid_sum`.
fn avoid_neighbors(pos: Vec2, own_radius: i64, ns: &Vec<Neighbor>, radius: i64) -> (r: Vec2)
    requires
        pos.within(LIMIT as int),
        forall|i: int| 0 <= i < ns@.len() ==> (#[trigger] ns@[i]).wf(),
        ns@.len() <= MAX_NEIGHBORS,
        0 <= own_radius <= LIMIT,
        0 < radius <= LIMIT,
    ensures
        r.x == avoid_sum(pos, own_radius as int, ns@, radius as int).0,
        r.y == avoid_sum(pos, own_radius as int, ns@, radius as int).1,
        r.within(2 * SCALE * MAX_NEIGHBORS),
{
    let mut sx: i64 = 0;
    let mut sy: i64 = 0;
    let mut i: usize = 0;
    while i < ns.len()
        invariant
            0 <= i <= ns@.len() <= MAX_NEIGHBORS,
            pos.within(LIMIT as int),
            forall|j: int| 0 <= j < ns@.len() ==> (#[trigger] ns@[j]).wf(),
            0 <= own_radius <= LIMIT,
            0 < radius <= LIMIT,
            sx == avoid_sum(pos, own_radius as int, ns@.subrange(0, i as int), radius as int).0,
            sy == avoid_sum(pos, own_radius as int, ns@.subrange(0, i as int), radius as int).1,
            -2000 * i <= sx <= 2000 * i,
            -2000 * i <= sy <= 2000 * i,
        decreases ns@.len() - i,
    {
        let p = push_away(pos, own_radius, ns[i], radius);
        assert(ns@.subrange(0, i + 1).drop_last() == ns@.subrange(0, i as int));
        assert(ns@.subrange(0, i + 1).last() == ns@[i as int]);
        sx = sx + p.x;
        sy = sy + p.y;
        i = i + 1;
    }
    assert(ns@.subrange(0, ns@.len() as int) == ns@);
    Vec2 { x: sx, y: sy }
}

/// Toward the target within the seek distance; see `seek_term`.
fn seek_contribution(pos: Vec2, target: Vec2, seek: Option<Seek>) -> (r: Vec2)
    requires
        pos.within(LIMIT as int),
        target.within(LIMIT as int),
        seek matches Some(s) ==> s.wf(),
    ensures
        r == seek_term(pos, target, seek),
        r.within(SCALE as int),
{
    match seek {
        Some(sk) => {
            let to = offset(target, pos);
            let d = sk.distance as i128;
            assert(0 <= d * d <= LIMIT * LIMIT) by (nonlinear_arith)
                requires
                    0 <= d <= LIMIT,
            ;
            if length_sq(to) < d * d {
                scale_to(to, SCALE)
            } else {
                Vec2 { x: 0, y: 0 }
            }
        },
        None => Vec2 { x: 0, y: 0 },
    }
}

/// Away from the target within the flee distance; see `flee_term`.
fn flee_contribution(pos: Vec2, target: Vec2, flee: Option<Flee>) -> (r: Vec2)
    requires
        pos.within(LIMIT as int),
        target.within(LIMIT as int),
        flee matches Some(f) ==> f.wf(),
    ensures
        r == flee_term(pos, target, flee),
        r.within(SCALE as int),
{
    match flee {
        Some(fl) => {
            let away = offset(pos, target);
            let d = fl.distance as i128;
            assert(0 <= d * d <= LIMIT * LIMIT) by (nonlinear_arith)
                requires
                    0 <= d <= LIMIT,
            ;
            if length_sq(away) < d * d {
                scale_to(away, SCALE)
            } else {
                Vec2 { x: 0, y: 0 }
            }
        },
        None => Vec2 { x: 0, y: 0 },
    }
}

/// Toward or away from the target to keep the range; see `range_term`.
fn range_contribution(pos: Vec2, target: Vec2, range: Option<MaintainRange>) -> (r: Vec2)
    requires
        pos.within(LIMIT as int),
        target.within(LIMIT as int),
        range matches Some(m) ==> m.wf(),
    ensures
        r == range_term(pos, target, range),
        r.within(SCALE as int),
{
    match range {
        Some(mr) => {
            let to = offset(target, pos);
            let d = length_of(to);
            if d > mr.distance + RANGE_TOLERANCE {
                scale_to(to, SCALE)
            } else if d < mr.distance - RANGE_TOLERANCE {
                scale_to(offset(pos, target), SCALE)
            } else {
                Vec2 { x: 0, y: 0 }
            }
        },
        None => Vec2 { x: 0, y: 0 },
    }
}

/// The weighted wander heading; see `wander_term`.
fn wander_contribution(w: Option<Wander>) -> (r: Vec2)
    requires
        w matches Some(w) ==> w.wf(),
    ensures
        r == wander_term(w),
        r.within(WANDER_WEIGHT as int),
{
    match w {
        Some(w) => {
            let h = w.direction;
            proof {
                lemma_tdiv_le(h.x * WANDER_WEIGHT, SCALE as int, WANDER_WEIGHT as int);
                lemma_tdiv_le(h.y * WANDER_WEIGHT, SCALE as int, WANDER_WEIGHT as int);
            }
            Vec2 {
                x: div_trunc((h.x as i128) * (WANDER_WEIGHT as i128), SCALE as i128) as i64,
                y: div_trunc((h.y as i128) * (WANDER_WEIGHT as i128), SCALE as i128) as i64,
            }
        },
        None => Vec2 { x: 0, y: 0 },
    }
}

/// Steers one body: turns its wander heading by `turn` and writes the sum of
/// its behaviors' contributions into its input.
pub fn steer(b: &mut Body, target: Vec2, ns: &Vec<Neighbor>, turn: i64)
    requires
        old(b).wf(),
        target.within(LIMIT as int),
        forall|i: int| 0 <= i < ns@.len() ==> (#[trigger] ns@[i]).wf(),
        ns@.len() <= MAX_NEIGHBORS,
        -MAX_VARIATION <= turn <= MAX_VARIATION,
    ensures
        *final(b) == steered(*old(b), target, ns@, turn as int),
        final(b).wf(),
{
    let pos = b.position;
    let w = match b.wander {
        Some(w) => Some(Wander { direction: turn_heading(w.direction, turn), ..w }),
        None => None,
    };
    let s = seek_contribution(pos, target, b.seek);
    let f = flee_contribution(pos, target, b.flee);
    let wt = wander_contribution(w);
    let r = range_contribution(pos, target, b.maintain_range);
    let av = match b.avoid_allies {
        Some(a) => {
            let own = match b.shape {
                crate::body::ColliderShape::Circle { radius } => radius,
                crate::body::ColliderShape::Rect { .. } => 0,
            };
            avoid_neighbors(pos, own, ns, a.radius)
        },
        None => Vec2 { x: 0, y: 0 },
    };
    b.wander = w;
    b.input = AccumulatedInput {
        direction: Vec2 { x: s.x + f.x + wt.x + r.x + av.x, y: s.y + f.y + wt.y + r.y + av.y },
        samples: 1,
    };
}

/// The heading after wander turns of `d / hz` for each draw `d`, in order.
pub open spec fn heading_after(h: Vec2, draws: Seq<int>, hz: int) -> Vec2
    decreases draws.len(),
{
    if draws.len() == 0 {
        h
    } else {
        turned(heading_after(h, draws.drop_last(), hz), tdiv(draws.last(), hz))
    }
}

/// A wander with zero variation keeps its heading: every draw lies in
/// `[0, 0]`, so the heading is the same after any number of ticks.
pub proof fn lemma_still_wander(w: Wander, draws: Seq<int>, hz: int)
    requires
        w.base_variation == 0,
        hz >= 1,
        forall|i: int| 0 <= i < draws.len() ==> -w.base_variation <= #[trigger] draws[i] <= w.base_variation,
    ensures
        heading_after(w.direction, draws, hz) == w.direction,
    decreases draws.len(),
{
    if draws.len() > 0 {
        lemma_still_wander(w, draws.drop_last(), hz);
        assert(draws.last() == draws[draws.len() - 1]);
        crate::fixed::lemma_tdiv(0, hz);
    }
}

} // verus!
