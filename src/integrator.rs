//! Velocity and position integration over one fixed tick.
use crate::body::{AccumulatedInput, Body};
use crate::config::PhysicsConfig;
use crate::fixed::{
    ceil_sqrt, clamp_coord, clamp_vec, div_trunc, fine, lemma_ceil_sqrt, lemma_fine, lemma_scaled_to_len,
    lemma_sqrt_ge_component, lemma_square_le, lemma_tdiv, lemma_tdiv_le, len_sq, scale_to, scaled_to, tdiv,
    Vec2, LIMIT, PRECISION, SCALE,
};
use vstd::prelude::*;

verus! {

/// `v` moved toward zero by `step`, stopping at zero.
pub open spec fn drag_toward_zero(v: int, step: int) -> int {
    if v > step {
        v - step
    } else if v < -step {
        v + step
    } else {
        0
    }
}

/// The velocity component `v` on an axis without input, after drag.
pub open spec fn dragged(v: int, accel: int, step: int) -> int {
    if accel == 0 {
        drag_toward_zero(v, step)
    } else {
        v
    }
}

/// Velocity after input and drag, before the speed limit.
pub open spec fn unclamped_velocity(b: Body, cfg: PhysicsConfig, hz: int) -> Vec2 {
    let a = scaled_to(b.input.direction, cfg.acceleration as int);
    let step = cfg.drag as int / hz;
    Vec2 {
        x: (dragged(b.velocity.x as int, a.x as int, step) + tdiv(a.x as int, hz)) as i64,
        y: (dragged(b.velocity.y as int, a.y as int, step) + tdiv(a.y as int, hz)) as i64,
    }
}

/// `v` rescaled to the top speed if it is faster.
pub open spec fn speed_limited(v: Vec2, max_speed: int) -> Vec2 {
    if len_sq(v) > max_speed * max_speed {
        scaled_to(v, max_speed)
    } else {
        v
    }
}

/// A dynamic body after one tick of `1 / hz` seconds: acceleration from the
/// normalized input, drag on the axes without acceleration, the speed limit,
/// the previous position recorded, the position advanced, the input reset.
pub open spec fn integrated(b: Body, cfg: PhysicsConfig, hz: int) -> Body {
    let a = scaled_to(b.input.direction, cfg.acceleration as int);
    let v = speed_limited(unclamped_velocity(b, cfg, hz), cfg.max_speed as int);
    Body {
        position: clamp_vec(b.position.x + tdiv(v.x as int, hz), b.position.y + tdiv(v.y as int, hz)),
        previous_position: b.position,
        velocity: v,
        acceleration: a,
        input: AccumulatedInput { direction: Vec2 { x: 0, y: 0 }, samples: 0 },
        ..b
    }
}

/// Moves `v` toward zero by at most `drag_step`, never past zero.
pub fn apply_drag_component(v: &mut i64, drag_step: i64)
    requires
        0 <= drag_step,
        -LIMIT <= *old(v) <= LIMIT,
    ensures
        *final(v) == drag_toward_zero(*old(v) as int, drag_step as int),
{
    if *v > drag_step {
        *v = *v - drag_step;
    } else if *v < -drag_step {
        *v = *v + drag_step;
    } else {
        *v = 0;
    }
}

/// Advances one dynamic body by one tick of `1 / tick_hz` seconds.
pub fn integrate(b: Body, cfg: &PhysicsConfig, tick_hz: i64) -> (r: Body)
    requires
        b.wf(),
        cfg.wf(),
        tick_hz >= 1,
    ensures
        r == integrated(b, *cfg, tick_hz as int),
        r.wf(),
        len_sq(r.velocity) <= cfg.max_speed * cfg.max_speed,
{
    let a = scale_to(b.input.direction, cfg.acceleration);
    let step = cfg.drag / tick_hz;
    let mut vx = b.velocity.x;
    if a.x == 0 {
        apply_drag_component(&mut vx, step);
    }
    let mut vy = b.velocity.y;
    if a.y == 0 {
        apply_drag_component(&mut vy, step);
    }
    proof {
        lemma_tdiv(a.x as int, tick_hz as int);
        lemma_tdiv(a.y as int, tick_hz as int);
    }
    let v1 = Vec2 {
        x: vx + div_trunc(a.x as i128, tick_hz as i128) as i64,
        y: vy + div_trunc(a.y as i128, tick_hz as i128) as i64,
    };
    assert(v1 == unclamped_velocity(b, *cfg, tick_hz as int));
    let max_sq = cfg.max_speed_sq();
    let x1 = v1.x as i128;
    let y1 = v1.y as i128;
    assert(0 <= x1 * x1 <= 0x1_0000_0000 * 0x1_0000_0000 && 0 <= y1 * y1 <= 0x1_0000_0000
        * 0x1_0000_0000) by (nonlinear_arith)
        requires
            -0x1_0000_0000 <= x1 <= 0x1_0000_0000,
            -0x1_0000_0000 <= y1 <= 0x1_0000_0000,
    ;
    let v = if x1 * x1 + y1 * y1 > max_sq as i128 {
        proof {
            lemma_scaled_to_len(v1, cfg.max_speed as int);
        }
        scale_to(v1, cfg.max_speed)
    } else {
        v1
    };
    proof {
        assert(len_sq(v) <= cfg.max_speed * cfg.max_speed);
        lemma_sqrt_ge_component(v.x as int, v.y as int, cfg.max_speed as int);
        lemma_sqrt_ge_component(v.y as int, v.x as int, cfg.max_speed as int);
        lemma_tdiv(v.x as int, tick_hz as int);
        lemma_tdiv(v.y as int, tick_hz as int);
    }
    let px = clamp_coord(b.position.x + div_trunc(v.x as i128, tick_hz as i128) as i64);
    let py = clamp_coord(b.position.y + div_trunc(v.y as i128, tick_hz as i128) as i64);
    Body {
        position: Vec2 { x: px, y: py },
        previous_position: b.position,
        velocity: v,
        acceleration: a,
        input: AccumulatedInput::empty(),
        ..b
    }
}

/// Advances every dynamic body by one tick; static bodies are left as they are.
pub fn advance_physics(bodies: &mut Vec<Body>, cfg: &PhysicsConfig, tick_hz: i64)
    requires
        forall|i: int| 0 <= i < old(bodies)@.len() ==> (#[trigger] old(bodies)@[i]).wf(),
        cfg.wf(),
        tick_hz >= 1,
    ensures
        final(bodies)@.len() == old(bodies)@.len(),
        forall|i: int|
            0 <= i < old(bodies)@.len() ==> #[trigger] final(bodies)@[i] == if old(bodies)@[i].dynamic {
                integrated(old(bodies)@[i], *cfg, tick_hz as int)
            } else {
                old(bodies)@[i]
            },
        forall|i: int| 0 <= i < final(bodies)@.len() ==> (#[trigger] final(bodies)@[i]).wf(),
{
    let n = bodies.len();
    let mut i: usize = 0;
    while i < n
        invariant
            n == old(bodies)@.len(),
            bodies@.len() == n,
            cfg.wf(),
            tick_hz >= 1,
            0 <= i <= n,
            forall|j: int| 0 <= j < n ==> (#[trigger] bodies@[j]).wf(),
            forall|j: int| i <= j < n ==> #[trigger] bodies@[j] == old(bodies)@[j],
            forall|j: int|
                0 <= j < i ==> #[trigger] bodies@[j] == if old(bodies)@[j].dynamic {
                    integrated(old(bodies)@[j], *cfg, tick_hz as int)
                } else {
                    old(bodies)@[j]
                },
        decreases n - i,
    {
        let b = bodies[i];
        if b.dynamic {
            let nb = integrate(b, cfg, tick_hz);
            bodies.set(i, nb);
        }
        i = i + 1;
    }
}

/// Rescaling to a smaller length never reverses or grows a component.
proof fn lemma_shrink_component(x: int, m: int, d: int)
    requires
        0 <= m < d,
    ensures
        x >= 0 ==> 0 <= tdiv(x * m, d) <= x,
        x <= 0 ==> x <= tdiv(x * m, d) <= 0,
{
    let ax = if x >= 0 { x } else { -x };
    assert(-ax * d <= x * m <= ax * d) by (nonlinear_arith)
        requires
            0 <= m < d,
            ax == x || ax == -x,
            ax >= 0,
    ;
    assert(x >= 0 ==> x * m >= 0) by (nonlinear_arith)
        requires
            m >= 0,
    ;
    assert(x <= 0 ==> x * m <= 0) by (nonlinear_arith)
        requires
            m >= 0,
    ;
    lemma_tdiv_le(x * m, d, ax);
    lemma_tdiv(x * m, d);
}

/// Without acceleration a tick only slows each velocity component toward
/// zero and never reverses it; while the body is within the top speed, each
/// component loses exactly `min(|v|, drag / hz)`.
pub proof fn lemma_drag_only_slows(b: Body, cfg: PhysicsConfig, hz: int)
    requires
        b.wf(),
        cfg.wf(),
        hz >= 1,
        b.input.direction == (Vec2 { x: 0, y: 0 }) || cfg.acceleration == 0,
    ensures
        b.velocity.x >= 0 ==> 0 <= integrated(b, cfg, hz).velocity.x <= b.velocity.x,
        b.velocity.x <= 0 ==> b.velocity.x <= integrated(b, cfg, hz).velocity.x <= 0,
        b.velocity.y >= 0 ==> 0 <= integrated(b, cfg, hz).velocity.y <= b.velocity.y,
        b.velocity.y <= 0 ==> b.velocity.y <= integrated(b, cfg, hz).velocity.y <= 0,
        len_sq(b.velocity) <= cfg.max_speed * cfg.max_speed ==> integrated(b, cfg, hz).velocity
            == (Vec2 {
            x: drag_toward_zero(b.velocity.x as int, cfg.drag as int / hz) as i64,
            y: drag_toward_zero(b.velocity.y as int, cfg.drag as int / hz) as i64,
        }),
{
    let dir = b.input.direction;
    let a = scaled_to(dir, cfg.acceleration as int);
    if len_sq(dir) != 0 {
        assert(cfg.acceleration == 0);
        lemma_fine(dir);
        let w = fine(dir);
        assert(w.x * 0 == 0 && w.y * 0 == 0);
        lemma_ceil_sqrt(len_sq(w));
        lemma_tdiv(0, ceil_sqrt(len_sq(w)));
    }
    assert(a.x == 0 && a.y == 0);
    let step = cfg.drag as int / hz;
    assert(step >= 0);
    let v = b.velocity;
    let v1 = unclamped_velocity(b, cfg, hz);
    assert(v1.x == drag_toward_zero(v.x as int, step));
    assert(v1.y == drag_toward_zero(v.y as int, step));
    let m = cfg.max_speed as int;
    if len_sq(v1) > m * m {
        lemma_fine(v1);
        let w = fine(v1);
        let f = PRECISION as int;
        let n = len_sq(w);
        lemma_ceil_sqrt(n);
        let d = ceil_sqrt(n);
        assert(n > (m * f) * (m * f)) by (nonlinear_arith)
            requires
                n == len_sq(v1) * (f * f),
                len_sq(v1) > m * m,
                f > 0,
        ;
        if d <= m * f {
            lemma_square_le(d, m * f);
        }
        assert(w.x * m == v1.x * (f * m) && w.y * m == v1.y * (f * m)) by (nonlinear_arith)
            requires
                w.x == v1.x * f,
                w.y == v1.y * f,
        ;
        lemma_shrink_component(v1.x as int, f * m, d);
        lemma_shrink_component(v1.y as int, f * m, d);
    }
    if len_sq(v) <= m * m {
        let ax = if v.x >= 0 { v.x as int } else { -v.x };
        let ay = if v.y >= 0 { v.y as int } else { -v.y };
        let bx = if v1.x >= 0 { v1.x as int } else { -v1.x };
        let by = if v1.y >= 0 { v1.y as int } else { -v1.y };
        lemma_square_le(bx, ax);
        lemma_square_le(by, ay);
        assert(bx * bx == v1.x * v1.x && by * by == v1.y * v1.y && ax * ax == v.x * v.x && ay * ay
            == v.y * v.y) by (nonlinear_arith)
            requires
                ax == v.x || ax == -v.x,
                ay == v.y || ay == -v.y,
                bx == v1.x || bx == -v1.x,
                by == v1.y || by == -v1.y,
        ;
    }
}

/// The value a fraction `alpha / SCALE` of the way from `a` to `b`.
pub open spec fn lerp(a: int, b: int, alpha: int) -> int {
    a + tdiv((b - a) * alpha, SCALE as int)
}

/// The render position of a body a fraction `alpha / SCALE` of a tick past
/// its last integration, between its previous and current positions.
pub fn interpolate(previous: Vec2, current: Vec2, alpha: i64) -> (r: Vec2)
    requires
        previous.within(LIMIT as int),
        current.within(LIMIT as int),
        0 <= alpha <= SCALE,
    ensures
        r.x == lerp(previous.x as int, current.x as int, alpha as int),
        r.y == lerp(previous.y as int, current.y as int, alpha as int),
        r.within(LIMIT as int),
{
    let dx = (current.x - previous.x) as i128;
    let dy = (current.y - previous.y) as i128;
    assert(-2 * LIMIT * SCALE <= dx * alpha <= 2 * LIMIT * SCALE && -2 * LIMIT * SCALE <= dy * alpha
        <= 2 * LIMIT * SCALE) by (nonlinear_arith)
        requires
            -2 * LIMIT <= dx <= 2 * LIMIT,
            -2 * LIMIT <= dy <= 2 * LIMIT,
            0 <= alpha <= SCALE,
    ;
    let qx = div_trunc(dx * alpha as i128, SCALE as i128);
    let qy = div_trunc(dy * alpha as i128, SCALE as i128);
    proof {
        lemma_interpolate_between(previous.x as int, current.x as int, alpha as int);
        lemma_interpolate_between(previous.y as int, current.y as int, alpha as int);
    }
    Vec2 { x: (previous.x as i128 + qx) as i64, y: (previous.y as i128 + qy) as i64 }
}

/// An interpolated value lies between its two ends.
proof fn lemma_interpolate_between(a: int, b: int, alpha: int)
    requires
        0 <= alpha <= SCALE,
    ensures
        a <= b ==> a <= lerp(a, b, alpha) <= b,
        b <= a ==> b <= lerp(a, b, alpha) <= a,
{
    if a <= b {
        assert(0 <= (b - a) * alpha <= (b - a) * SCALE) by (nonlinear_arith)
            requires
                a <= b,
                0 <= alpha <= SCALE,
        ;
        lemma_tdiv_le((b - a) * alpha, SCALE as int, b - a);
        lemma_tdiv((b - a) * alpha, SCALE as int);
    } else {
        assert((a - b) * SCALE * -1 <= (b - a) * alpha <= 0) by (nonlinear_arith)
            requires
                b < a,
                0 <= alpha <= SCALE,
        ;
        lemma_tdiv_le((b - a) * alpha, SCALE as int, a - b);
        lemma_tdiv((b - a) * alpha, SCALE as int);
    }
}

/// The render positions of every body, a fraction `alpha / SCALE` of a tick
/// past the last integration.
pub fn interpolate_rendered_transform(bodies: &Vec<Body>, alpha: i64) -> (r: Vec<Vec2>)
    requires
        forall|i: int| 0 <= i < bodies@.len() ==> (#[trigger] bodies@[i]).wf(),
        0 <= alpha <= SCALE,
    ensures
        r@.len() == bodies@.len(),
        forall|i: int|
            0 <= i < r@.len() ==> (#[trigger] r@[i]).x == lerp(
                bodies@[i].previous_position.x as int,
                bodies@[i].position.x as int,
                alpha as int,
            ) && r@[i].y == lerp(
                bodies@[i].previous_position.y as int,
                bodies@[i].position.y as int,
                alpha as int,
            ),
{
    let mut out: Vec<Vec2> = Vec::new();
    let mut i: usize = 0;
    while i < bodies.len()
        invariant
            0 <= i <= bodies@.len(),
            0 <= alpha <= SCALE,
            forall|k: int| 0 <= k < bodies@.len() ==> (#[trigger] bodies@[k]).wf(),
            out@.len() == i,
            forall|k: int|
                0 <= k < i ==> (#[trigger] out@[k]).x == lerp(
                    bodies@[k].previous_position.x as int,
                    bodies@[k].position.x as int,
                    alpha as int,
                ) && out@[k].y == lerp(
                    bodies@[k].previous_position.y as int,
                    bodies@[k].position.y as int,
                    alpha as int,
                ),
        decreases bodies@.len() - i,
    {
        let b = bodies[i];
        assert(b.wf());
        out.push(interpolate(b.previous_position, b.position, alpha));
        i = i + 1;
    }
    out
}

} // verus!
