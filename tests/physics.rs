use rustgamedev::body::{handle_input, AccumulatedInput, Body, ColliderShape};
use rustgamedev::collision::{
    circle_circle_contact_data, circle_vs_circle, circle_vs_rect, circle_wall_contact_data,
    resolve_circle_circle, resolve_circle_wall, Contact,
};
use rustgamedev::config::PhysicsConfig;
use rustgamedev::fixed::{isqrt, isqrt_ceil, scale_to, Vec2, LIMIT, SCALE};
use rustgamedev::integrator::{
    advance_physics, apply_drag_component, integrate, interpolate, interpolate_rendered_transform,
};

fn config(max_speed: i64, acceleration: i64, drag: i64, restitution: i64) -> PhysicsConfig {
    PhysicsConfig { max_speed, acceleration, drag, restitution }
}

fn mover(x: i64, y: i64, vx: i64, vy: i64) -> Body {
    let mut b = Body::new(0, Vec2::new(x, y), ColliderShape::Circle { radius: 50000 }, true);
    b.velocity = Vec2::new(vx, vy);
    b
}

fn speed_sq(v: Vec2) -> i128 {
    (v.x as i128) * (v.x as i128) + (v.y as i128) * (v.y as i128)
}

#[test]
fn square_roots_round_down_and_up() {
    assert_eq!(isqrt(0), 0);
    assert_eq!(isqrt(15), 3);
    assert_eq!(isqrt(16), 4);
    assert_eq!(isqrt(u64::MAX), 4294967295);
    assert_eq!(isqrt_ceil(15), 4);
    assert_eq!(isqrt_ceil(16), 4);
    assert_eq!(isqrt_ceil(17), 5);
}

#[test]
fn rescaling_keeps_direction_and_zero() {
    assert_eq!(scale_to(Vec2::new(3, 4), 1000), Vec2::new(600, 800));
    assert_eq!(scale_to(Vec2::new(0, -7), 1000), Vec2::new(0, -1000));
    assert_eq!(scale_to(Vec2::new(0, 0), 1000), Vec2::new(0, 0));
    assert_eq!(scale_to(Vec2::new(1, 1), 1000), Vec2::new(707, 707));
    assert_eq!(scale_to(Vec2::new(-2, 1), 1000), Vec2::new(-894, 447));
}

#[test]
fn drag_stops_at_zero() {
    let mut v: i64 = 300;
    apply_drag_component(&mut v, 1000);
    assert_eq!(v, 0);
    let mut w: i64 = -5000;
    apply_drag_component(&mut w, 1000);
    assert_eq!(w, -4000);
    let mut z: i64 = 0;
    apply_drag_component(&mut z, 1000);
    assert_eq!(z, 0);
}

#[test]
fn drag_only_slows_without_input() {
    // drag 250 units/s² at 60 Hz: 4166 thousandths per tick
    let cfg = config(500000, 1000000, 250000, 500);
    let mut b = mover(0, 0, 10000, -3000);
    let mut ticks = 0;
    while b.velocity != Vec2::new(0, 0) {
        let before = b.velocity;
        b = integrate(b, &cfg, 60);
        assert!(b.velocity.x >= 0 && b.velocity.x <= before.x);
        assert!(b.velocity.y <= 0 && b.velocity.y >= before.y);
        assert!(before.x - b.velocity.x <= 4166);
        assert!(b.velocity.y - before.y <= 4166);
        ticks += 1;
        assert!(ticks < 10);
    }
    assert_eq!(ticks, 3);
}

#[test]
fn drag_exact_steps() {
    let cfg = config(500000, 1000000, 250000, 500);
    let b = integrate(mover(0, 0, 10000, -3000), &cfg, 60);
    assert_eq!(b.velocity, Vec2::new(5834, 0));
    assert_eq!(b.previous_position, Vec2::new(0, 0));
    assert_eq!(b.position, Vec2::new(97, 0));
}

#[test]
fn speed_never_exceeds_max() {
    let cfg = config(500000, 1000000, 250000, 500);
    let mut b = mover(0, 0, 499000, 0);
    b.input.direction = Vec2::new(1000, 1000);
    for _ in 0..100 {
        b.input.direction = Vec2::new(1000, 1000);
        b = integrate(b, &cfg, 60);
        assert!(speed_sq(b.velocity) <= 500000i128 * 500000);
    }
    let mut c = mover(0, 0, 0, 0);
    for i in 0..200 {
        c.input.direction = Vec2::new(if i % 2 == 0 { 3000 } else { -1000 }, 7000);
        c = integrate(c, &cfg, 60);
        assert!(speed_sq(c.velocity) <= 500000i128 * 500000);
    }
}

#[test]
fn acceleration_follows_normalized_input_and_resets_it() {
    let cfg = config(500000, 1000000, 250000, 500);
    let mut b = mover(0, 0, 0, 0);
    b.input.direction = Vec2::new(0, 3000);
    b.input.samples = 3;
    let b = integrate(b, &cfg, 60);
    assert_eq!(b.acceleration, Vec2::new(0, 1000000));
    // x has no input, so drag keeps it at zero; y gains 1000000 / 60
    assert_eq!(b.velocity, Vec2::new(0, 16666));
    assert_eq!(b.position, Vec2::new(0, 277));
    assert_eq!(b.input, AccumulatedInput::empty());
}

#[test]
fn static_bodies_are_not_integrated() {
    let cfg = PhysicsConfig::default();
    let wall = Body::new(1, Vec2::new(5, 5), ColliderShape::Rect { half_extents: Vec2::new(10, 10) }, false);
    let mut bodies = vec![wall, mover(0, 0, 60000, 0)];
    advance_physics(&mut bodies, &cfg, 60);
    assert_eq!(bodies[0], wall);
    // drag first takes 250000 / 60 off the speed of 60000
    assert_eq!(bodies[1].position, Vec2::new(930, 0));
    assert_eq!(bodies[1].previous_position, Vec2::new(0, 0));
}

#[test]
fn config_defaults() {
    let cfg = PhysicsConfig::default();
    assert_eq!(cfg.max_speed, 500000);
    assert_eq!(cfg.acceleration, 1000000);
    assert_eq!(cfg.drag, 250000);
    assert_eq!(cfg.restitution, 500);
    assert_eq!(cfg.max_speed_sq(), 250000000000);
}

#[test]
fn circle_touching_rect_face_has_zero_penetration() {
    let center = Vec2::new(1000, -2000);
    let half = Vec2::new(30000, 20000);
    let r = 50000;
    let right = circle_vs_rect(Vec2::new(1000 + 30000 + r, -2000 + 5000), r, center, half).unwrap();
    assert_eq!(right, Contact { normal: Vec2::new(SCALE, 0), penetration: 0 });
    let bottom = circle_vs_rect(Vec2::new(1000, -2000 - 20000 - r), r, center, half).unwrap();
    assert_eq!(bottom, Contact { normal: Vec2::new(0, -SCALE), penetration: 0 });
    assert_eq!(circle_vs_rect(Vec2::new(1000 + 30000 + r + 1, -2000), r, center, half), None);
}

#[test]
fn circle_inside_rect_uses_larger_offset_axis() {
    let c = circle_vs_rect(Vec2::new(-300, 100), 10, Vec2::new(0, 0), Vec2::new(1000, 1000)).unwrap();
    assert_eq!(c, Contact { normal: Vec2::new(-SCALE, 0), penetration: 10 });
    let d = circle_vs_rect(Vec2::new(0, 0), 10, Vec2::new(0, 0), Vec2::new(1000, 1000)).unwrap();
    assert_eq!(d, Contact { normal: Vec2::new(0, SCALE), penetration: 10 });
}

#[test]
fn circle_corner_contact() {
    // closest point is the corner (10, 10); center offset (3, 4) from it
    let c = circle_vs_rect(Vec2::new(13, 14), 6, Vec2::new(0, 0), Vec2::new(10, 10)).unwrap();
    assert_eq!(c, Contact { normal: Vec2::new(600, 800), penetration: 1 });
}

#[test]
fn circles_overlap_only_when_closer_than_radii() {
    let c = circle_vs_circle(Vec2::new(0, 0), 50, Vec2::new(60, 80), 60).unwrap();
    assert_eq!(c, Contact { normal: Vec2::new(600, 800), penetration: 10 });
    assert_eq!(circle_vs_circle(Vec2::new(0, 0), 50, Vec2::new(60, 80), 50), None);
    let same = circle_vs_circle(Vec2::new(5, 5), 10, Vec2::new(5, 5), 10).unwrap();
    assert_eq!(same, Contact { normal: Vec2::new(707, 707), penetration: 20 });
}

#[test]
fn wall_bounce_with_restitution() {
    let contact = Contact { normal: Vec2::new(0, SCALE), penetration: 1666 };
    let mut pos = Vec2::new(0, -451666);
    let mut vel = Vec2::new(3000, -100000);
    let data = circle_wall_contact_data(vel, 1000, &contact, 500);
    resolve_circle_wall(&mut pos, &mut vel, contact, 500);
    assert_eq!(vel, Vec2::new(3000, 50000));
    assert_eq!(pos, Vec2::new(0, -450000));
    assert_eq!(data.impulse, 150000);
    assert_eq!(data.v_a_n, 100000);
    assert_eq!(data.v_b_n, 0);
}

#[test]
fn wall_leaves_separating_velocity() {
    let contact = Contact { normal: Vec2::new(0, SCALE), penetration: 5 };
    let mut pos = Vec2::new(0, 0);
    let mut vel = Vec2::new(0, 2000);
    let data = circle_wall_contact_data(vel, 1000, &contact, 500);
    resolve_circle_wall(&mut pos, &mut vel, contact, 500);
    assert_eq!(vel, Vec2::new(0, 2000));
    assert_eq!(pos, Vec2::new(0, 5));
    assert_eq!(data.impulse, 0);
}

#[test]
fn equal_masses_elastic_reverses_velocities() {
    for normal in [Vec2::new(SCALE, 0), Vec2::new(600, 800), Vec2::new(0, -SCALE)] {
        let contact = Contact { normal, penetration: 0 };
        let (mut p1, mut p2) = (Vec2::new(0, 0), Vec2::new(100, 0));
        let mut v1 = Vec2::new(7 * normal.x, 7 * normal.y);
        let mut v2 = Vec2::new(-7 * normal.x, -7 * normal.y);
        resolve_circle_circle(&mut p1, &mut v1, 1000, &mut p2, &mut v2, 1000, contact, SCALE);
        assert_eq!(v1, Vec2::new(-7 * normal.x, -7 * normal.y));
        assert_eq!(v2, Vec2::new(7 * normal.x, 7 * normal.y));
    }
}

#[test]
fn equal_masses_inelastic_stops_relative_motion() {
    let normal = Vec2::new(600, 800);
    let contact = Contact { normal, penetration: 0 };
    let (mut p1, mut p2) = (Vec2::new(0, 0), Vec2::new(100, 0));
    let mut v1 = Vec2::new(3 * 600, 3 * 800);
    let mut v2 = Vec2::new(-3 * 600, -3 * 800);
    resolve_circle_circle(&mut p1, &mut v1, 2000, &mut p2, &mut v2, 2000, contact, 0);
    assert_eq!(v1, Vec2::new(0, 0));
    assert_eq!(v2, Vec2::new(0, 0));
}

#[test]
fn circle_pair_impulse_and_separation_by_mass() {
    let contact = Contact { normal: Vec2::new(SCALE, 0), penetration: 30 };
    let (mut p1, mut p2) = (Vec2::new(0, 0), Vec2::new(70, 0));
    let mut v1 = Vec2::new(4000, 0);
    let mut v2 = Vec2::new(0, 0);
    let data = circle_circle_contact_data(v1, v2, 1000, 2000, &contact, 500);
    resolve_circle_circle(&mut p1, &mut v1, 1000, &mut p2, &mut v2, 2000, contact, 500);
    // closing 4000; v1 changes by 1.5 * 4000 * 2/3, v2 by 1.5 * 4000 * 1/3
    assert_eq!(v1, Vec2::new(0, 0));
    assert_eq!(v2, Vec2::new(2000, 0));
    // the lighter body moves twice as far
    assert_eq!(p1, Vec2::new(-20, 0));
    assert_eq!(p2, Vec2::new(80, 0));
    assert_eq!(data.impulse, 4000);
    assert_eq!(data.v_a_n, 4000);
    assert_eq!(data.v_b_n, 0);
}

#[test]
fn separating_circles_only_depenetrate() {
    let contact = Contact { normal: Vec2::new(SCALE, 0), penetration: 10 };
    let (mut p1, mut p2) = (Vec2::new(0, 0), Vec2::new(90, 0));
    let mut v1 = Vec2::new(-1000, 0);
    let mut v2 = Vec2::new(1000, 0);
    let data = circle_circle_contact_data(v1, v2, 1000, 1000, &contact, 500);
    resolve_circle_circle(&mut p1, &mut v1, 1000, &mut p2, &mut v2, 1000, contact, 500);
    assert_eq!(v1, Vec2::new(-1000, 0));
    assert_eq!(v2, Vec2::new(1000, 0));
    assert_eq!(p1, Vec2::new(-5, 0));
    assert_eq!(p2, Vec2::new(95, 0));
    assert_eq!(data.impulse, 0);
}

#[test]
fn interpolation_between_ticks() {
    assert_eq!(interpolate(Vec2::new(0, 100), Vec2::new(1000, -100), 0), Vec2::new(0, 100));
    assert_eq!(interpolate(Vec2::new(0, 100), Vec2::new(1000, -100), 250), Vec2::new(250, 50));
    assert_eq!(interpolate(Vec2::new(0, 100), Vec2::new(1000, -100), 1000), Vec2::new(1000, -100));
    let mut b = mover(0, 0, 0, 0);
    b.previous_position = Vec2::new(-10, 40);
    b.position = Vec2::new(10, 0);
    assert_eq!(interpolate_rendered_transform(&vec![b], 500), vec![Vec2::new(0, 20)]);
}

#[test]
fn keys_accumulate_into_input() {
    let mut input = AccumulatedInput::empty();
    handle_input(&mut input, true, false, false, true);
    handle_input(&mut input, true, true, true, false);
    assert_eq!(input.direction, Vec2::new(0, 1000));
    assert_eq!(input.samples, 2);
    let mut big = AccumulatedInput { direction: Vec2::new(LIMIT, -LIMIT), samples: u64::MAX };
    handle_input(&mut big, false, true, false, true);
    assert_eq!(big.direction, Vec2::new(LIMIT, -LIMIT));
    assert_eq!(big.samples, u64::MAX);
}

#[test]
fn tiny_circle_overlap_has_positive_penetration() {
    let c = circle_vs_circle(Vec2::new(0, 0), 1, Vec2::new(1, 1), 1).unwrap();
    assert_eq!(c.penetration, 1);
    assert_eq!(c.normal, Vec2::new(707, 707));
    let d = circle_vs_circle(Vec2::new(0, 0), 50000, Vec2::new(99999, 0), 50000).unwrap();
    assert_eq!(d.penetration, 1);
}

#[test]
fn inelastic_bounce_on_rounded_normal_leaves_wall() {
    let n = Vec2::new(707, 707);
    let contact = Contact { normal: n, penetration: 0 };
    let mut pos = Vec2::new(0, 0);
    let mut vel = Vec2::new(-1000000, -1000000);
    resolve_circle_wall(&mut pos, &mut vel, contact, 0);
    let d = vel.x as i128 * n.x as i128 + vel.y as i128 * n.y as i128;
    assert!(d >= 0);
    assert!(vel.x.abs() <= 1 && vel.y.abs() <= 1);
    let mut skew = Vec2::new(-300000, 50000);
    resolve_circle_wall(&mut pos, &mut skew, Contact { normal: Vec2::new(894, 447), penetration: 0 }, 0);
    assert!(skew.x as i128 * 894 + skew.y as i128 * 447 >= 0);
}
