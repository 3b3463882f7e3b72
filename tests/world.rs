use rustgamedev::body::{Body, ColliderShape, Enemy, Player};
use rustgamedev::collision::circle_vs_rect;
use rustgamedev::combat::{apply_damage, collision_to_damage, DamageEvent, Health};
use rustgamedev::config::PhysicsConfig;
use rustgamedev::contacts::{
    emit_collision_events, ordered_pair, CollisionEvent, ContactData, ContactKey, ContactSet, Contacts,
};
use rustgamedev::fixed::{Vec2, SCALE};
use rustgamedev::spawn::{
    spawn_enemies_event_handler, spawn_enemy, spawn_enemy_on_key, spawn_map, spawn_player,
    SpawnEnemiesEvent,
};
use rustgamedev::steering::{
    steer, turn_heading, Ally, AvoidAllies, Flee, MaintainRange, Neighbor, Seek, Wander, MAX_VARIATION,
};
use rustgamedev::systems::{circle_circle_collision_system, run_collision_set, CollisionSet};
use rustgamedev::world::World;

fn data(impulse: i128) -> ContactData {
    ContactData { impulse, v_a_n: 1, v_b_n: 2 }
}

fn circle(x: i64, y: i64) -> Body {
    Body::new(0, Vec2::new(x, y), ColliderShape::Circle { radius: 50000 }, true)
}

#[test]
fn ordered_pair_is_symmetric() {
    assert_eq!(ordered_pair(7, 3), ContactKey { a: 3, b: 7 });
    assert_eq!(ordered_pair(3, 7), ContactKey { a: 3, b: 7 });
    assert_eq!(ordered_pair(4, 4), ContactKey { a: 4, b: 4 });
}

#[test]
fn contact_set_replaces_existing_pair() {
    let mut set = ContactSet::new();
    set.insert(ordered_pair(1, 2), data(5));
    set.insert(ordered_pair(2, 1), data(9));
    set.insert(ordered_pair(1, 3), data(1));
    assert_eq!(set.len(), 2);
    assert_eq!(set.entries[0].data.impulse, 9);
    assert!(set.contains_key(ContactKey { a: 1, b: 3 }));
    assert!(!set.contains_key(ContactKey { a: 2, b: 3 }));
}

#[test]
fn contact_lifecycle_emits_one_start_and_one_stop() {
    let k = ordered_pair(4, 2);
    let mut contacts = Contacts::new();
    let mut started = 0;
    let mut stopped = 0;
    // touching on ticks 1 to 3, apart on ticks 0, 4 and 5
    for tick in 0..6 {
        if (1..=3).contains(&tick) {
            contacts.current.insert(k, data(100 + tick as i128));
        }
        let events = emit_collision_events(&mut contacts);
        assert!(contacts.current.len() == 0);
        for ev in &events {
            match *ev {
                CollisionEvent::Started { a, b, impulse, .. } => {
                    assert_eq!((a, b), (2, 4));
                    assert_eq!(tick, 1);
                    assert_eq!(impulse, 101);
                    started += 1;
                }
                CollisionEvent::Stopped { a, b } => {
                    assert_eq!((a, b), (2, 4));
                    assert_eq!(tick, 4);
                    stopped += 1;
                }
            }
        }
        if tick == 2 || tick == 3 {
            assert!(events.is_empty());
        }
    }
    assert_eq!((started, stopped), (1, 1));
}

#[test]
fn events_list_starts_before_stops() {
    let mut contacts = Contacts::new();
    contacts.current.insert(ordered_pair(1, 2), data(3));
    emit_collision_events(&mut contacts);
    contacts.current.insert(ordered_pair(5, 6), data(7));
    let events = emit_collision_events(&mut contacts);
    assert_eq!(
        events,
        vec![
            CollisionEvent::Started { a: 5, b: 6, impulse: 7, v_a_n: 1, v_b_n: 2 },
            CollisionEvent::Stopped { a: 1, b: 2 },
        ]
    );
}

#[test]
fn end_to_end_bounce_off_floor() {
    let cfg = PhysicsConfig { max_speed: 500000, acceleration: 1000000, drag: 0, restitution: 500 };
    let mut world = World::new(cfg, 60, 1);
    let floor = Body::new(
        0,
        Vec2::new(0, -600000),
        ColliderShape::Rect { half_extents: Vec2::new(250000, 100000) },
        false,
    );
    let wall_id = world.add_body(floor).unwrap();
    let mut ball = circle(0, -450000);
    ball.velocity = Vec2::new(0, -100000);
    let ball_id = world.add_body(ball).unwrap();
    let events = world.step();
    let b = world.bodies[world.find(ball_id).unwrap()];
    assert_eq!(b.velocity, Vec2::new(0, 50000));
    assert_eq!(b.position, Vec2::new(0, -450000));
    assert_eq!(b.previous_position, Vec2::new(0, -450000));
    let again = circle_vs_rect(b.position, 50000, Vec2::new(0, -600000), Vec2::new(250000, 100000)).unwrap();
    assert_eq!(again.penetration, 0);
    assert_eq!(events.len(), 1);
    match events[0] {
        CollisionEvent::Started { a, b, impulse, v_a_n, v_b_n } => {
            assert_eq!((a, b), (wall_id, ball_id));
            assert!(impulse > 0);
            assert_eq!(impulse, 150000);
            // the wall has the lower handle: its speed comes first
            assert_eq!((v_a_n, v_b_n), (0, 100000));
        }
        CollisionEvent::Stopped { .. } => panic!("expected a Started event"),
    }
}

#[test]
fn still_wander_keeps_heading() {
    let mut world = World::new(PhysicsConfig::default(), 60, 42);
    spawn_player(&mut world).unwrap();
    let mut e = circle(300000, 300000);
    e.wander = Some(Wander { direction: Vec2::new(600, 800), base_variation: 0 });
    let id = world.add_body(e).unwrap();
    for _ in 0..200 {
        world.step();
        let b = world.bodies[world.find(id).unwrap()];
        assert_eq!(b.wander.unwrap().direction, Vec2::new(600, 800));
    }
}

#[test]
fn wander_turns_depend_on_the_seed() {
    let headings: Vec<Vec2> = [7u64, 8u64]
        .iter()
        .map(|&seed| {
            let mut world = World::new(PhysicsConfig::default(), 60, seed);
            spawn_player(&mut world).unwrap();
            let mut e = circle(300000, 300000);
            e.wander = Some(Wander { direction: Vec2::new(SCALE, 0), base_variation: MAX_VARIATION });
            let id = world.add_body(e).unwrap();
            for _ in 0..5 {
                world.step();
            }
            let h = world.bodies[world.find(id).unwrap()].wander.unwrap().direction;
            assert!(h.x.abs() <= SCALE && h.y.abs() <= SCALE);
            h
        })
        .collect();
    assert_ne!(headings[0], headings[1]);
    assert_ne!(headings[0], Vec2::new(SCALE, 0));
}

#[test]
fn random_wander_headings_are_unit_and_seeded() {
    let mut one = World::new(PhysicsConfig::default(), 60, 11);
    let mut two = World::new(PhysicsConfig::default(), 60, 12);
    let a = one.new_wander(300);
    let b = two.new_wander(300);
    assert_eq!(a.base_variation, 300);
    assert_ne!(a.direction, b.direction);
    for w in [a, b] {
        let len_sq = (w.direction.x as i64).pow(2) + (w.direction.y as i64).pow(2);
        assert!(len_sq <= SCALE * SCALE && len_sq >= (SCALE - 3) * (SCALE - 3));
    }
}

#[test]
fn turning_by_zero_keeps_heading_and_turns_stay_unit() {
    assert_eq!(turn_heading(Vec2::new(-600, 800), 0), Vec2::new(-600, 800));
    // a turn of a quarter circle: the half-angle tangent is 1
    assert_eq!(turn_heading(Vec2::new(SCALE, 0), 2000), Vec2::new(0, SCALE));
    let h = turn_heading(Vec2::new(SCALE, 0), 100);
    assert!(h.y > 0 && h.x > 990);
}

#[test]
fn seek_and_flee_point_at_and_away_from_target() {
    let mut b = circle(0, 0);
    b.seek = Some(Seek { distance: 100000 });
    steer(&mut b, Vec2::new(30000, 40000), &vec![], 0);
    assert_eq!(b.input.direction, Vec2::new(600, 800));
    let mut f = circle(0, 0);
    f.flee = Some(Flee { distance: 100000 });
    steer(&mut f, Vec2::new(30000, 40000), &vec![], 0);
    assert_eq!(f.input.direction, Vec2::new(-600, -800));
    let mut far = circle(0, 0);
    far.seek = Some(Seek { distance: 50000 });
    steer(&mut far, Vec2::new(30000, 40000), &vec![], 0);
    assert_eq!(far.input.direction, Vec2::new(0, 0));
}

#[test]
fn maintain_range_has_a_dead_band() {
    let target = Vec2::new(30000, 40000);
    let mut near = circle(0, 0);
    near.maintain_range = Some(MaintainRange { distance: 80000 });
    steer(&mut near, target, &vec![], 0);
    assert_eq!(near.input.direction, Vec2::new(-600, -800));
    let mut far = circle(0, 0);
    far.maintain_range = Some(MaintainRange { distance: 20000 });
    steer(&mut far, target, &vec![], 0);
    assert_eq!(far.input.direction, Vec2::new(600, 800));
    let mut fine = circle(0, 0);
    fine.maintain_range = Some(MaintainRange { distance: 54000 });
    steer(&mut fine, target, &vec![], 0);
    assert_eq!(fine.input.direction, Vec2::new(0, 0));
}

#[test]
fn avoidance_falls_off_with_clearance() {
    let allies = vec![
        Neighbor { position: Vec2::new(150000, 0), radius: 50000 },
        Neighbor { position: Vec2::new(0, 200000), radius: 50000 },
        Neighbor { position: Vec2::new(0, 0), radius: 50000 },
    ];
    let mut b = circle(0, 0);
    b.avoid_allies = Some(AvoidAllies { radius: 100000 });
    steer(&mut b, Vec2::new(0, 0), &allies, 0);
    // clearance 50000 of 100000: push of weight 2 * 0.5 away from the first;
    // the second is exactly at the radius and the third overlaps
    assert_eq!(b.input.direction, Vec2::new(-1000, 0));
}

#[test]
fn steering_system_reads_player_and_allies() {
    let mut world = World::new(PhysicsConfig::default(), 60, 3);
    spawn_player(&mut world).unwrap();
    let mut ally = circle(100000, -150000);
    ally.ally = Some(Ally);
    world.add_body(ally).unwrap();
    let mut e = circle(-130000, -150000);
    e.seek = Some(Seek { distance: 1000000 });
    e.avoid_allies = Some(AvoidAllies { radius: 300000 });
    let id = world.add_body(e).unwrap();
    world.enemy_steering_system();
    let b = world.bodies[world.find(id).unwrap()];
    // seek (1000, 0); the ally at 230000 leaves a clearance of 130000:
    // push 2 * 170000 / 300000 of a unit, away from it
    assert_eq!(b.input.direction, Vec2::new(1000 - 1133, 0));
    assert_eq!(world.bodies[0].input.direction, Vec2::new(0, 0));
}

#[test]
fn no_player_means_no_steering() {
    let mut world = World::new(PhysicsConfig::default(), 60, 3);
    let mut e = circle(0, 0);
    e.seek = Some(Seek { distance: 1000000 });
    e.input.direction = Vec2::new(5, 5);
    world.add_body(e).unwrap();
    world.enemy_steering_system();
    assert_eq!(world.bodies[0].input.direction, Vec2::new(5, 5));
}

#[test]
fn map_has_obstacle_and_four_bounds() {
    let mut world = World::new(PhysicsConfig::default(), 60, 0);
    spawn_map(&mut world);
    assert_eq!(world.bodies.len(), 5);
    let expect = [
        ((200000, 100000), (25000, 50000)),
        ((0, -600000), (700000, 100000)),
        ((0, 600000), (700000, 100000)),
        ((-600000, 0), (100000, 700000)),
        ((600000, 0), (100000, 700000)),
    ];
    for (i, ((x, y), (w, h))) in expect.iter().enumerate() {
        let b = world.bodies[i];
        assert_eq!(b.id, i as u64);
        assert!(!b.dynamic);
        assert_eq!(b.position, Vec2::new(*x, *y));
        assert_eq!(b.shape, ColliderShape::Rect { half_extents: Vec2::new(*w, *h) });
    }
}

#[test]
fn player_and_enemies_spawn_where_asked() {
    let mut world = World::new(PhysicsConfig::default(), 60, 0);
    let p = spawn_player(&mut world).unwrap();
    let pb = world.bodies[world.find(p).unwrap()];
    assert_eq!(pb.position, Vec2::new(0, -150000));
    assert_eq!(pb.player, Some(Player));
    assert_eq!(pb.shape, ColliderShape::Circle { radius: 50000 });
    assert_eq!(pb.health, Some(Health::new(100000)));
    let ev = spawn_enemy_on_key(true).unwrap();
    assert_eq!(ev, SpawnEnemiesEvent { count: 1, pos: Vec2::new(0, 0) });
    assert_eq!(spawn_enemy_on_key(false), None);
    let n = spawn_enemies_event_handler(
        &mut world,
        &vec![ev, SpawnEnemiesEvent { count: 2, pos: Vec2::new(10000, 0) }],
    );
    assert_eq!(n, 3);
    let xs: Vec<Vec2> = world.bodies[1..].iter().map(|b| b.position).collect();
    assert_eq!(xs, vec![Vec2::new(-200000, 150000), Vec2::new(-190000, 150000), Vec2::new(-110000, 150000)]);
    assert!(world.bodies[1..].iter().all(|b| b.enemy == Some(Enemy) && b.dynamic));
    let id = spawn_enemy(&mut world, Vec2::new(1, 2)).unwrap();
    assert_eq!(id, 4);
    assert_eq!(world.next_id, 5);
}

#[test]
fn despawn_removes_only_that_body() {
    let mut world = World::new(PhysicsConfig::default(), 60, 0);
    let a = world.add_body(circle(0, 0)).unwrap();
    let b = world.add_body(circle(1, 1)).unwrap();
    assert!(world.despawn(a));
    assert!(!world.despawn(a));
    assert_eq!(world.bodies.len(), 1);
    assert_eq!(world.bodies[0].id, b);
}

#[test]
fn health_changes_within_bounds() {
    let mut h = Health::new(100000);
    h.damage(30000);
    assert_eq!(h.current, 70000);
    h.heal(50000);
    assert_eq!(h.current, 100000);
    assert!(!h.is_dead());
    h.damage(250000);
    assert_eq!(h.current, 0);
    assert!(h.is_dead());
}

#[test]
fn player_hits_hurt_enemies() {
    let mut world = World::new(PhysicsConfig::default(), 60, 0);
    let p = spawn_player(&mut world).unwrap();
    let e = spawn_enemy(&mut world, Vec2::new(0, 0)).unwrap();
    let wall = world.add_body(Body::new(0, Vec2::new(0, 0), ColliderShape::Rect { half_extents: Vec2::new(1, 1) }, false)).unwrap();
    let events = vec![
        CollisionEvent::Started { a: p, b: e, impulse: 1, v_a_n: 250000, v_b_n: -7 },
        CollisionEvent::Started { a: e, b: p, impulse: 1, v_a_n: 5, v_b_n: -100 },
        CollisionEvent::Started { a: p, b: wall, impulse: 1, v_a_n: 250000, v_b_n: 0 },
        CollisionEvent::Stopped { a: p, b: e },
    ];
    let dmg = collision_to_damage(&events, &world.bodies, 500000);
    assert_eq!(
        dmg,
        vec![DamageEvent { victim: e, amount: 10000 }, DamageEvent { victim: e, amount: 0 }]
    );
    apply_damage(&mut world, &dmg);
    assert_eq!(world.bodies[world.find(e).unwrap()].health.unwrap().current, 90000);
    apply_damage(&mut world, &vec![DamageEvent { victim: e, amount: 90000 }, DamageEvent { victim: e, amount: 1 }]);
    assert!(world.find(e).is_none());
    assert_eq!(world.bodies.len(), 2);
}

#[test]
fn collision_phases_detect_then_emit() {
    let mut bodies = vec![circle(0, 0), circle(0, 90000), circle(0, 900000)];
    bodies[0].id = 1;
    bodies[1].id = 2;
    bodies[2].id = 3;
    bodies[0].velocity = Vec2::new(0, 10000);
    let mut contacts = Contacts::new();
    let none = run_collision_set(CollisionSet::Detect, &mut bodies, &mut contacts, 1000);
    assert!(none.is_empty());
    assert_eq!(contacts.current.len(), 1);
    // an overlap of 10 units, split evenly; equal masses swap their speeds
    assert_eq!(bodies[0].velocity, Vec2::new(0, 0));
    assert_eq!(bodies[1].velocity, Vec2::new(0, 10000));
    assert_eq!(bodies[0].position, Vec2::new(0, -5000));
    assert_eq!(bodies[1].position, Vec2::new(0, 95000));
    let events = run_collision_set(CollisionSet::EmitEvents, &mut bodies, &mut contacts, 1000);
    assert_eq!(
        events,
        vec![CollisionEvent::Started { a: 1, b: 2, impulse: 10000, v_a_n: 10000, v_b_n: 0 }]
    );
    assert_eq!(contacts.current.len(), 0);
    assert_eq!(contacts.prev.len(), 1);
}

#[test]
fn pair_record_follows_key_order() {
    let mut bodies = vec![circle(0, 0), circle(0, 90000)];
    bodies[0].id = 9;
    bodies[1].id = 4;
    bodies[0].velocity = Vec2::new(0, 10000);
    let mut current = ContactSet::new();
    circle_circle_collision_system(&mut bodies, &mut current, 500);
    assert_eq!(current.len(), 1);
    let entry = current.entries[0];
    assert_eq!(entry.key, ContactKey { a: 4, b: 9 });
    // body 4 was at rest, body 9 moved along the normal at 10 units/s
    assert_eq!((entry.data.v_a_n, entry.data.v_b_n), (0, 10000));
}
