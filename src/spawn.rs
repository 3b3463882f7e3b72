//! Building a world: the player, enemies and the walls of the map.
use crate::body::{Body, ColliderShape, Enemy, Player, AccumulatedInput, DEFAULT_MASS};
use crate::combat::Health;
use crate::fixed::{clamp_coord, clamp_vec, Vec2, LIMIT};
use crate::world::{World, MAX_BODIES};
use vstd::prelude::*;

verus! {

/// Radius of the player and of enemies: 50 units.
pub const CHARACTER_RADIUS: i64 = 50000;

/// Hit points of the player and of enemies: 100.
pub const CHARACTER_HEALTH: i64 = 100000;

/// Half the inner width of the arena: 500 units.
pub const WALL_HALF_W: i64 = 500000;

/// Half the inner height of the arena: 500 units.
pub const WALL_HALF_H: i64 = 500000;

/// Thickness of the bounding walls: 200 units.
pub const WALL_THICKNESS: i64 = 200000;

/// A request to spawn `count` enemies in a row around `pos`.
#[derive(Clone, Copy, PartialEq, Eq, Structural, Debug)]
pub struct SpawnEnemiesEvent {
    pub count: usize,
    pub pos: Vec2,
}

/// A dynamic circle of the character radius at rest at `pos`, with full
/// health and no behaviors.
pub open spec fn character_at(pos: Vec2) -> Body {
    Body {
        id: 0,
        position: pos,
        previous_position: pos,
        velocity: Vec2 { x: 0, y: 0 },
        acceleration: Vec2 { x: 0, y: 0 },
        input: AccumulatedInput { direction: Vec2 { x: 0, y: 0 }, samples: 0 },
        mass: DEFAULT_MASS,
        shape: ColliderShape::Circle { radius: CHARACTER_RADIUS },
        dynamic: true,
        player: None,
        enemy: None,
        ally: None,
        seek: None,
        flee: None,
        wander: None,
        maintain_range: None,
        avoid_allies: None,
        health: Some(Health { current: CHARACTER_HEALTH, max: CHARACTER_HEALTH }),
    }
}

/// The player's body at its start position, `(0, -150)`.
pub open spec fn player_body() -> Body {
    Body { player: Some(Player), ..character_at(Vec2 { x: 0, y: (-150000) as i64 }) }
}

/// An enemy's body at `pos`.
pub open spec fn enemy_body(pos: Vec2) -> Body {
    Body { enemy: Some(Enemy), ..character_at(pos) }
}

/// A static box centered at `center`.
pub open spec fn wall_body(center: Vec2, half: Vec2) -> Body {
    Body {
        id: 0,
        position: center,
        previous_position: center,
        velocity: Vec2 { x: 0, y: 0 },
        acceleration: Vec2 { x: 0, y: 0 },
        input: AccumulatedInput { direction: Vec2 { x: 0, y: 0 }, samples: 0 },
        mass: DEFAULT_MASS,
        shape: ColliderShape::Rect { half_extents: half },
        dynamic: false,
        player: None,
        enemy: None,
        ally: None,
        seek: None,
        flee: None,
        wander: None,
        maintain_range: None,
        avoid_allies: None,
        health: None,
    }
}

/// The walls of the map: an obstacle of 50 by 100 units at `(200, 100)`,
/// then the bottom, top, left and right bounds around the arena.
pub open spec fn map_walls() -> Seq<Body> {
    seq![
        wall_body(Vec2 { x: 200000, y: 100000 }, Vec2 { x: 25000, y: 50000 }),
        wall_body(Vec2 { x: 0, y: (-600000) as i64 }, Vec2 { x: 700000, y: 100000 }),
        wall_body(Vec2 { x: 0, y: 600000 }, Vec2 { x: 700000, y: 100000 }),
        wall_body(Vec2 { x: (-600000) as i64, y: 0 }, Vec2 { x: 100000, y: 700000 }),
        wall_body(Vec2 { x: 600000, y: 0 }, Vec2 { x: 100000, y: 700000 }),
    ]
}

/// `b` as it is stored under handle `id`.
pub open spec fn with_id(b: Body, id: int) -> Body {
    Body { id: id as u64, ..b }
}

/// Where the `i`-th enemy of a spawn request around `pos` goes: 80 units
/// apart from 200 units left of `pos`, 150 units above it.
pub open spec fn enemy_slot(pos: Vec2, i: int) -> Vec2 {
    clamp_vec(pos.x - 200000 + 80000 * i, pos.y + 150000)
}

/// The positions that the requests `evs` ask for, in order.
pub open spec fn spawn_positions(evs: Seq<SpawnEnemiesEvent>) -> Seq<Vec2>
    decreases evs.len(),
{
    if evs.len() == 0 {
        Seq::empty()
    } else {
        spawn_positions(evs.drop_last()) + Seq::new(
            evs.last().count as nat,
            |i: int| enemy_slot(evs.last().pos, i),
        )
    }
}

/// A dynamic circle of the character radius at rest at `pos`.
pub fn character(pos: Vec2) -> (r: Body)
    requires
        pos.within(LIMIT as int),
    ensures
        r == character_at(pos),
        r.wf(),
{
    let mut b = Body::new(0, pos, ColliderShape::Circle { radius: CHARACTER_RADIUS }, true);
    b.health = Some(Health::new(CHARACTER_HEALTH));
    b
}

/// A static box centered at `center`.
pub fn wall(center: Vec2, half: Vec2) -> (r: Body)
    requires
        center.within(LIMIT as int),
        0 < half.x <= crate::body::MAX_EXTENT,
        0 < half.y <= crate::body::MAX_EXTENT,
    ensures
        r == wall_body(center, half),
        r.wf(),
{
    Body::new(0, center, ColliderShape::Rect { half_extents: half }, false)
}

/// Adds the player; see `World::add_body` for when it is refused.
pub fn spawn_player(world: &mut World) -> (r: Option<u64>)
    requires
        old(world).wf(),
    ensures
        final(world).wf(),
        r == (if old(world).bodies@.len() < MAX_BODIES && old(world).next_id < u64::MAX {
            Some(old(world).next_id)
        } else {
            None::<u64>
        }),
        r is Some ==> final(world).bodies@ == old(world).bodies@.push(
            with_id(player_body(), old(world).next_id as int),
        ),
        r is None ==> final(world).bodies@ == old(world).bodies@,
{
    let mut b = character(Vec2 { x: 0, y: -150000 });
    b.player = Some(Player);
    world.add_body(b)
}

/// Adds an enemy at `pos`; see `World::add_body` for when it is refused.
pub fn spawn_enemy(world: &mut World, pos: Vec2) -> (r: Option<u64>)
    requires
        old(world).wf(),
        pos.within(LIMIT as int),
    ensures
        final(world).wf(),
        final(world).next_id == old(world).next_id + if r is Some {
            1int
        } else {
            0int
        },
        r == (if old(world).bodies@.len() < MAX_BODIES && old(world).next_id < u64::MAX {
            Some(old(world).next_id)
        } else {
            None::<u64>
        }),
        r is Some ==> final(world).bodies@ == old(world).bodies@.push(
            with_id(enemy_body(pos), old(world).next_id as int),
        ),
        r is None ==> final(world).bodies@ == old(world).bodies@,
{
    let mut b = character(pos);
    b.enemy = Some(Enemy);
    world.add_body(b)
}

/// Adds the walls of the map, under consecutive handles.
pub fn spawn_map(world: &mut World)
    requires
        old(world).wf(),
        old(world).bodies@.len() + 5 <= MAX_BODIES,
        old(world).next_id + 5 <= u64::MAX,
    ensures
        final(world).wf(),
        final(world).next_id == old(world).next_id + 5,
        final(world).bodies@ == old(world).bodies@ + Seq::new(
            5,
            |k: int| with_id(map_walls()[k], old(world).next_id + k),
        ),
{
    let ghost b0 = world.bodies@;
    let ghost id0 = world.next_id as int;
    world.add_body(wall(Vec2 { x: 200000, y: 100000 }, Vec2 { x: 25000, y: 50000 }));
    let horizontal = Vec2 { x: WALL_HALF_W + WALL_THICKNESS, y: WALL_THICKNESS / 2 };
    let vertical = Vec2 { x: WALL_THICKNESS / 2, y: WALL_HALF_H + WALL_THICKNESS };
    world.add_body(wall(Vec2 { x: 0, y: -WALL_HALF_H - WALL_THICKNESS / 2 }, horizontal));
    world.add_body(wall(Vec2 { x: 0, y: WALL_HALF_H + WALL_THICKNESS / 2 }, horizontal));
    world.add_body(wall(Vec2 { x: -WALL_HALF_W - WALL_THICKNESS / 2, y: 0 }, vertical));
    world.add_body(wall(Vec2 { x: WALL_HALF_W + WALL_THICKNESS / 2, y: 0 }, vertical));
    assert(world.bodies@ =~= b0 + Seq::new(5, |k: int| with_id(map_walls()[k], id0 + k)));
}

/// A spawn request for one enemy when the spawn key was just pressed.
pub fn spawn_enemy_on_key(just_pressed: bool) -> (r: Option<SpawnEnemiesEvent>)
    ensures
        r == (if just_pressed {
            Some(SpawnEnemiesEvent { count: 1, pos: Vec2 { x: 0, y: 0 } })
        } else {
            None::<SpawnEnemiesEvent>
        }),
{
    if just_pressed {
        Some(SpawnEnemiesEvent { count: 1, pos: Vec2 { x: 0, y: 0 } })
    } else {
        None
    }
}

/// How many more bodies `world` takes.
pub open spec fn room(world: World) -> int {
    let by_len = MAX_BODIES - world.bodies@.len();
    let by_id = u64::MAX - world.next_id;
    if by_len < by_id {
        by_len
    } else {
        by_id
    }
}

/// Spawns the enemies that `evs` ask for, in order, until the world is full;
/// returns how many it spawned.
pub fn spawn_enemies_event_handler(world: &mut World, evs: &Vec<SpawnEnemiesEvent>) -> (r: usize)
    requires
        old(world).wf(),
        forall|k: int| 0 <= k < evs@.len() ==> (#[trigger] evs@[k]).pos.within(LIMIT as int),
    ensures
        final(world).wf(),
        r == (if spawn_positions(evs@).len() < room(*old(world)) {
            spawn_positions(evs@).len() as int
        } else {
            room(*old(world))
        }),
        final(world).next_id == old(world).next_id + r,
        final(world).bodies@ == old(world).bodies@ + Seq::new(
            r as nat,
            |k: int| with_id(enemy_body(spawn_positions(evs@)[k]), old(world).next_id + k),
        ),
{
    let ghost b0 = world.bodies@;
    let ghost id0 = world.next_id as int;
    let ghost room0 = room(*world);
    let ghost all = spawn_positions(evs@);
    let mut spawned: usize = 0;
    let mut e: usize = 0;
    proof {
        lemma_positions_prefix(evs@, 0);
        assert(evs@.subrange(0, 0) =~= Seq::<SpawnEnemiesEvent>::empty());
    }
    while e < evs.len()
        invariant
            world.wf(),
            0 <= e <= evs@.len(),
            all == spawn_positions(evs@),
            forall|k: int| 0 <= k < evs@.len() ==> (#[trigger] evs@[k]).pos.within(LIMIT as int),
            room0 == room(*old(world)),
            b0 == old(world).bodies@,
            id0 == old(world).next_id,
            spawned == spawn_positions(evs@.subrange(0, e as int)).len(),
            spawned <= all.len(),
            spawned <= room0,
            world.next_id == id0 + spawned,
            world.bodies@.len() == b0.len() + spawned,
            world.bodies@ =~= b0 + Seq::new(
                spawned as nat,
                |k: int| with_id(enemy_body(all[k]), id0 + k),
            ),
        decreases evs@.len() - e,
    {
        let ev = evs[e];
        proof {
            lemma_positions_split(evs@, e as int);
        }
        let ghost base = spawned as int;
        let mut i: usize = 0;
        while i < ev.count
            invariant
                world.wf(),
                0 <= i <= ev.count,
                ev.pos.within(LIMIT as int),
                all == spawn_positions(evs@),
                room0 == room(*old(world)),
                b0 == old(world).bodies@,
                id0 == old(world).next_id,
                0 <= base,
                base + ev.count <= all.len(),
                forall|j: int| 0 <= j < ev.count ==> #[trigger] all[base + j] == enemy_slot(ev.pos, j),
                spawned == base + i,
                spawned <= room0,
                world.next_id == id0 + spawned,
                world.bodies@.len() == b0.len() + spawned,
                world.bodies@ =~= b0 + Seq::new(
                    spawned as nat,
                    |k: int| with_id(enemy_body(all[k]), id0 + k),
                ),
            decreases ev.count - i,
        {
            if world.bodies.len() >= MAX_BODIES || world.next_id == u64::MAX {
                assert(spawned == room0);
                return spawned;
            }
            assert(i < 65536);
            let pos = Vec2 {
                x: clamp_coord(ev.pos.x - 200000 + 80000 * (i as i64)),
                y: clamp_coord(ev.pos.y + 150000),
            };
            assert(pos == all[base + i]);
            let ghost before = world.bodies@;
            spawn_enemy(world, pos);
            spawned = spawned + 1;
            i = i + 1;
        }
        proof {
            assert(evs@.subrange(0, e + 1).drop_last() == evs@.subrange(0, e as int));
            assert(evs@.subrange(0, e + 1).last() == ev);
        }
        e = e + 1;
    }
    assert(evs@.subrange(0, evs@.len() as int) == evs@);
    spawned
}

/// The positions of the first `e` requests lead those of all of them.
proof fn lemma_positions_prefix(evs: Seq<SpawnEnemiesEvent>, e: int)
    requires
        0 <= e <= evs.len(),
    ensures
        spawn_positions(evs.subrange(0, e)).len() <= spawn_positions(evs).len(),
        forall|k: int|
            0 <= k < spawn_positions(evs.subrange(0, e)).len() ==> #[trigger] spawn_positions(
                evs.subrange(0, e),
            )[k] == spawn_positions(evs)[k],
    decreases evs.len() - e,
{
    if e < evs.len() {
        lemma_positions_prefix(evs, e + 1);
        let s = evs.subrange(0, e + 1);
        assert(s.drop_last() == evs.subrange(0, e));
        let a = spawn_positions(evs.subrange(0, e));
        assert(spawn_positions(s) == a + Seq::new(
            s.last().count as nat,
            |i: int| enemy_slot(s.last().pos, i),
        ));
        assert forall|k: int| 0 <= k < a.len() implies #[trigger] a[k] == spawn_positions(evs)[k] by {
            assert(spawn_positions(s)[k] == a[k]);
        }
    } else {
        assert(evs.subrange(0, e) == evs);
    }
}

/// Request `e` takes the positions right after those of the requests before it.
proof fn lemma_positions_split(evs: Seq<SpawnEnemiesEvent>, e: int)
    requires
        0 <= e < evs.len(),
    ensures
        spawn_positions(evs.subrange(0, e)).len() + evs[e].count <= spawn_positions(evs).len(),
        forall|j: int|
            0 <= j < evs[e].count ==> #[trigger] spawn_positions(evs)[spawn_positions(
                evs.subrange(0, e),
            ).len() + j] == enemy_slot(evs[e].pos, j),
        spawn_positions(evs.subrange(0, e + 1)).len() == spawn_positions(evs.subrange(0, e)).len()
            + evs[e].count,
{
    lemma_positions_prefix(evs, e + 1);
    let s = evs.subrange(0, e + 1);
    assert(s.drop_last() == evs.subrange(0, e));
    assert(s.last() == evs[e]);
    let d = spawn_positions(evs.subrange(0, e));
    assert(spawn_positions(s) == d + Seq::new(evs[e].count as nat, |i: int| enemy_slot(evs[e].pos, i)));
    assert forall|j: int| 0 <= j < evs[e].count implies #[trigger] spawn_positions(evs)[d.len() + j]
        == enemy_slot(evs[e].pos, j) by {
        assert(spawn_positions(s)[d.len() + j] == enemy_slot(evs[e].pos, j));
    }
}

} // verus!
