//! The simulation object: it owns the bodies, the contact double buffer, the
//! tunables and the random source, and runs the phases of a tick in order.
use crate::body::{Body, ColliderShape};
use crate::config::PhysicsConfig;
use crate::contacts::{transition_events, CollisionEvent, ContactEntry, Contacts};
use crate::fixed::{div_trunc, tdiv, Vec2, LIMIT, SCALE};
use crate::integrator::{advance_physics, integrated};
use crate::rng::random_in;
use crate::steering::{steer, steered, turn_heading, turned, Neighbor, Wander, MAX_NEIGHBORS, MAX_VARIATION};
use crate::systems::{all_wf, pairs_upto, run_collision_set, walls_upto, CollisionSet};
use vstd::prelude::*;

verus! {

/// The most bodies a world holds.
pub const MAX_BODIES: usize = 65536;

/// Every body after integration: dynamic ones advanced, static ones kept.
pub open spec fn advanced(bs: Seq<Body>, cfg: PhysicsConfig, hz: int) -> Seq<Body> {
    Seq::new(
        bs.len(),
        |i: int|
            if bs[i].dynamic {
                integrated(bs[i], cfg, hz)
            } else {
                bs[i]
            },
    )
}

/// The bodies and the contact set after the collision phases of a tick.
pub open spec fn collided(bs: Seq<Body>, e: int) -> (Seq<Body>, Seq<ContactEntry>) {
    let n = bs.len() as int;
    pairs_upto(walls_upto((bs, Seq::empty()), n, n, 0, e), n, n, 0, e)
}

/// How many bodies carry the player marker.
pub open spec fn player_count(bs: Seq<Body>) -> nat
    decreases bs.len(),
{
    if bs.len() == 0 {
        0
    } else {
        player_count(bs.drop_last()) + if bs.last().player.is_some() {
            1nat
        } else {
            0nat
        }
    }
}

/// The position of the last body with the player marker.
pub open spec fn player_position(bs: Seq<Body>) -> Vec2
    decreases bs.len(),
{
    if bs.len() == 0 {
        Vec2 { x: 0, y: 0 }
    } else if bs.last().player.is_some() {
        bs.last().position
    } else {
        player_position(bs.drop_last())
    }
}

/// The allies that avoiding bodies keep clear of: circles with the ally
/// marker, in order.
pub open spec fn neighbors(bs: Seq<Body>) -> Seq<Neighbor>
    decreases bs.len(),
{
    if bs.len() == 0 {
        Seq::empty()
    } else {
        let rest = neighbors(bs.drop_last());
        let b = bs.last();
        match b.shape {
            ColliderShape::Circle { radius } => if b.ally.is_some() {
                rest.push(Neighbor { position: b.position, radius })
            } else {
                rest
            },
            ColliderShape::Rect { .. } => rest,
        }
    }
}

/// Bodies that steering writes to: the dynamic ones other than the player.
pub open spec fn governed(b: Body) -> bool {
    b.dynamic && b.player.is_none()
}

/// The largest wander draw of a body, zero without wander.
pub open spec fn variation(b: Body) -> int {
    match b.wander {
        Some(w) => w.base_variation as int,
        None => 0,
    }
}

/// What steering may have done to `old`, giving `new`: with exactly one
/// player, each governed body is steered toward it with a wander turn of
/// `d / hz` for some draw `d` within its variation, and every other body is
/// kept; without exactly one player nothing changes.
pub open spec fn steering_outcome(old: Seq<Body>, new: Seq<Body>, hz: int) -> bool {
    &&& new.len() == old.len()
    &&& player_count(old) != 1 ==> new == old
    &&& player_count(old) == 1 ==> forall|i: int|
        0 <= i < old.len() ==> if governed(#[trigger] old[i]) {
            exists|d: int|
                -variation(old[i]) <= d <= variation(old[i]) && new[i] == steered(
                    old[i],
                    player_position(old),
                    neighbors(old),
                    tdiv(d, hz),
                )
        } else {
            new[i] == old[i]
        }
}

proof fn lemma_prefix_step(bs: Seq<Body>, i: int)
    requires
        0 <= i < bs.len(),
    ensures
        bs.subrange(0, i + 1).drop_last() == bs.subrange(0, i),
        bs.subrange(0, i + 1).last() == bs[i],
{
    assert(bs.subrange(0, i + 1).drop_last() =~= bs.subrange(0, i));
}

proof fn lemma_neighbors_len(bs: Seq<Body>)
    ensures
        neighbors(bs).len() <= bs.len(),
        forall|k: int|
            0 <= k < neighbors(bs).len() ==> exists|j: int|
                0 <= j < bs.len() && (#[trigger] neighbors(bs)[k]).position == bs[j].position
                    && neighbors(bs)[k].radius == bs[j].radius(),
    decreases bs.len(),
{
    if bs.len() > 0 {
        let r = bs.drop_last();
        lemma_neighbors_len(r);
        assert forall|k: int| 0 <= k < neighbors(bs).len() implies exists|j: int|
            0 <= j < bs.len() && (#[trigger] neighbors(bs)[k]).position == bs[j].position
                && neighbors(bs)[k].radius == bs[j].radius() by {
            if k < neighbors(r).len() {
                let j = choose|j: int|
                    0 <= j < r.len() && (#[trigger] neighbors(r)[k]).position == r[j].position
                        && neighbors(r)[k].radius == r[j].radius();
                assert(bs[j] == r[j]);
            } else {
                assert(bs[bs.len() - 1] == bs.last());
            }
        }
    }
}

/// Within one tick, a body whose wander has zero variation keeps its
/// heading, whatever the random source drew.
pub proof fn lemma_still_wander_tick(old: Seq<Body>, new: Seq<Body>, hz: int, i: int)
    requires
        steering_outcome(old, new, hz),
        hz >= 1,
        0 <= i < old.len(),
        old[i].wander matches Some(w) && w.base_variation == 0,
    ensures
        new[i].wander == old[i].wander,
{
    if player_count(old) == 1 && governed(old[i]) {
        let d = choose|d: int|
            -variation(old[i]) <= d <= variation(old[i]) && new[i] == steered(
                old[i],
                player_position(old),
                neighbors(old),
                tdiv(d, hz),
            );
        crate::fixed::lemma_tdiv(0, hz);
    }
}

/// A simulation: bodies addressed by stable handles, the contacts of this
/// tick and the last, the tunables, the tick rate and the random source.
pub struct World {
    pub bodies: Vec<Body>,
    pub contacts: Contacts,
    pub config: PhysicsConfig,
    /// Ticks per second; one tick lasts `1 / tick_hz` seconds.
    pub tick_hz: i64,
    /// The handle the next body gets.
    pub next_id: u64,
    pub rng: fastrand::Rng,
}

impl World {
    pub open spec fn wf(&self) -> bool {
        &&& self.config.wf()
        &&& 1 <= self.tick_hz
        &&& all_wf(self.bodies@)
        &&& self.bodies@.len() <= MAX_BODIES
        &&& self.contacts.wf()
        &&& self.contacts.current@.len() == 0
    }

    /// An empty world.
    pub fn new(config: PhysicsConfig, tick_hz: i64, seed: u64) -> (r: World)
        requires
            config.wf(),
            1 <= tick_hz,
        ensures
            r.wf(),
            r.bodies@.len() == 0,
            r.contacts.prev@.len() == 0,
            r.config == config,
            r.tick_hz == tick_hz,
            r.next_id == 0,
    {
        World {
            bodies: Vec::new(),
            contacts: Contacts::new(),
            config,
            tick_hz,
            next_id: 0,
            rng: fastrand::Rng::with_seed(seed),
        }
    }

    /// Adds `b` under a fresh handle, which it returns; `None`, and no change,
    /// when the world is full or out of handles.
    pub fn add_body(&mut self, b: Body) -> (r: Option<u64>)
        requires
            old(self).wf(),
            b.wf(),
        ensures
            final(self).wf(),
            final(self).contacts == old(self).contacts,
            final(self).config == old(self).config,
            final(self).tick_hz == old(self).tick_hz,
            r == (if old(self).bodies@.len() < MAX_BODIES && old(self).next_id < u64::MAX {
                Some(old(self).next_id)
            } else {
                None::<u64>
            }),
            r is Some ==> final(self).bodies@ == old(self).bodies@.push(Body { id: old(self).next_id, ..b })
                && final(self).next_id == old(self).next_id + 1,
            r is None ==> final(self).bodies@ == old(self).bodies@ && final(self).next_id == old(
                self,
            ).next_id,
    {
        if self.bodies.len() >= MAX_BODIES || self.next_id == u64::MAX {
            return None;
        }
        let id = self.next_id;
        self.bodies.push(Body { id, ..b });
        self.next_id = id + 1;
        proof {
            assert(self.bodies@[self.bodies@.len() - 1] == Body { id, ..b });
            assert forall|k: int| 0 <= k < self.bodies@.len() implies (#[trigger] self.bodies@[k]).wf() by {
                if k < old(self).bodies@.len() {
                    assert(self.bodies@[k] == old(self).bodies@[k]);
                }
            }
        }
        Some(id)
    }

    /// Where the body with handle `id` is in `bodies`, if it is there.
    pub fn find(&self, id: u64) -> (r: Option<usize>)
        ensures
            match r {
                Some(i) => i < self.bodies@.len() && self.bodies@[i as int].id == id && forall|k: int|
                    0 <= k < i ==> self.bodies@[k].id != id,
                None => forall|k: int| 0 <= k < self.bodies@.len() ==> self.bodies@[k].id != id,
            },
    {
        let mut i: usize = 0;
        while i < self.bodies.len()
            invariant
                0 <= i <= self.bodies@.len(),
                forall|k: int| 0 <= k < i ==> self.bodies@[k].id != id,
            decreases self.bodies@.len() - i,
        {
            if self.bodies[i].id == id {
                return Some(i);
            }
            i = i + 1;
        }
        None
    }

    /// Removes the body with handle `id`; false when there is none.
    pub fn despawn(&mut self, id: u64) -> (r: bool)
        requires
            old(self).wf(),
        ensures
            final(self).wf(),
            final(self).contacts == old(self).contacts,
            final(self).next_id == old(self).next_id,
            r == exists|k: int| 0 <= k < old(self).bodies@.len() && old(self).bodies@[k].id == id,
            r ==> exists|k: int|
                0 <= k < old(self).bodies@.len() && old(self).bodies@[k].id == id && (forall|j: int|
                    0 <= j < k ==> old(self).bodies@[j].id != id) && final(self).bodies@
                    == old(self).bodies@.remove(k),
            !r ==> final(self).bodies@ == old(self).bodies@,
    {
        match self.find(id) {
            Some(i) => {
                let ghost before = self.bodies@;
                self.bodies.remove(i);
                proof {
                    assert(self.bodies@ == before.remove(i as int));
                    assert forall|k: int| 0 <= k < self.bodies@.len() implies (#[trigger] self.bodies@[k]).wf() by {
                        if k < i {
                            assert(self.bodies@[k] == before[k]);
                        } else {
                            assert(self.bodies@[k] == before[k + 1]);
                        }
                    }
                }
                true
            },
            None => false,
        }
    }

    /// The integration, detection, resolution and event phases of one tick:
    /// every dynamic body is advanced, each mover is tested against each
    /// wall, each pair of movers against each other, and the transitions of
    /// this tick's contacts against the last tick's are returned.
    pub fn physics_step(&mut self) -> (events: Vec<CollisionEvent>)
        requires
            old(self).wf(),
        ensures
            final(self).wf(),
            ({
                let after = collided(
                    advanced(old(self).bodies@, old(self).config, old(self).tick_hz as int),
                    old(self).config.restitution as int,
                );
                &&& final(self).bodies@ == after.0
                &&& final(self).contacts.prev@ == after.1
                &&& events@ == transition_events(after.1, old(self).contacts.prev@)
            }),
            final(self).config == old(self).config,
            final(self).tick_hz == old(self).tick_hz,
            final(self).next_id == old(self).next_id,
    {
        let ghost b0 = self.bodies@;
        advance_physics(&mut self.bodies, &self.config, self.tick_hz);
        assert(self.bodies@ == advanced(b0, self.config, self.tick_hz as int));
        let e = self.config.restitution;
        assert(self.contacts.current@ == Seq::<ContactEntry>::empty());
        run_collision_set(CollisionSet::Detect, &mut self.bodies, &mut self.contacts, e);
        run_collision_set(CollisionSet::EmitEvents, &mut self.bodies, &mut self.contacts, e)
    }

    /// The steering phase: with exactly one player, every governed body gets
    /// its wander turn drawn from the random source and its input written
    /// from its behaviors, toward or away from the player's position.
    pub fn enemy_steering_system(&mut self)
        requires
            old(self).wf(),
        ensures
            final(self).wf(),
            steering_outcome(old(self).bodies@, final(self).bodies@, old(self).tick_hz as int),
            final(self).contacts == old(self).contacts,
            final(self).config == old(self).config,
            final(self).tick_hz == old(self).tick_hz,
            final(self).next_id == old(self).next_id,
    {
        let ghost b0 = self.bodies@;
        let n = self.bodies.len();
        let mut count: usize = 0;
        let mut target = Vec2 { x: 0, y: 0 };
        let mut ns: Vec<Neighbor> = Vec::new();
        let mut i: usize = 0;
        while i < n
            invariant
                n == self.bodies@.len(),
                self.bodies@ == b0,
                self.wf(),
                self.contacts == old(self).contacts,
                self.config == old(self).config,
                self.tick_hz == old(self).tick_hz,
                self.next_id == old(self).next_id,
                0 <= i <= n,
                count == player_count(b0.subrange(0, i as int)),
                count <= i,
                target == player_position(b0.subrange(0, i as int)),
                target.within(LIMIT as int),
                ns@ == neighbors(b0.subrange(0, i as int)),
            decreases n - i,
        {
            proof {
                lemma_prefix_step(b0, i as int);
            }
            let b = self.bodies[i];
            assert(b.wf());
            if b.player.is_some() {
                count = count + 1;
                target = b.position;
            }
            match b.shape {
                ColliderShape::Circle { radius } => {
                    if b.ally.is_some() {
                        ns.push(Neighbor { position: b.position, radius });
                    }
                },
                ColliderShape::Rect { .. } => {},
            }
            i = i + 1;
        }
        proof {
            assert(b0.subrange(0, n as int) == b0);
            lemma_neighbors_len(b0);
            assert forall|k: int| 0 <= k < ns@.len() implies (#[trigger] ns@[k]).wf() by {
                let j = choose|j: int|
                    0 <= j < b0.len() && (#[trigger] neighbors(b0)[k]).position == b0[j].position
                        && neighbors(b0)[k].radius == b0[j].radius();
                assert(b0[j].wf());
            }
        }
        if count != 1 {
            return;
        }
        let hz = self.tick_hz;
        let mut i: usize = 0;
        while i < n
            invariant
                n == self.bodies@.len(),
                n == b0.len(),
                self.wf(),
                self.contacts == old(self).contacts,
                self.config == old(self).config,
                self.tick_hz == old(self).tick_hz,
                self.next_id == old(self).next_id,
                player_count(b0) == 1,
                target == player_position(b0),
                target.within(LIMIT as int),
                ns@ == neighbors(b0),
                ns@.len() <= MAX_NEIGHBORS,
                forall|k: int| 0 <= k < ns@.len() ==> (#[trigger] ns@[k]).wf(),
                hz == self.tick_hz,
                0 <= i <= n,
                forall|k: int| i <= k < n ==> #[trigger] self.bodies@[k] == b0[k],
                forall|k: int|
                    0 <= k < i ==> if governed(#[trigger] b0[k]) {
                        exists|d: int|
                            -variation(b0[k]) <= d <= variation(b0[k]) && self.bodies@[k] == steered(
                                b0[k],
                                target,
                                ns@,
                                tdiv(d, hz as int),
                            )
                    } else {
                        self.bodies@[k] == b0[k]
                    },
            decreases n - i,
        {
            let mut b = self.bodies[i];
            assert(b.wf());
            if b.dynamic && b.player.is_none() {
                let (d, turn) = match b.wander {
                    Some(w) => {
                        let d = random_in(&mut self.rng, -w.base_variation, w.base_variation);
                        proof {
                            crate::fixed::lemma_tdiv(d as int, hz as int);
                        }
                        (d, div_trunc(d as i128, hz as i128) as i64)
                    },
                    None => {
                        proof {
                            crate::fixed::lemma_tdiv(0, hz as int);
                        }
                        (0, 0)
                    },
                };
                steer(&mut b, target, &ns, turn);
                self.bodies.set(i, b);
                assert(self.bodies@[i as int] == steered(b0[i as int], target, ns@, tdiv(d as int, hz as int)));
            }
            i = i + 1;
        }
    }

    /// One fixed tick: steering, then integration, detection, resolution and
    /// the contact events, which it returns.
    pub fn step(&mut self) -> (events: Vec<CollisionEvent>)
        requires
            old(self).wf(),
        ensures
            final(self).wf(),
            exists|s: Seq<Body>|
                steering_outcome(old(self).bodies@, s, old(self).tick_hz as int) && ({
                    let after = collided(
                        advanced(s, old(self).config, old(self).tick_hz as int),
                        old(self).config.restitution as int,
                    );
                    &&& final(self).bodies@ == after.0
                    &&& final(self).contacts.prev@ == after.1
                    &&& events@ == transition_events(after.1, old(self).contacts.prev@)
                }),
            final(self).config == old(self).config,
            final(self).tick_hz == old(self).tick_hz,
            final(self).next_id == old(self).next_id,
    {
        self.enemy_steering_system();
        let ghost s = self.bodies@;
        let events = self.physics_step();
        assert(steering_outcome(old(self).bodies@, s, old(self).tick_hz as int));
        events
    }
    /// A wander behavior with a random heading: the unit x axis turned by a
    /// turn drawn from the random source, which covers every direction but a
    /// sliver around the negative x axis.
    pub fn new_wander(&mut self, base_variation: i64) -> (r: Wander)
        requires
            old(self).wf(),
            0 <= base_variation <= MAX_VARIATION,
        ensures
            final(self).wf(),
            final(self).bodies == old(self).bodies,
            final(self).contacts == old(self).contacts,
            final(self).config == old(self).config,
            final(self).tick_hz == old(self).tick_hz,
            final(self).next_id == old(self).next_id,
            r.wf(),
            r.base_variation == base_variation,
            exists|a: int|
                -MAX_VARIATION <= a <= MAX_VARIATION && r.direction == turned(
                    Vec2 { x: SCALE, y: 0 },
                    a,
                ),
    {
        let a = random_in(&mut self.rng, -MAX_VARIATION, MAX_VARIATION);
        Wander { direction: turn_heading(Vec2 { x: SCALE, y: 0 }, a), base_variation }
    }
}

} // verus!
