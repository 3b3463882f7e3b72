//! Hit points, and the damage that collisions between the player and
//! enemies deal.
use crate::body::Body;
use crate::contacts::CollisionEvent;
use crate::fixed::{div_trunc, tdiv, LIMIT};
use crate::world::World;
use vstd::prelude::*;

verus! {

/// Hit points, in fixed point.
#[derive(Clone, Copy, PartialEq, Eq, Structural, Debug)]
pub struct Health {
    pub current: i64,
    pub max: i64,
}

impl Health {
    pub open spec fn wf(self) -> bool {
        0 <= self.current <= self.max <= LIMIT
    }

    /// Full health.
    pub fn new(max: i64) -> (r: Health)
        requires
            0 <= max <= LIMIT,
        ensures
            r.current == max,
            r.max == max,
            r.wf(),
    {
        Health { current: max, max }
    }

    pub fn is_dead(&self) -> (r: bool)
        ensures
            r == (self.current <= 0),
    {
        self.current <= 0
    }

    /// Loses `amt`, never going below zero.
    pub fn damage(&mut self, amt: i128)
        requires
            old(self).wf(),
            0 <= amt,
        ensures
            final(self).max == old(self).max,
            final(self).current == if old(self).current - amt > 0 {
                old(self).current - amt
            } else {
                0
            },
            final(self).wf(),
    {
        if self.current as i128 > amt {
            self.current = (self.current as i128 - amt) as i64;
        } else {
            self.current = 0;
        }
    }

    /// Gains `amt`, never going above the maximum.
    pub fn heal(&mut self, amt: i64)
        requires
            old(self).wf(),
            0 <= amt,
        ensures
            final(self).max == old(self).max,
            final(self).current == if old(self).current + amt < old(self).max {
                old(self).current + amt
            } else {
                old(self).max as int
            },
            final(self).wf(),
    {
        if amt < self.max - self.current {
            self.current = self.current + amt;
        } else {
            self.current = self.max;
        }
    }
}

/// Damage at full speed: 20 hit points.
pub const BASE_COLLISION_DAMAGE: i64 = 20000;

/// Damage for one body.
#[derive(Clone, Copy, PartialEq, Eq, Structural, Debug)]
pub struct DamageEvent {
    pub victim: u64,
    pub amount: i128,
}

/// Some body with handle `id` is the player (`player`) or an enemy.
pub open spec fn tagged(bs: Seq<Body>, id: u64, player: bool) -> bool {
    exists|k: int|
        0 <= k < bs.len() && bs[k].id == id && if player {
            bs[k].player is Some
        } else {
            bs[k].enemy is Some
        }
}

/// The damage a contact event deals: a Started contact between the player
/// and an enemy hurts the enemy in proportion to the player's speed along
/// the normal, relative to the top speed, and never heals.
pub open spec fn damage_of(ev: CollisionEvent, bs: Seq<Body>, max_speed: int) -> Option<DamageEvent> {
    match ev {
        CollisionEvent::Started { a, b, v_a_n, v_b_n, .. } => {
            let a_player = tagged(bs, a, true);
            let b_player = tagged(bs, b, true);
            let a_enemy = tagged(bs, a, false);
            let b_enemy = tagged(bs, b, false);
            if (a_player && b_enemy) || (a_enemy && b_player) {
                let victim = if a_enemy {
                    a
                } else {
                    b
                };
                let v_n = if a_player {
                    v_a_n
                } else {
                    v_b_n
                };
                let d = tdiv(v_n * BASE_COLLISION_DAMAGE, max_speed);
                Some(
                    DamageEvent {
                        victim,
                        amount: if d > 0 {
                            d as i128
                        } else {
                            0
                        },
                    },
                )
            } else {
                None
            }
        },
        CollisionEvent::Stopped { .. } => None,
    }
}

/// The damage that the events `evs` deal, in order.
pub open spec fn damages(evs: Seq<CollisionEvent>, bs: Seq<Body>, max_speed: int) -> Seq<DamageEvent>
    decreases evs.len(),
{
    if evs.len() == 0 {
        Seq::empty()
    } else {
        let rest = damages(evs.drop_last(), bs, max_speed);
        match damage_of(evs.last(), bs, max_speed) {
            Some(d) => rest.push(d),
            None => rest,
        }
    }
}

/// Whether some body with handle `id` carries the player (or enemy) marker.
fn is_tagged(bodies: &Vec<Body>, id: u64, player: bool) -> (r: bool)
    ensures
        r == tagged(bodies@, id, player),
{
    let mut i: usize = 0;
    while i < bodies.len()
        invariant
            0 <= i <= bodies@.len(),
            forall|k: int|
                0 <= k < i ==> !(bodies@[k].id == id && if player {
                    bodies@[k].player is Some
                } else {
                    bodies@[k].enemy is Some
                }),
        decreases bodies@.len() - i,
    {
        let b = &bodies[i];
        let hit = if player {
            b.player.is_some()
        } else {
            b.enemy.is_some()
        };
        if b.id == id && hit {
            return true;
        }
        i = i + 1;
    }
    false
}

/// The damage of one contact event; see `damage_of`.
fn damage_for(ev: CollisionEvent, bodies: &Vec<Body>, max_speed: i64) -> (r: Option<DamageEvent>)
    requires
        0 < max_speed,
    ensures
        r == damage_of(ev, bodies@, max_speed as int),
{
    match ev {
        CollisionEvent::Started { a, b, v_a_n, v_b_n, .. } => {
            let a_player = is_tagged(bodies, a, true);
            let b_player = is_tagged(bodies, b, true);
            let a_enemy = is_tagged(bodies, a, false);
            let b_enemy = is_tagged(bodies, b, false);
            if (a_player && b_enemy) || (a_enemy && b_player) {
                let victim = if a_enemy {
                    a
                } else {
                    b
                };
                let v_n = if a_player {
                    v_a_n
                } else {
                    v_b_n
                };
                let d = div_trunc(v_n as i128 * BASE_COLLISION_DAMAGE as i128, max_speed as i128);
                Some(
                    DamageEvent {
                        victim,
                        amount: if d > 0 {
                            d
                        } else {
                            0
                        },
                    },
                )
            } else {
                None
            }
        },
        CollisionEvent::Stopped { .. } => None,
    }
}

/// Turns this tick's contact events into damage: see `damage_of`.
pub fn collision_to_damage(events: &Vec<CollisionEvent>, bodies: &Vec<Body>, max_speed: i64) -> (r: Vec<
    DamageEvent,
>)
    requires
        0 < max_speed,
    ensures
        r@ == damages(events@, bodies@, max_speed as int),
{
    let mut out: Vec<DamageEvent> = Vec::new();
    let mut i: usize = 0;
    while i < events.len()
        invariant
            0 <= i <= events@.len(),
            0 < max_speed,
            out@ == damages(events@.subrange(0, i as int), bodies@, max_speed as int),
        decreases events@.len() - i,
    {
        assert(events@.subrange(0, i + 1).drop_last() == events@.subrange(0, i as int));
        match damage_for(events[i], bodies, max_speed) {
            Some(d) => out.push(d),
            None => {},
        }
        i = i + 1;
    }
    assert(events@.subrange(0, events@.len() as int) == events@);
    out
}

/// The index of the first body with handle `id`, or -1.
pub open spec fn first_index(bs: Seq<Body>, id: u64) -> int
    decreases bs.len(),
{
    if bs.len() == 0 {
        -1
    } else if first_index(bs.drop_last(), id) >= 0 {
        first_index(bs.drop_last(), id)
    } else if bs.last().id == id {
        bs.len() - 1
    } else {
        -1
    }
}

/// Health after losing `amt`.
pub open spec fn damaged(h: Health, amt: int) -> Health {
    Health {
        current: if h.current - amt > 0 {
            (h.current - amt) as i64
        } else {
            0
        },
        ..h
    }
}

/// The bodies after one damage event: the first body with the victim's
/// handle loses the amount if it has health, and is removed at zero.
pub open spec fn damage_step(bs: Seq<Body>, ev: DamageEvent) -> Seq<Body> {
    let i = first_index(bs, ev.victim);
    if i < 0 {
        bs
    } else {
        match bs[i].health {
            Some(h) => if damaged(h, ev.amount as int).current <= 0 {
                bs.remove(i)
            } else {
                bs.update(i, Body { health: Some(damaged(h, ev.amount as int)), ..bs[i] })
            },
            None => bs,
        }
    }
}

/// The bodies after the damage events `evs`, in order.
pub open spec fn after_damage(bs: Seq<Body>, evs: Seq<DamageEvent>) -> Seq<Body>
    decreases evs.len(),
{
    if evs.len() == 0 {
        bs
    } else {
        damage_step(after_damage(bs, evs.drop_last()), evs.last())
    }
}

proof fn lemma_first_index(bs: Seq<Body>, id: u64)
    ensures
        -1 <= first_index(bs, id) < bs.len(),
        first_index(bs, id) >= 0 ==> bs[first_index(bs, id)].id == id && forall|k: int|
            0 <= k < first_index(bs, id) ==> bs[k].id != id,
        first_index(bs, id) < 0 ==> forall|k: int| 0 <= k < bs.len() ==> bs[k].id != id,
    decreases bs.len(),
{
    if bs.len() > 0 {
        lemma_first_index(bs.drop_last(), id);
        assert forall|k: int| 0 <= k < bs.len() - 1 implies bs[k] == bs.drop_last()[k] by {}
    }
}

proof fn lemma_first_index_is(bs: Seq<Body>, id: u64, i: int)
    requires
        0 <= i < bs.len(),
        bs[i].id == id,
        forall|k: int| 0 <= k < i ==> bs[k].id != id,
    ensures
        first_index(bs, id) == i,
    decreases bs.len(),
{
    lemma_first_index(bs, id);
    if i < bs.len() - 1 {
        lemma_first_index_is(bs.drop_last(), id, i);
    } else {
        lemma_first_index(bs.drop_last(), id);
    }
}

/// Applies the damage events in order: each victim loses health, and one
/// that reaches zero is removed from the world.
pub fn apply_damage(world: &mut World, evs: &Vec<DamageEvent>)
    requires
        old(world).wf(),
        forall|k: int| 0 <= k < evs@.len() ==> (#[trigger] evs@[k]).amount >= 0,
    ensures
        final(world).wf(),
        final(world).bodies@ == after_damage(old(world).bodies@, evs@),
        final(world).contacts == old(world).contacts,
        final(world).next_id == old(world).next_id,
{
    let mut e: usize = 0;
    while e < evs.len()
        invariant
            0 <= e <= evs@.len(),
            world.wf(),
            forall|k: int| 0 <= k < evs@.len() ==> (#[trigger] evs@[k]).amount >= 0,
            world.bodies@ == after_damage(old(world).bodies@, evs@.subrange(0, e as int)),
            world.contacts == old(world).contacts,
            world.next_id == old(world).next_id,
        decreases evs@.len() - e,
    {
        let ev = evs[e];
        assert(evs@.subrange(0, e + 1).drop_last() == evs@.subrange(0, e as int));
        let ghost before = world.bodies@;
        proof {
            lemma_first_index(before, ev.victim);
        }
        match world.find(ev.victim) {
            Some(i) => {
                proof {
                    lemma_first_index_is(before, ev.victim, i as int);
                }
                let mut b = world.bodies[i];
                assert(b.wf());
                match b.health {
                    Some(h) => {
                        let mut h2 = h;
                        h2.damage(ev.amount);
                        if h2.is_dead() {
                            world.despawn(ev.victim);
                            assert(world.bodies@ == before.remove(i as int)) by {
                                let k = choose|k: int|
                                    0 <= k < before.len() && before[k].id == ev.victim && (forall|j: int|
                                        0 <= j < k ==> before[j].id != ev.victim) && world.bodies@
                                        == before.remove(k);
                                if k > i {
                                    assert(before[k].id == ev.victim);
                                }
                                if k < i {
                                    assert(before[k].id != ev.victim);
                                }
                            }
                        } else {
                            b.health = Some(h2);
                            world.bodies.set(i, b);
                            assert(b.wf());
                            assert forall|k: int| 0 <= k < world.bodies@.len() implies (
                            #[trigger] world.bodies@[k]).wf() by {
                                if k != i {
                                    assert(world.bodies@[k] == before[k]);
                                }
                            }
                        }
                    },
                    None => {},
                }
            },
            None => {},
        }
        e = e + 1;
    }
    assert(evs@.subrange(0, evs@.len() as int) == evs@);
}

} // verus!
