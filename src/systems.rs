//! The collision phases over every body: each pair is tested and resolved in
//! turn, and each contact is recorded in this tick's contact set.
use crate::body::{Body, ColliderShape};
use crate::collision::{
    circle_circle_contact, circle_circle_contact_data, circle_rect_contact, circle_vs_circle,
    circle_vs_rect, circle_wall_contact_data, circles_bounce, circles_contact_data, circles_separated,
    moved_along, resolve_circle_circle, resolve_circle_wall, wall_bounce, wall_contact_data,
};
use crate::contacts::{
    emit_collision_events, inserted, orient, oriented, ordered_pair, pair_key, transition_events, CollisionEvent, ContactEntry,
    ContactSet, Contacts,
};
use crate::fixed::SCALE;
use vstd::prelude::*;

verus! {

/// Bodies and this tick's contacts while a phase runs.
pub type PhaseState = (Seq<Body>, Seq<ContactEntry>);

/// Mover `i` tested against wall `j`: a dynamic circle and a static box that
/// touch have the circle bounced and pushed out, and the contact recorded
/// under the pair's key with each normal speed beside its body's handle.
pub open spec fn wall_step(st: PhaseState, i: int, j: int, e: int) -> PhaseState {
    let bs = st.0;
    let m = bs[i];
    let w = bs[j];
    if m.dynamic && !w.dynamic {
        match (m.shape, w.shape) {
            (ColliderShape::Circle { radius }, ColliderShape::Rect { half_extents }) => {
                match circle_rect_contact(m.position, radius as int, w.position, half_extents) {
                    Some(c) => {
                        let data = wall_contact_data(m.velocity, m.mass as int, c.normal, e);
                        let nb = Body {
                            velocity: wall_bounce(m.velocity, c.normal, e),
                            position: moved_along(m.position, c.normal, c.penetration as int),
                            ..m
                        };
                        (bs.update(i, nb), inserted(st.1, pair_key(m.id, w.id), oriented(data, m.id, w.id)))
                    },
                    None => st,
                }
            },
            _ => st,
        }
    } else {
        st
    }
}

/// The state after testing, in order, every mover before `i` against every
/// body, and mover `i` against the bodies before `j`.
pub open spec fn walls_upto(st: PhaseState, n: int, i: int, j: int, e: int) -> PhaseState
    decreases i, j,
{
    if i <= 0 && j <= 0 {
        st
    } else if j <= 0 {
        walls_upto(st, n, i - 1, n, e)
    } else {
        wall_step(walls_upto(st, n, i, j - 1, e), i, j - 1, e)
    }
}

/// Circles `i` and `j` tested against each other: two dynamic circles that
/// overlap get their impulse and separation, and the contact is recorded
/// under the pair's key with each normal speed beside its body's handle.
pub open spec fn pair_step(st: PhaseState, i: int, j: int, e: int) -> PhaseState {
    let bs = st.0;
    let b1 = bs[i];
    let b2 = bs[j];
    if b1.dynamic && b2.dynamic {
        match (b1.shape, b2.shape) {
            (ColliderShape::Circle { radius: r1 }, ColliderShape::Circle { radius: r2 }) => {
                match circle_circle_contact(b1.position, r1 as int, b2.position, r2 as int) {
                    Some(c) => {
                        let data = circles_contact_data(
                            b1.velocity,
                            b2.velocity,
                            b1.mass as int,
                            b2.mass as int,
                            c.normal,
                            e,
                        );
                        let v = circles_bounce(
                            b1.velocity,
                            b1.mass as int,
                            b2.velocity,
                            b2.mass as int,
                            c.normal,
                            e,
                        );
                        let p = circles_separated(
                            b1.position,
                            b1.mass as int,
                            b2.position,
                            b2.mass as int,
                            c.normal,
                            c.penetration as int,
                        );
                        (
                            bs.update(i, Body { position: p.0, velocity: v.0, ..b1 }).update(
                                j,
                                Body { position: p.1, velocity: v.1, ..b2 },
                            ),
                            inserted(st.1, pair_key(b1.id, b2.id), oriented(data, b1.id, b2.id)),
                        )
                    },
                    None => st,
                }
            },
            _ => st,
        }
    } else {
        st
    }
}

/// The state after testing, in order, every pair `(i', j')` with `i' < j'`
/// and `i' < i`, then the pairs `(i, j')` with `i < j' < j`.
pub open spec fn pairs_upto(st: PhaseState, n: int, i: int, j: int, e: int) -> PhaseState
    decreases i, j,
{
    if i <= 0 && j <= 1 {
        st
    } else if j <= i + 1 {
        pairs_upto(st, n, i - 1, n, e)
    } else {
        pair_step(pairs_upto(st, n, i, j - 1, e), i, j - 1, e)
    }
}

pub open spec fn all_wf(bs: Seq<Body>) -> bool {
    forall|k: int| 0 <= k < bs.len() ==> (#[trigger] bs[k]).wf()
}

/// Tests every dynamic circle against every static box, in order, bouncing
/// and pushing out each circle that touches one, and records each contact.
pub fn circle_wall_collision_system(bodies: &mut Vec<Body>, current: &mut ContactSet, restitution: i64)
    requires
        all_wf(old(bodies)@),
        old(current).wf(),
        0 <= restitution <= SCALE,
    ensures
        (final(bodies)@, final(current)@) == walls_upto(
            (old(bodies)@, old(current)@),
            old(bodies)@.len() as int,
            old(bodies)@.len() as int,
            0,
            restitution as int,
        ),
        all_wf(final(bodies)@),
        final(bodies)@.len() == old(bodies)@.len(),
        final(current).wf(),
{
    let n = bodies.len();
    let ghost init = (bodies@, current@);
    let mut i: usize = 0;
    while i < n
        invariant
            n == bodies@.len(),
            n == old(bodies)@.len(),
            init == (old(bodies)@, old(current)@),
            0 <= i <= n,
            (bodies@, current@) == walls_upto(init, n as int, i as int, 0, restitution as int),
            all_wf(bodies@),
            current.wf(),
            0 <= restitution <= SCALE,
        decreases n - i,
    {
        let mut j: usize = 0;
        while j < n
            invariant
                n == bodies@.len(),
                0 <= i < n,
                0 <= j <= n,
                (bodies@, current@) == walls_upto(init, n as int, i as int, j as int, restitution as int),
                all_wf(bodies@),
                current.wf(),
                0 <= restitution <= SCALE,
            decreases n - j,
        {
            let ghost before = (bodies@, current@);
            let m = bodies[i];
            let w = bodies[j];
            assert(m.wf() && w.wf());
            if m.dynamic && !w.dynamic {
                match (m.shape, w.shape) {
                    (ColliderShape::Circle { radius }, ColliderShape::Rect { half_extents }) => {
                        match circle_vs_rect(m.position, radius, w.position, half_extents) {
                            Some(c) => {
                                let data = circle_wall_contact_data(m.velocity, m.mass, &c, restitution);
                                let mut pos = m.position;
                                let mut vel = m.velocity;
                                resolve_circle_wall(&mut pos, &mut vel, c, restitution);
                                let nb = Body { position: pos, velocity: vel, ..m };
                                bodies.set(i, nb);
                                current.insert(ordered_pair(m.id, w.id), orient(data, m.id, w.id));
                                assert(nb.wf());
                            },
                            None => {},
                        }
                    },
                    _ => {},
                }
            }
            assert((bodies@, current@) == wall_step(before, i as int, j as int, restitution as int));
            j = j + 1;
        }
        i = i + 1;
    }
}

/// Tests every pair of dynamic circles, in order, applying the impulse and
/// separation to each overlapping pair, and records each contact.
pub fn circle_circle_collision_system(bodies: &mut Vec<Body>, current: &mut ContactSet, restitution: i64)
    requires
        all_wf(old(bodies)@),
        old(current).wf(),
        0 <= restitution <= SCALE,
    ensures
        (final(bodies)@, final(current)@) == pairs_upto(
            (old(bodies)@, old(current)@),
            old(bodies)@.len() as int,
            old(bodies)@.len() as int,
            0,
            restitution as int,
        ),
        all_wf(final(bodies)@),
        final(bodies)@.len() == old(bodies)@.len(),
        final(current).wf(),
{
    let n = bodies.len();
    let ghost init = (bodies@, current@);
    let mut i: usize = 0;
    assert(pairs_upto(init, n as int, 0, 1, restitution as int) == init);
    while i < n
        invariant
            n == bodies@.len(),
            n == old(bodies)@.len(),
            init == (old(bodies)@, old(current)@),
            0 <= i <= n,
            (bodies@, current@) == pairs_upto(init, n as int, i as int, i + 1, restitution as int),
            all_wf(bodies@),
            current.wf(),
            0 <= restitution <= SCALE,
        decreases n - i,
    {
        let mut j: usize = i + 1;
        while j < n
            invariant
                n == bodies@.len(),
                0 <= i < n,
                i + 1 <= j <= n,
                (bodies@, current@) == pairs_upto(init, n as int, i as int, j as int, restitution as int),
                all_wf(bodies@),
                current.wf(),
                0 <= restitution <= SCALE,
            decreases n - j,
        {
            let ghost before = (bodies@, current@);
            let b1 = bodies[i];
            let b2 = bodies[j];
            assert(b1.wf() && b2.wf());
            if b1.dynamic && b2.dynamic {
                match (b1.shape, b2.shape) {
                    (ColliderShape::Circle { radius: r1 }, ColliderShape::Circle { radius: r2 }) => {
                        match circle_vs_circle(b1.position, r1, b2.position, r2) {
                            Some(c) => {
                                let data = circle_circle_contact_data(
                                    b1.velocity,
                                    b2.velocity,
                                    b1.mass,
                                    b2.mass,
                                    &c,
                                    restitution,
                                );
                                let mut p1 = b1.position;
                                let mut v1 = b1.velocity;
                                let mut p2 = b2.position;
                                let mut v2 = b2.velocity;
                                resolve_circle_circle(
                                    &mut p1,
                                    &mut v1,
                                    b1.mass,
                                    &mut p2,
                                    &mut v2,
                                    b2.mass,
                                    c,
                                    restitution,
                                );
                                let nb1 = Body { position: p1, velocity: v1, ..b1 };
                                let nb2 = Body { position: p2, velocity: v2, ..b2 };
                                bodies.set(i, nb1);
                                bodies.set(j, nb2);
                                current.insert(ordered_pair(b1.id, b2.id), orient(data, b1.id, b2.id));
                                assert(nb1.wf() && nb2.wf());
                            },
                            None => {},
                        }
                    },
                    _ => {},
                }
            }
            assert((bodies@, current@) == pair_step(before, i as int, j as int, restitution as int));
            j = j + 1;
        }
        assert(pairs_upto(init, n as int, i + 1, i + 2, restitution as int) == pairs_upto(
            init,
            n as int,
            i as int,
            n as int,
            restitution as int,
        ));
        i = i + 1;
    }
}

/// The two collision phases of a tick, run in this order.
#[derive(Clone, Copy, PartialEq, Eq, Structural, Debug)]
pub enum CollisionSet {
    /// Test and resolve every pair, filling this tick's contact set.
    Detect,
    /// Diff this tick's contacts against the last tick's and swap them.
    EmitEvents,
}

/// Runs one collision phase. Detection tests movers against walls, then
/// movers against each other, and emits nothing; emission returns the
/// transitions and makes this tick's contacts the previous ones.
pub fn run_collision_set(
    set: CollisionSet,
    bodies: &mut Vec<Body>,
    contacts: &mut Contacts,
    restitution: i64,
) -> (events: Vec<CollisionEvent>)
    requires
        all_wf(old(bodies)@),
        old(contacts).wf(),
        0 <= restitution <= SCALE,
    ensures
        all_wf(final(bodies)@),
        final(bodies)@.len() == old(bodies)@.len(),
        final(contacts).wf(),
        set == CollisionSet::Detect ==> ({
            let n = old(bodies)@.len() as int;
            let st = pairs_upto(
                walls_upto((old(bodies)@, old(contacts).current@), n, n, 0, restitution as int),
                n,
                n,
                0,
                restitution as int,
            );
            &&& final(bodies)@ == st.0
            &&& final(contacts).current@ == st.1
            &&& final(contacts).prev == old(contacts).prev
            &&& events@.len() == 0
        }),
        set == CollisionSet::EmitEvents ==> {
            &&& final(bodies)@ == old(bodies)@
            &&& events@ == transition_events(old(contacts).current@, old(contacts).prev@)
            &&& final(contacts).prev@ == old(contacts).current@
            &&& final(contacts).current@.len() == 0
        },
{
    match set {
        CollisionSet::Detect => {
            circle_wall_collision_system(bodies, &mut contacts.current, restitution);
            circle_circle_collision_system(bodies, &mut contacts.current, restitution);
            Vec::new()
        },
        CollisionSet::EmitEvents => emit_collision_events(contacts),
    }
}

} // verus!
