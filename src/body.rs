//! Simulation bodies and their components.
use crate::combat::Health;
use crate::fixed::{clamp_coord, clamp_vec, Vec2, LIMIT, SCALE};
use crate::steering::{Ally, AvoidAllies, Flee, MaintainRange, Seek, Wander};
use vstd::prelude::*;

verus! {

/// Default mass: 1.0.
pub const DEFAULT_MASS: i64 = 1000;

/// The largest radius or half-extent a collider may have.
pub const MAX_EXTENT: i64 = 1073741824;

/// The shape a body collides with.
#[derive(Clone, Copy, PartialEq, Eq, Structural, Debug)]
pub enum ColliderShape {
    Circle { radius: i64 },
    Rect { half_extents: Vec2 },
}

impl ColliderShape {
    pub open spec fn wf(self) -> bool {
        match self {
            ColliderShape::Circle { radius } => 0 < radius <= MAX_EXTENT,
            ColliderShape::Rect { half_extents } => 0 < half_extents.x <= MAX_EXTENT && 0
                < half_extents.y <= MAX_EXTENT,
        }
    }
}

/// Input gathered between two ticks, consumed by the next one.
#[derive(Clone, Copy, PartialEq, Eq, Structural, Debug)]
pub struct AccumulatedInput {
    /// Sum of the directions asked for.
    pub direction: Vec2,
    /// How many samples were added.
    pub samples: u64,
}

impl AccumulatedInput {
    pub open spec fn is_empty(self) -> bool {
        self.direction == Vec2 { x: 0, y: 0 } && self.samples == 0
    }

    /// No input.
    pub fn empty() -> (r: AccumulatedInput)
        ensures
            r.is_empty(),
    {
        AccumulatedInput { direction: Vec2 { x: 0, y: 0 }, samples: 0 }
    }
}

/// What one pressed key adds to an axis.
pub open spec fn key_value(pressed: bool) -> int {
    if pressed {
        SCALE as int
    } else {
        0
    }
}

/// Adds one sample of the movement keys to `input`: up and right point
/// along the positive axes, down and left along the negative ones.
pub fn handle_input(input: &mut AccumulatedInput, up: bool, down: bool, left: bool, right: bool)
    requires
        old(input).direction.within(LIMIT as int),
    ensures
        final(input).direction == clamp_vec(
            old(input).direction.x + key_value(right) - key_value(left),
            old(input).direction.y + key_value(up) - key_value(down),
        ),
        final(input).samples == if old(input).samples < u64::MAX {
            old(input).samples + 1
        } else {
            old(input).samples as int
        },
        final(input).direction.within(LIMIT as int),
{
    let mut dx: i64 = 0;
    let mut dy: i64 = 0;
    if up {
        dy = dy + SCALE;
    }
    if down {
        dy = dy - SCALE;
    }
    if left {
        dx = dx - SCALE;
    }
    if right {
        dx = dx + SCALE;
    }
    input.direction = Vec2 {
        x: clamp_coord(input.direction.x + dx),
        y: clamp_coord(input.direction.y + dy),
    };
    if input.samples < u64::MAX {
        input.samples = input.samples + 1;
    }
}

/// A marker for the body that others seek, flee and keep their range from.
#[derive(Clone, Copy, PartialEq, Eq, Structural, Debug)]
pub struct Player;

/// A marker for hostile bodies.
#[derive(Clone, Copy, PartialEq, Eq, Structural, Debug)]
pub struct Enemy;

/// One simulated entity. A dynamic body moves and collides as a mover; a
/// static one (a wall) stays where it is.
#[derive(Clone, Copy, PartialEq, Eq, Structural, Debug)]
pub struct Body {
    /// Stable handle.
    pub id: u64,
    pub position: Vec2,
    /// The position at the start of the last tick.
    pub previous_position: Vec2,
    pub velocity: Vec2,
    pub acceleration: Vec2,
    pub input: AccumulatedInput,
    pub mass: i64,
    pub shape: ColliderShape,
    pub dynamic: bool,
    pub player: Option<Player>,
    pub enemy: Option<Enemy>,
    pub ally: Option<Ally>,
    pub seek: Option<Seek>,
    pub flee: Option<Flee>,
    pub wander: Option<Wander>,
    pub maintain_range: Option<MaintainRange>,
    pub avoid_allies: Option<AvoidAllies>,
    pub health: Option<Health>,
}

impl Body {
    /// Every quantity lies in the range the arithmetic is proved for.
    pub open spec fn wf(self) -> bool {
        &&& self.position.within(LIMIT as int)
        &&& self.previous_position.within(LIMIT as int)
        &&& self.velocity.within(LIMIT as int)
        &&& self.acceleration.within(LIMIT as int)
        &&& self.input.direction.within(LIMIT as int)
        &&& 0 < self.mass <= LIMIT
        &&& self.shape.wf()
        &&& match self.wander {
            Some(w) => w.wf(),
            None => true,
        }
        &&& match self.seek {
            Some(s) => s.wf(),
            None => true,
        }
        &&& match self.flee {
            Some(f) => f.wf(),
            None => true,
        }
        &&& match self.maintain_range {
            Some(r) => r.wf(),
            None => true,
        }
        &&& match self.avoid_allies {
            Some(a) => a.wf(),
            None => true,
        }
        &&& match self.health {
            Some(h) => h.wf(),
            None => true,
        }
    }

    /// The radius of a circle body.
    pub open spec fn radius(self) -> int {
        match self.shape {
            ColliderShape::Circle { radius } => radius as int,
            ColliderShape::Rect { .. } => 0,
        }
    }

    /// A body at rest with the given shape and no behaviors.
    pub fn new(id: u64, position: Vec2, shape: ColliderShape, dynamic: bool) -> (r: Body)
        requires
            position.within(LIMIT as int),
            shape.wf(),
        ensures
            r.wf(),
            r.id == id,
            r.position == position,
            r.previous_position == position,
            r.velocity == (Vec2 { x: 0, y: 0 }),
            r.acceleration == (Vec2 { x: 0, y: 0 }),
            r.input.is_empty(),
            r.mass == DEFAULT_MASS,
            r.shape == shape,
            r.dynamic == dynamic,
            r.player.is_none() && r.enemy.is_none() && r.ally.is_none(),
            r.seek.is_none() && r.flee.is_none() && r.wander.is_none(),
            r.maintain_range.is_none() && r.avoid_allies.is_none() && r.health.is_none(),
    {
        Body {
            id,
            position,
            previous_position: position,
            velocity: Vec2 { x: 0, y: 0 },
            acceleration: Vec2 { x: 0, y: 0 },
            input: AccumulatedInput::empty(),
            mass: DEFAULT_MASS,
            shape,
            dynamic,
            player: None,
            enemy: None,
            ally: None,
            seek: None,
            flee: None,
            wander: None,
            maintain_range: None,
            avoid_allies: None,
            health: None,
        }
    }
}

} // verus!
