//! A deterministic fixed-timestep 2D rigid-body simulation core in fixed-point
//! arithmetic: integration, circle/rectangle and circle/circle contacts, impulse
//! resolution with restitution, contact lifecycle events and steering.
pub mod body;
pub mod collision;
pub mod combat;
pub mod config;
pub mod contacts;
pub mod fixed;
pub mod integrator;
pub mod rng;
pub mod spawn;
pub mod steering;
pub mod systems;
pub mod world;
