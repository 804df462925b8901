//! Index and topology bookkeeping of a Verlet particle simulation: particle,
//! stick, spring and attachment handles, collision layers derived from
//! particle masks, shape construction, keyboard state and level operation
//! selection. The floating-point geometry lives with the application.
pub mod application;
pub mod car;
pub mod cloth;
pub mod color;
pub mod keyboard;
pub mod layers;
pub mod level;
pub mod mouse;
pub mod particle_accelerator;
pub mod particle_collider;
pub mod shape_builder;
pub mod topology;
