//! Hierarchy-aware bookkeeping between a scene graph and a rigid-body engine.
//!
//! The library keeps, per simulation world, the index between scene entities
//! and engine handles, the registry of worlds, the timestep schedule, the
//! order in which simulated poses are written back down entity hierarchies,
//! and the collision event queue.
pub mod ids;
pub mod world;
pub mod context;
pub mod stepper;
pub mod hierarchy;
pub mod colliding;
