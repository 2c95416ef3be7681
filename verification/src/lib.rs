//! Simulation core of a small arcade shooter.
//!
//! The world is a set of entities with typed components; per tick, positions
//! integrate velocity, a broad-phase collision pass emits events, and a staged
//! combat pipeline (collision filter, damage, death tagging, cleanup) resolves
//! them.  Path-bound enemies steer along closed polylines driven by an
//! arc-length cursor.  All geometry is fixed point: one linear unit is `UNIT`
//! sub-units, so the whole core is exact integer arithmetic.

pub mod constants;
pub mod enemy;
pub mod equipment;
pub mod game;
pub mod geom;
pub mod graphics;
pub mod physics;
pub mod player;
pub mod poly_path;
pub mod rng;
pub mod shared;
pub mod store;
pub mod ui;
pub mod world;

pub use game::GamePlugin;
