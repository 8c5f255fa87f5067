//! A paddle-and-ball brick-breaker simulation engine, verified with Verus.
//!
//! The engine covers the entity model, circle/rectangle collision detection
//! with directional resolution, rebound physics, the tile-grid level loader,
//! and the per-frame game state machine.  Rendering, asset loading, windowing
//! and input polling are external collaborators: the engine only consumes
//! plain values (texture handles, input flags, millisecond deltas) and
//! produces plain values (draw commands, state).
//!
//! All geometry is exact fixed-point arithmetic over `i64` micro-pixels
//! (see `units`), so every rule of the simulation is proved, including
//! freedom from overflow.

pub use crate::game::Game;

pub mod collision;
pub mod errors;
pub mod game;
pub mod game_level;
pub mod game_object;
pub mod resource_manager;
pub mod renderer;
pub mod units;
pub mod vector;
