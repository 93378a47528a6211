//! A discrete-time cellular simulation on a toroidal grid.
//!
//! Typed particles project vector charge fields onto the cells around them
//! with a triangular, distance-weighted falloff; each tick the fields are
//! recomputed from scratch and every particle is displaced by the field
//! accumulated at its own cell, when the destination cell is free.

pub mod draw;
pub mod grid;
pub mod laws;
pub mod model;
pub mod setup;
pub mod types;

pub use grid::Cerebro;
pub use grid::PlaceError;
pub use types::Cell;
pub use types::Color;
pub use types::Particle;
pub use types::ParticleType;
pub use types::Vector2d;
