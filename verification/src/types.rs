//! The value types of the simulation: vectors, colours, particle types,
//! particles and cells, together with the size bounds that keep every field
//! accumulation inside `i64`.

use vstd::prelude::*;

verus! {

/// Largest grid side length the engine accepts.
pub const MAX_DIM: i64 = 4096;

/// Largest magnitude a charge component may have.
pub const MAX_CHARGE: i64 = 128;

/// Most that one full inner row sweep can add to one cell's field component:
/// `(2 * MAX_CHARGE + 1) * MAX_CHARGE`.
pub const ROW_BOUND: i64 = 257 * 128;

/// Most that one full square sweep can add to one cell's field component:
/// `(2 * MAX_CHARGE + 1) * ROW_BOUND`.
pub const SQUARE_BOUND: i64 = 257 * 32896;

/// Most that one axis of one charge application can add to one cell's field
/// component: `MAX_CHARGE * SQUARE_BOUND`.
pub const AXIS_BOUND: i64 = 128 * 8454272;

/// Most that one whole charge application can add to one cell's field
/// component: `2 * AXIS_BOUND`.
pub const CALL_BOUND: i64 = 2 * 1082146816;

/// Most that a full accumulation pass over the grid can add to one cell's
/// field component: `MAX_DIM * MAX_DIM * CALL_BOUND`. Fields of a
/// well-formed grid stay within this bound.
pub const FIELD_BOUND: i64 = 16777216 * 2164293632;

/// A signed two-component integer vector, used both for per-type charges and
/// for the per-cell fields accumulated from them.
#[derive(Clone, Copy, PartialEq, Eq, Structural, Debug)]
pub struct Vector2d {
    pub x: i64,
    pub y: i64,
}

/// An RGB display colour attached to a particle type.
#[derive(Clone, Copy, PartialEq, Eq, Structural, Debug)]
pub struct Color {
    pub red: u8,
    pub green: u8,
    pub blue: u8,
}

/// An immutable particle kind: the charge it projects and the colour it is
/// drawn with. Particles refer to a kind by its index in the grid's table.
#[derive(Clone, Copy, PartialEq, Eq, Structural, Debug)]
pub struct ParticleType {
    pub color: Color,
    pub charge: Vector2d,
}

/// One particle. `already_moved` guards against a second displacement within
/// a single tick; `velocity` is carried but never read by any operation.
#[derive(Clone, Copy, PartialEq, Eq, Structural, Debug)]
pub struct Particle {
    pub already_moved: bool,
    pub velocity: Vector2d,
    pub particle_type: usize,
}

/// A grid slot: at most one particle, and the field accumulated at the slot
/// during the current tick.
#[derive(Clone, Copy, Debug)]
pub struct Cell {
    pub particle: Option<Particle>,
    pub field: Vector2d,
}

impl Vector2d {
    pub fn new(x: i64, y: i64) -> (r: Vector2d)
        ensures
            r.x == x,
            r.y == y,
    {
        Vector2d { x, y }
    }
}

impl Color {
    pub fn new(red: u8, green: u8, blue: u8) -> (r: Color)
        ensures
            r.red == red,
            r.green == green,
            r.blue == blue,
    {
        Color { red, green, blue }
    }
}

impl ParticleType {
    pub fn new(x: i64, y: i64, red: u8, green: u8, blue: u8) -> (r: ParticleType)
        ensures
            r.charge.x == x,
            r.charge.y == y,
            r.color == (Color { red, green, blue }),
    {
        ParticleType { charge: Vector2d { x, y }, color: Color { red, green, blue } }
    }
}

impl Particle {
    pub fn new(particle_type: usize) -> (r: Particle)
        ensures
            r.already_moved == false,
            r.velocity == (Vector2d { x: 0, y: 0 }),
            r.particle_type == particle_type,
    {
        Particle { already_moved: false, velocity: Vector2d { x: 0, y: 0 }, particle_type }
    }
}

impl Cell {
    pub fn new() -> (r: Cell)
        ensures
            r.particle is None,
            r.field == (Vector2d { x: 0, y: 0 }),
    {
        Cell { particle: None, field: Vector2d { x: 0, y: 0 } }
    }
}

} // verus!
