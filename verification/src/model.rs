//! The mathematical model of the engine: what each phase of a tick does to
//! the flat sequence of cells, written as spec functions that the executable
//! methods are proved to implement exactly.
//!
//! The grid is a `width * height` sequence of cells in column-major order:
//! the cell at grid coordinates `(x, y)` sits at index `x * height + y`, and
//! a scan over ascending indices is exactly the engine's scan order (outer
//! loop over `x`, inner over `y`).

use vstd::prelude::*;
use crate::types::{Cell, Particle, ParticleType, Vector2d};

verus! {

/// Toroidal normalization: the representative of `v` modulo `m` in `[0, m)`.
/// (`%` on `int` is Euclidean, so this is never negative for `m > 0`.)
pub open spec fn wrap(v: int, m: int) -> int
    recommends
        m > 0,
{
    v % m
}

/// Index of grid coordinates `(x, y)` in the flat column-major cell sequence.
pub open spec fn flat_index(x: int, y: int, h: int) -> int {
    x * h + y
}

/// Magnitude of an integer.
pub open spec fn abs_of(v: int) -> int {
    if v < 0 {
        -v
    } else {
        v
    }
}

/// The decaying magnitude deposited by the `xi`-th ring of a charge
/// component `init`: `init - xi` for non-negative `init`, `init + xi` for
/// negative `init`.
pub open spec fn ring_amount(init: int, xi: int) -> int {
    if init < 0 {
        init + xi
    } else {
        init - xi
    }
}

/// Add `amt` to one component of the field of the cell at flat index `i`
/// (the x component when `horizontal`, else the y component).
pub open spec fn bump(cfg: Seq<Cell>, i: int, horizontal: bool, amt: int) -> Seq<Cell>
    recommends
        0 <= i < cfg.len(),
{
    let c = cfg[i];
    let f = if horizontal {
        Vector2d { x: (c.field.x + amt) as i64, y: c.field.y }
    } else {
        Vector2d { x: c.field.x, y: (c.field.y + amt) as i64 }
    };
    cfg.update(i, Cell { particle: c.particle, field: f })
}

/// The first `dy_n` steps of the innermost deposit loop: for
/// `dy = -xi, ..., -xi + dy_n - 1`, add `amt` to the chosen field component
/// of the cell at wrapped offset `(dx, dy)` from `(x, y)`.
pub open spec fn sweep_dy(
    cfg: Seq<Cell>,
    w: int,
    h: int,
    horizontal: bool,
    amt: int,
    x: int,
    y: int,
    xi: int,
    dx: int,
    dy_n: nat,
) -> Seq<Cell>
    decreases dy_n,
{
    if dy_n == 0 {
        cfg
    } else {
        let prev = sweep_dy(cfg, w, h, horizontal, amt, x, y, xi, dx, (dy_n - 1) as nat);
        let dy = -xi + dy_n - 1;
        bump(prev, flat_index(wrap(x + dx, w), wrap(y + dy, h), h), horizontal, amt)
    }
}

/// The first `dx_n` columns of the square deposit for ring `xi`: for
/// `dx = -xi, ..., -xi + dx_n - 1`, a full inner sweep over
/// `dy in [-xi, xi]`.
pub open spec fn sweep_dx(
    cfg: Seq<Cell>,
    w: int,
    h: int,
    horizontal: bool,
    amt: int,
    x: int,
    y: int,
    xi: int,
    dx_n: nat,
) -> Seq<Cell>
    decreases dx_n,
{
    if dx_n == 0 {
        cfg
    } else {
        let prev = sweep_dx(cfg, w, h, horizontal, amt, x, y, xi, (dx_n - 1) as nat);
        let dx = -xi + dx_n - 1;
        sweep_dy(prev, w, h, horizontal, amt, x, y, xi, dx, (2 * xi + 1) as nat)
    }
}

/// The first `xi_n` rings of one axis of a charge application: ring `xi`
/// deposits `ring_amount(init, xi)` over the full `(2 xi + 1)`-square around
/// `(x, y)`, with wraparound.
pub open spec fn sweep_axis(
    cfg: Seq<Cell>,
    w: int,
    h: int,
    horizontal: bool,
    init: int,
    x: int,
    y: int,
    xi_n: nat,
) -> Seq<Cell>
    decreases xi_n,
{
    if xi_n == 0 {
        cfg
    } else {
        let prev = sweep_axis(cfg, w, h, horizontal, init, x, y, (xi_n - 1) as nat);
        let xi = xi_n - 1;
        sweep_dx(prev, w, h, horizontal, ring_amount(init, xi), x, y, xi, (2 * xi + 1) as nat)
    }
}

/// One whole charge application at `(x, y)`: the x axis of `charge.x`, then
/// the y axis of `charge.y`.
pub open spec fn apply_charge_spec(
    cfg: Seq<Cell>,
    w: int,
    h: int,
    charge: Vector2d,
    x: int,
    y: int,
) -> Seq<Cell> {
    let after_x = sweep_axis(cfg, w, h, true, charge.x as int, x, y, abs_of(charge.x as int) as nat);
    sweep_axis(after_x, w, h, false, charge.y as int, x, y, abs_of(charge.y as int) as nat)
}

/// The first `k` cells of the accumulation pass: each occupied cell applies
/// its particle's type charge centred on itself.
pub open spec fn charges_pass(
    cfg: Seq<Cell>,
    w: int,
    h: int,
    types: Seq<ParticleType>,
    k: nat,
) -> Seq<Cell>
    decreases k,
{
    if k == 0 {
        cfg
    } else {
        let prev = charges_pass(cfg, w, h, types, (k - 1) as nat);
        let i = k - 1;
        match prev[i].particle {
            Some(p) => apply_charge_spec(
                prev,
                w,
                h,
                types[p.particle_type as int].charge,
                i / h,
                i % h,
            ),
            None => prev,
        }
    }
}

/// The field-reset phase: every field becomes the zero vector; particles are
/// untouched.
pub open spec fn reset_spec(cfg: Seq<Cell>) -> Seq<Cell> {
    cfg.map_values(|c: Cell| Cell { particle: c.particle, field: Vector2d { x: 0, y: 0 } })
}

/// The flag-clear phase: every particle becomes eligible to move again;
/// fields are untouched.
pub open spec fn clear_moved_spec(cfg: Seq<Cell>) -> Seq<Cell> {
    cfg.map_values(
        |c: Cell| Cell {
            particle: match c.particle {
                Some(p) => Some(
                    Particle {
                        already_moved: false,
                        velocity: p.velocity,
                        particle_type: p.particle_type,
                    },
                ),
                None => None,
            },
            field: c.field,
        },
    )
}

/// One step of the movement scan at grid coordinates `(x, y)`: an unmoved
/// particle is flagged, its displacement is the field at its own cell, and
/// it relocates exactly when the wrapped destination holds no particle.
pub open spec fn move_step(cfg: Seq<Cell>, w: int, h: int, x: int, y: int) -> Seq<Cell>
    recommends
        0 <= flat_index(x, y, h) < cfg.len(),
{
    let i = flat_index(x, y, h);
    let c = cfg[i];
    match c.particle {
        None => cfg,
        Some(p) => {
            if p.already_moved {
                cfg
            } else {
                let q = Particle {
                    already_moved: true,
                    velocity: p.velocity,
                    particle_type: p.particle_type,
                };
                let flagged = cfg.update(i, Cell { particle: Some(q), field: c.field });
                let d = flat_index(wrap(x + c.field.x, w), wrap(y + c.field.y, h), h);
                if flagged[d].particle is None {
                    flagged.update(i, Cell { particle: None, field: c.field }).update(
                        d,
                        Cell { particle: Some(q), field: flagged[d].field },
                    )
                } else {
                    flagged
                }
            }
        },
    }
}

/// The first `k` steps of the movement scan, in ascending flat order.
pub open spec fn move_pass(cfg: Seq<Cell>, w: int, h: int, k: nat) -> Seq<Cell>
    decreases k,
{
    if k == 0 {
        cfg
    } else {
        let prev = move_pass(cfg, w, h, (k - 1) as nat);
        move_step(prev, w, h, (k - 1) / h, (k - 1) % h)
    }
}

/// The flat index a particle at flat index `o` is displaced to: its own
/// cell's coordinates shifted by its own cell's field, wrapped.
pub open spec fn dest_of(cfg: Seq<Cell>, w: int, h: int, o: int) -> int {
    let x = o / h;
    let y = o % h;
    flat_index(wrap(x + cfg[o].field.x, w), wrap(y + cfg[o].field.y, h), h)
}

/// One whole tick: reset fields, accumulate charges, move particles, clear
/// the moved flags — in that fixed order.
pub open spec fn tick_spec(cfg: Seq<Cell>, w: int, h: int, types: Seq<ParticleType>) -> Seq<Cell> {
    let k = (w * h) as nat;
    clear_moved_spec(move_pass(charges_pass(reset_spec(cfg), w, h, types, k), w, h, k))
}

/// `n` whole ticks in sequence.
pub open spec fn ticks_spec(
    cfg: Seq<Cell>,
    w: int,
    h: int,
    types: Seq<ParticleType>,
    n: nat,
) -> Seq<Cell>
    decreases n,
{
    if n == 0 {
        cfg
    } else {
        tick_spec(ticks_spec(cfg, w, h, types, (n - 1) as nat), w, h, types)
    }
}

/// What `Inspect(x, y)` reports: the type index of the particle at the
/// wrapped cell, if any, and that cell's field.
pub open spec fn inspect_spec(cfg: Seq<Cell>, w: int, h: int, x: int, y: int) -> (
    Option<usize>,
    Vector2d,
) {
    let c = cfg[flat_index(wrap(x, w), wrap(y, h), h)];
    (
        match c.particle {
            Some(p) => Some(p.particle_type),
            None => None,
        },
        c.field,
    )
}

/// The cells of `b` hold exactly the particles of `a`, and no field
/// component differs between the two by more than `bound`.
pub open spec fn fields_within(a: Seq<Cell>, b: Seq<Cell>, bound: int) -> bool {
    &&& b.len() == a.len()
    &&& forall|i: int|
        0 <= i < a.len() ==> (#[trigger] b[i]).particle == a[i].particle
            && a[i].field.x - bound <= b[i].field.x <= a[i].field.x + bound
            && a[i].field.y - bound <= b[i].field.y <= a[i].field.y + bound
}

/// 1 when the cell is occupied, else 0.
pub open spec fn cell_count(c: Cell) -> int {
    if c.particle is Some {
        1
    } else {
        0
    }
}

/// Total number of particles held by the cells.
pub open spec fn occupancy(cfg: Seq<Cell>) -> int
    decreases cfg.len(),
{
    if cfg.len() == 0 {
        0
    } else {
        occupancy(cfg.drop_last()) + cell_count(cfg.last())
    }
}

} // verus!
