//! The toroidal grid and the four phases of its tick: field reset, charge
//! accumulation, movement, and move-flag clearing.

use vstd::prelude::*;
use vstd::arithmetic::div_mod::{
    lemma_fundamental_div_mod, lemma_mod_multiples_vanish, lemma_small_mod,
};
use crate::laws::{lemma_occupancy_congruent, lemma_occupancy_update};
use crate::model::{
    abs_of, apply_charge_spec, bump, charges_pass, clear_moved_spec, fields_within, flat_index,
    inspect_spec, move_pass, move_step, occupancy, reset_spec, ring_amount, sweep_axis, sweep_dx,
    sweep_dy, tick_spec, wrap,
};
use crate::types::{
    Cell, Color, Particle, ParticleType, Vector2d, AXIS_BOUND, CALL_BOUND, FIELD_BOUND,
    MAX_CHARGE, MAX_DIM, ROW_BOUND, SQUARE_BOUND,
};

verus! {

/// The error returned when a particle is placed with a type index that the
/// type table does not hold.
#[derive(Clone, Copy, PartialEq, Eq, Structural, Debug)]
pub enum PlaceError {
    TypeIndexOutOfRange,
}

impl PlaceError {
    /// A human-readable description of the error.
    pub fn message(&self) -> (r: &'static str)
        ensures
            r@ == "particle type index out of range"@,
    {
        "particle type index out of range"
    }
}

/// The simulation grid: a type table and a `width * height` toroidal space
/// of cells, stored flat in column-major order (`(x, y)` at `x * height + y`).
pub struct Cerebro {
    pub particle_types: Vec<ParticleType>,
    pub width: i64,
    pub height: i64,
    pub space: Vec<Cell>,
}

impl Cerebro {
    /// The grid's dimensions are positive, bounded, and match the cell store.
    pub open spec fn dims_wf(&self) -> bool {
        &&& 1 <= self.width <= MAX_DIM
        &&& 1 <= self.height <= MAX_DIM
        &&& self.space@.len() == self.width * self.height
    }

    /// A cell's particle points into the type table and its field lies within
    /// the bound that a full accumulation pass can produce.
    pub open spec fn cell_wf(c: Cell, ntypes: int) -> bool {
        &&& (c.particle matches Some(p) ==> p.particle_type < ntypes)
        &&& -FIELD_BOUND <= c.field.x <= FIELD_BOUND
        &&& -FIELD_BOUND <= c.field.y <= FIELD_BOUND
    }

    /// A charge the engine accepts: both components within `MAX_CHARGE`.
    pub open spec fn charge_wf(v: Vector2d) -> bool {
        &&& -MAX_CHARGE <= v.x <= MAX_CHARGE
        &&& -MAX_CHARGE <= v.y <= MAX_CHARGE
    }

    /// The grid invariant: every constructor establishes it and every phase
    /// preserves it.
    pub open spec fn wf(&self) -> bool {
        &&& self.dims_wf()
        &&& forall|i: int|
            0 <= i < self.space@.len() ==> Self::cell_wf(
                #[trigger] self.space@[i],
                self.particle_types@.len() as int,
            )
        &&& forall|t: int|
            0 <= t < self.particle_types@.len() ==> Self::charge_wf(
                (#[trigger] self.particle_types@[t]).charge,
            )
    }

    /// Construct a grid of the given dimensions with an empty type table and
    /// every cell empty with a zero field.
    pub fn new(width: i64, height: i64) -> (r: Cerebro)
        requires
            1 <= width <= MAX_DIM,
            1 <= height <= MAX_DIM,
        ensures
            r.wf(),
            r.width == width,
            r.height == height,
            r.particle_types@.len() == 0,
            r.space@.len() == width * height,
            forall|i: int|
                0 <= i < r.space@.len() ==> (#[trigger] r.space@[i]) == (Cell {
                    particle: None,
                    field: Vector2d { x: 0, y: 0 },
                }),
    {
        proof {
            assert(width * height <= MAX_DIM * MAX_DIM) by (nonlinear_arith)
                requires 1 <= width <= MAX_DIM, 1 <= height <= MAX_DIM;
        }
        let total: usize = (width as usize) * (height as usize);
        let mut space: Vec<Cell> = Vec::new();
        while space.len() < total
            invariant
                space@.len() <= total,
                total <= MAX_DIM * MAX_DIM,
                forall|i: int|
                    0 <= i < space@.len() ==> (#[trigger] space@[i]) == (Cell {
                        particle: None,
                        field: Vector2d { x: 0, y: 0 },
                    }),
            decreases total - space@.len(),
        {
            space.push(Cell::new());
        }
        Cerebro { particle_types: Vec::new(), width, height, space }
    }

    /// Append a particle type to the table and return its index; indices are
    /// stable and never reused.
    pub fn register_particle_type(&mut self, charge: Vector2d, color: Color) -> (idx: usize)
        requires
            old(self).wf(),
            Self::charge_wf(charge),
        ensures
            final(self).wf(),
            idx == old(self).particle_types@.len(),
            final(self).particle_types@ == old(self).particle_types@.push(
                ParticleType { color, charge },
            ),
            final(self).space@ == old(self).space@,
            final(self).width == old(self).width,
            final(self).height == old(self).height,
    {
        let idx = self.particle_types.len();
        self.particle_types.push(ParticleType { color, charge });
        idx
    }

    /// Place a fresh, unmoved particle of the given type on the wrapped cell
    /// `(x, y)`, overwriting whatever particle the cell held. Rejects an index
    /// outside the type table and leaves the grid untouched in that case.
    pub fn place_particle(&mut self, x: i64, y: i64, type_index: usize) -> (r: Result<
        (),
        PlaceError,
    >)
        requires
            old(self).wf(),
        ensures
            final(self).wf(),
            r is Ok <==> type_index < old(self).particle_types@.len(),
            r is Err ==> r == Result::<(), PlaceError>::Err(PlaceError::TypeIndexOutOfRange)
                && *final(self) == *old(self),
            r is Ok ==> final(self).space@ == old(self).space@.update(
                flat_index(
                    wrap(x as int, old(self).width as int),
                    wrap(y as int, old(self).height as int),
                    old(self).height as int,
                ),
                Cell {
                    particle: Some(
                        Particle {
                            already_moved: false,
                            velocity: Vector2d { x: 0, y: 0 },
                            particle_type: type_index,
                        },
                    ),
                    field: old(self).space@[flat_index(
                        wrap(x as int, old(self).width as int),
                        wrap(y as int, old(self).height as int),
                        old(self).height as int,
                    )].field,
                },
            ),
            final(self).width == old(self).width,
            final(self).height == old(self).height,
            final(self).particle_types@ == old(self).particle_types@,
    {
        if type_index >= self.particle_types.len() {
            return Err(PlaceError::TypeIndexOutOfRange);
        }
        let i = self.cell_at(x, y);
        let mut c = self.space[i];
        c.particle = Some(Particle::new(type_index));
        self.space.set(i, c);
        Ok(())
    }

    /// Flat index of the wrapped cell `(x, y)`.
    pub fn cell_at(&self, x: i64, y: i64) -> (i: usize)
        requires
            self.dims_wf(),
        ensures
            i as int == flat_index(
                wrap(x as int, self.width as int),
                wrap(y as int, self.height as int),
                self.height as int,
            ),
            i < self.space@.len(),
    {
        let px = wrap_dim(x, self.width);
        let py = wrap_dim(y, self.height);
        proof {
            assert(px * self.height + py < self.width * self.height && self.width * self.height
                <= MAX_DIM * MAX_DIM) by (nonlinear_arith)
                requires 0 <= px < self.width <= MAX_DIM, 0 <= py < self.height <= MAX_DIM;
        }
        px * (self.height as usize) + py
    }

    /// Read-only query of the wrapped cell `(x, y)`: the type index of its
    /// particle, if any, and its current field.
    pub fn inspect(&self, x: i64, y: i64) -> (r: (Option<usize>, Vector2d))
        requires
            self.dims_wf(),
        ensures
            r == inspect_spec(
                self.space@,
                self.width as int,
                self.height as int,
                x as int,
                y as int,
            ),
    {
        let i = self.cell_at(x, y);
        let c = self.space[i];
        let t = match c.particle {
            Some(p) => Some(p.particle_type),
            None => None,
        };
        (t, c.field)
    }

    /// Phase one of a tick: set every cell's field to the zero vector.
    /// Immediately after it, and before any accumulation, every field is
    /// `(0, 0)`.
    pub fn reset_fields(&mut self)
        requires
            old(self).wf(),
        ensures
            final(self).wf(),
            final(self).space@ == reset_spec(old(self).space@),
            final(self).width == old(self).width,
            final(self).height == old(self).height,
            final(self).particle_types@ == old(self).particle_types@,
            forall|i: int|
                0 <= i < final(self).space@.len() ==> (#[trigger] final(self).space@[i]).field
                    == (Vector2d { x: 0, y: 0 }),
            forall|i: int|
                0 <= i < final(self).space@.len() ==> (#[trigger] final(self).space@[i]).particle
                    == old(self).space@[i].particle,
    {
        let len = self.space.len();
        let mut idx: usize = 0;
        while idx < len
            invariant
                idx <= len,
                len == self.space@.len(),
                len == old(self).space@.len(),
                self.width == old(self).width,
                self.height == old(self).height,
                self.particle_types@ == old(self).particle_types@,
                forall|i: int|
                    0 <= i < idx ==> (#[trigger] self.space@[i]) == (Cell {
                        particle: old(self).space@[i].particle,
                        field: Vector2d { x: 0, y: 0 },
                    }),
                forall|i: int|
                    idx <= i < len ==> (#[trigger] self.space@[i]) == old(self).space@[i],
            decreases len - idx,
        {
            let mut c = self.space[idx];
            c.field = Vector2d { x: 0, y: 0 };
            self.space.set(idx, c);
            idx = idx + 1;
        }
        proof {
            assert(self.space@ =~= reset_spec(old(self).space@));
        }
    }
}

impl Cerebro {
    /// One axis of one charge application: for each ring `xi` below the
    /// magnitude of `init`, add the ring's decaying amount to the chosen
    /// field component over the full `(2 xi + 1)`-square around `(x, y)`,
    /// with wraparound.
    fn accumulate_axis(&mut self, horizontal: bool, init: i64, x: i64, y: i64)
        requires
            old(self).dims_wf(),
            -MAX_CHARGE <= init <= MAX_CHARGE,
            0 <= x < old(self).width,
            0 <= y < old(self).height,
            forall|i: int|
                0 <= i < old(self).space@.len() ==> -(i64::MAX - AXIS_BOUND) <= (
                #[trigger] old(self).space@[i]).field.x <= i64::MAX - AXIS_BOUND && -(i64::MAX
                    - AXIS_BOUND) <= old(self).space@[i].field.y <= i64::MAX - AXIS_BOUND,
        ensures
            final(self).space@ == sweep_axis(
                old(self).space@,
                old(self).width as int,
                old(self).height as int,
                horizontal,
                init as int,
                x as int,
                y as int,
                abs_of(init as int) as nat,
            ),
            fields_within(old(self).space@, final(self).space@, AXIS_BOUND as int),
            final(self).width == old(self).width,
            final(self).height == old(self).height,
            final(self).particle_types@ == old(self).particle_types@,
    {
        let n: i64 = if init < 0 {
            -init
        } else {
            init
        };
        let w = self.width;
        let h = self.height;
        let mut xi: i64 = 0;
        while xi < n
            invariant
                0 <= xi <= n,
                n == abs_of(init as int),
                n <= MAX_CHARGE,
                -MAX_CHARGE <= init <= MAX_CHARGE,
                w == old(self).width,
                h == old(self).height,
                self.width == w,
                self.height == h,
                1 <= w <= MAX_DIM,
                1 <= h <= MAX_DIM,
                0 <= x < w,
                0 <= y < h,
                self.particle_types@ == old(self).particle_types@,
                self.space@.len() == old(self).space@.len(),
                old(self).space@.len() == w * h,
                forall|i: int|
                    0 <= i < old(self).space@.len() ==> -(i64::MAX - AXIS_BOUND) <= (
                    #[trigger] old(self).space@[i]).field.x <= i64::MAX - AXIS_BOUND && -(
                    i64::MAX - AXIS_BOUND) <= old(self).space@[i].field.y <= i64::MAX
                        - AXIS_BOUND,
                self.space@ == sweep_axis(
                    old(self).space@,
                    w as int,
                    h as int,
                    horizontal,
                    init as int,
                    x as int,
                    y as int,
                    xi as nat,
                ),
                fields_within(old(self).space@, self.space@, xi * SQUARE_BOUND),
            decreases n - xi,
        {
            let amt: i64 = if init < 0 {
                init + xi
            } else {
                init - xi
            };
            let ghost mid0 = self.space@;
            let mut dx: i64 = -xi;
            while dx <= xi
                invariant
                    0 <= xi < n <= MAX_CHARGE,
                    -MAX_CHARGE <= init <= MAX_CHARGE,
                    -xi <= dx <= xi + 1,
                    amt == ring_amount(init as int, xi as int),
                    -MAX_CHARGE <= amt <= MAX_CHARGE,
                    w == old(self).width,
                    h == old(self).height,
                    self.width == w,
                    self.height == h,
                    1 <= w <= MAX_DIM,
                    1 <= h <= MAX_DIM,
                    0 <= x < w,
                    0 <= y < h,
                    self.particle_types@ == old(self).particle_types@,
                    self.space@.len() == old(self).space@.len(),
                    old(self).space@.len() == w * h,
                    forall|i: int|
                        0 <= i < old(self).space@.len() ==> -(i64::MAX - AXIS_BOUND) <= (
                        #[trigger] old(self).space@[i]).field.x <= i64::MAX - AXIS_BOUND && -(
                        i64::MAX - AXIS_BOUND) <= old(self).space@[i].field.y <= i64::MAX
                            - AXIS_BOUND,
                    mid0 == sweep_axis(
                        old(self).space@,
                        w as int,
                        h as int,
                        horizontal,
                        init as int,
                        x as int,
                        y as int,
                        xi as nat,
                    ),
                    self.space@ == sweep_dx(
                        mid0,
                        w as int,
                        h as int,
                        horizontal,
                        amt as int,
                        x as int,
                        y as int,
                        xi as int,
                        (dx + xi) as nat,
                    ),
                    fields_within(
                        old(self).space@,
                        self.space@,
                        xi * SQUARE_BOUND + (dx + xi) * ROW_BOUND,
                    ),
                decreases xi + 1 - dx,
            {
                let ghost in0 = self.space@;
                let mut dy: i64 = -xi;
                while dy <= xi
                    invariant
                        0 <= xi < n <= MAX_CHARGE,
                        -xi <= dx <= xi,
                        -xi <= dy <= xi + 1,
                        -MAX_CHARGE <= amt <= MAX_CHARGE,
                        w == old(self).width,
                        h == old(self).height,
                        self.width == w,
                        self.height == h,
                        1 <= w <= MAX_DIM,
                        1 <= h <= MAX_DIM,
                        0 <= x < w,
                        0 <= y < h,
                        self.particle_types@ == old(self).particle_types@,
                        self.space@.len() == old(self).space@.len(),
                        old(self).space@.len() == w * h,
                        forall|i: int|
                            0 <= i < old(self).space@.len() ==> -(i64::MAX - AXIS_BOUND) <= (
                            #[trigger] old(self).space@[i]).field.x <= i64::MAX - AXIS_BOUND
                                && -(i64::MAX - AXIS_BOUND) <= old(self).space@[i].field.y
                                <= i64::MAX - AXIS_BOUND,
                        self.space@ == sweep_dy(
                            in0,
                            w as int,
                            h as int,
                            horizontal,
                            amt as int,
                            x as int,
                            y as int,
                            xi as int,
                            dx as int,
                            (dy + xi) as nat,
                        ),
                        fields_within(
                            old(self).space@,
                            self.space@,
                            xi * SQUARE_BOUND + (dx + xi) * ROW_BOUND + (dy + xi) * MAX_CHARGE,
                        ),
                    decreases xi + 1 - dy,
                {
                    let ci = self.cell_at(x + dx, y + dy);
                    let ghost pre = self.space@;
                    let mut c = self.space[ci];
                    proof {
                        assert(xi * SQUARE_BOUND + (dx + xi) * ROW_BOUND + (dy + xi) * MAX_CHARGE
                            + MAX_CHARGE <= AXIS_BOUND) by (nonlinear_arith)
                            requires
                                0 <= xi <= 127,
                                -xi <= dx <= xi,
                                -xi <= dy <= xi,
                                SQUARE_BOUND == 8454272,
                                ROW_BOUND == 32896,
                                MAX_CHARGE == 128,
                                AXIS_BOUND == 1082146816;
                        assert((dy + 1 + xi) * MAX_CHARGE == (dy + xi) * MAX_CHARGE + MAX_CHARGE)
                            by (nonlinear_arith);
                    }
                    if horizontal {
                        c.field.x = c.field.x + amt;
                    } else {
                        c.field.y = c.field.y + amt;
                    }
                    self.space.set(ci, c);
                    proof {
                        assert(self.space@ == bump(pre, ci as int, horizontal, amt as int));
                        assert(sweep_dy(
                            in0,
                            w as int,
                            h as int,
                            horizontal,
                            amt as int,
                            x as int,
                            y as int,
                            xi as int,
                            dx as int,
                            (dy + xi + 1) as nat,
                        ) == bump(
                            sweep_dy(
                                in0,
                                w as int,
                                h as int,
                                horizontal,
                                amt as int,
                                x as int,
                                y as int,
                                xi as int,
                                dx as int,
                                (dy + xi) as nat,
                            ),
                            flat_index(
                                wrap(x + dx, w as int),
                                wrap(y + dy, h as int),
                                h as int,
                            ),
                            horizontal,
                            amt as int,
                        ));
                    }
                    dy = dy + 1;
                }
                proof {
                    assert((2 * xi + 1) * MAX_CHARGE <= ROW_BOUND) by (nonlinear_arith)
                        requires 0 <= xi <= 127, MAX_CHARGE == 128, ROW_BOUND == 32896;
                    assert((dx + 1 + xi) * ROW_BOUND == (dx + xi) * ROW_BOUND + ROW_BOUND)
                        by (nonlinear_arith);
                    assert(fields_within(
                        old(self).space@,
                        self.space@,
                        xi * SQUARE_BOUND + (dx + 1 + xi) * ROW_BOUND,
                    ));
                    assert(sweep_dx(
                        mid0,
                        w as int,
                        h as int,
                        horizontal,
                        amt as int,
                        x as int,
                        y as int,
                        xi as int,
                        (dx + xi + 1) as nat,
                    ) == sweep_dy(
                        sweep_dx(
                            mid0,
                            w as int,
                            h as int,
                            horizontal,
                            amt as int,
                            x as int,
                            y as int,
                            xi as int,
                            (dx + xi) as nat,
                        ),
                        w as int,
                        h as int,
                        horizontal,
                        amt as int,
                        x as int,
                        y as int,
                        xi as int,
                        dx as int,
                        (2 * xi + 1) as nat,
                    ));
                }
                dx = dx + 1;
            }
            proof {
                assert((2 * xi + 1) * ROW_BOUND <= SQUARE_BOUND) by (nonlinear_arith)
                    requires 0 <= xi <= 127, ROW_BOUND == 32896, SQUARE_BOUND == 8454272;
                assert((xi + 1) * SQUARE_BOUND == xi * SQUARE_BOUND + SQUARE_BOUND)
                    by (nonlinear_arith);
                assert(fields_within(
                    old(self).space@,
                    self.space@,
                    (xi + 1) * SQUARE_BOUND,
                ));
                assert(sweep_axis(
                    old(self).space@,
                    w as int,
                    h as int,
                    horizontal,
                    init as int,
                    x as int,
                    y as int,
                    (xi + 1) as nat,
                ) == sweep_dx(
                    sweep_axis(
                        old(self).space@,
                        w as int,
                        h as int,
                        horizontal,
                        init as int,
                        x as int,
                        y as int,
                        xi as nat,
                    ),
                    w as int,
                    h as int,
                    horizontal,
                    ring_amount(init as int, xi as int),
                    x as int,
                    y as int,
                    xi as int,
                    (2 * xi + 1) as nat,
                ));
            }
            xi = xi + 1;
        }
        proof {
            assert(n * SQUARE_BOUND <= AXIS_BOUND) by (nonlinear_arith)
                requires 0 <= n <= 128, SQUARE_BOUND == 8454272, AXIS_BOUND == 1082146816;
            assert(fields_within(old(self).space@, self.space@, AXIS_BOUND as int));
        }
    }

    /// Phase two's work for one particle: apply the charge of the given type
    /// centred on `(x, y)` — first the x axis, then the y axis. A zero
    /// charge contributes nothing to any cell.
    pub fn apply_charge(&mut self, particle_type: usize, x: i64, y: i64)
        requires
            old(self).dims_wf(),
            particle_type < old(self).particle_types@.len(),
            Self::charge_wf(old(self).particle_types@[particle_type as int].charge),
            0 <= x < old(self).width,
            0 <= y < old(self).height,
            forall|i: int|
                0 <= i < old(self).space@.len() ==> -(i64::MAX - CALL_BOUND) <= (
                #[trigger] old(self).space@[i]).field.x <= i64::MAX - CALL_BOUND && -(i64::MAX
                    - CALL_BOUND) <= old(self).space@[i].field.y <= i64::MAX - CALL_BOUND,
        ensures
            final(self).space@ == apply_charge_spec(
                old(self).space@,
                old(self).width as int,
                old(self).height as int,
                old(self).particle_types@[particle_type as int].charge,
                x as int,
                y as int,
            ),
            fields_within(old(self).space@, final(self).space@, CALL_BOUND as int),
            final(self).width == old(self).width,
            final(self).height == old(self).height,
            final(self).particle_types@ == old(self).particle_types@,
            old(self).particle_types@[particle_type as int].charge == (Vector2d { x: 0, y: 0 })
                ==> final(self).space@ == old(self).space@,
    {
        let charge = self.particle_types[particle_type].charge;
        self.accumulate_axis(true, charge.x, x, y);
        self.accumulate_axis(false, charge.y, x, y);
        proof {
            if charge == (Vector2d { x: 0, y: 0 }) {
                assert(abs_of(0) == 0);
            }
        }
    }

    /// Phase two of a tick: scan every cell in ascending flat order and, for
    /// each particle found, apply its type's charge centred on its own cell.
    /// Particles are only read here; only fields change.
    pub fn apply_charges(&mut self)
        requires
            old(self).wf(),
        ensures
            final(self).space@ == charges_pass(
                old(self).space@,
                old(self).width as int,
                old(self).height as int,
                old(self).particle_types@,
                (old(self).width * old(self).height) as nat,
            ),
            fields_within(old(self).space@, final(self).space@, FIELD_BOUND as int),
            final(self).width == old(self).width,
            final(self).height == old(self).height,
            final(self).particle_types@ == old(self).particle_types@,
    {
        let len = self.space.len();
        let h = self.height;
        let ghost w0 = old(self).width as int;
        let ghost h0 = old(self).height as int;
        proof {
            assert(w0 * h0 <= MAX_DIM * MAX_DIM) by (nonlinear_arith)
                requires 1 <= w0 <= MAX_DIM, 1 <= h0 <= MAX_DIM;
        }
        let mut idx: usize = 0;
        while idx < len
            invariant
                idx <= len,
                len == self.space@.len(),
                len == old(self).space@.len(),
                w0 == old(self).width as int,
                h0 == old(self).height as int,
                old(self).space@.len() == old(self).width * old(self).height,
                old(self).width * old(self).height <= MAX_DIM * MAX_DIM,
                old(self).wf(),
                h == old(self).height,
                self.width == old(self).width,
                self.height == old(self).height,
                self.particle_types@ == old(self).particle_types@,
                self.space@ == charges_pass(
                    old(self).space@,
                    old(self).width as int,
                    old(self).height as int,
                    old(self).particle_types@,
                    idx as nat,
                ),
                fields_within(old(self).space@, self.space@, (idx as int) * CALL_BOUND),
            decreases len - idx,
        {
            let ghost before = self.space@;
            let c = self.space[idx];
            match c.particle {
                Some(p) => {
                    let px = idx / (h as usize);
                    let py = idx % (h as usize);
                    proof {
                        lemma_fundamental_div_mod(idx as int, h as int);
                        assert(((idx as int) / (h as int)) < w0) by (nonlinear_arith)
                            requires
                                idx as int == (h as int) * ((idx as int) / (h as int)) + ((
                                idx as int) % (h as int)),
                                0 <= ((idx as int) % (h as int)),
                                ((idx as int) % (h as int)) < (h as int),
                                idx < w0 * h0,
                                h as int == h0,
                                1 <= h as int;
                        assert(MAX_DIM * MAX_DIM == 16777216);
                        assert((idx as int) * CALL_BOUND + CALL_BOUND <= FIELD_BOUND)
                            by (nonlinear_arith)
                            requires
                                0 <= idx as int <= 16777215,
                                CALL_BOUND == 2164293632,
                                FIELD_BOUND == 36310821751488512;
                        assert(FIELD_BOUND + FIELD_BOUND <= i64::MAX - CALL_BOUND);
                        assert forall|i: int| 0 <= i < self.space@.len() implies -(i64::MAX
                            - CALL_BOUND) <= (#[trigger] self.space@[i]).field.x <= i64::MAX
                            - CALL_BOUND && -(i64::MAX - CALL_BOUND) <= self.space@[i].field.y
                            <= i64::MAX - CALL_BOUND by {
                            assert(Self::cell_wf(
                                old(self).space@[i],
                                old(self).particle_types@.len() as int,
                            ));
                        };
                    }
                    self.apply_charge(p.particle_type, px as i64, py as i64);
                }
                None => {},
            }
            proof {
                assert(charges_pass(
                    old(self).space@,
                    old(self).width as int,
                    old(self).height as int,
                    old(self).particle_types@,
                    (idx + 1) as nat,
                ) == match before[idx as int].particle {
                    Some(p) => apply_charge_spec(
                        before,
                        old(self).width as int,
                        old(self).height as int,
                        old(self).particle_types@[p.particle_type as int].charge,
                        idx as int / old(self).height as int,
                        idx as int % old(self).height as int,
                    ),
                    None => before,
                });
            }
            idx = idx + 1;
        }
    }

    /// Phase three of a tick: scan every cell in ascending flat order. An
    /// unmoved particle is marked moved, reads the field at its own cell as
    /// its displacement, and relocates to the wrapped destination exactly
    /// when that cell is free; otherwise it stays. The moved mark keeps a
    /// relocated particle from being displaced twice in one tick, and no
    /// particle is ever created or destroyed here.
    pub fn move_particles(&mut self)
        requires
            old(self).wf(),
        ensures
            final(self).wf(),
            final(self).space@ == move_pass(
                old(self).space@,
                old(self).width as int,
                old(self).height as int,
                (old(self).width * old(self).height) as nat,
            ),
            final(self).width == old(self).width,
            final(self).height == old(self).height,
            final(self).particle_types@ == old(self).particle_types@,
            forall|i: int|
                0 <= i < final(self).space@.len() ==> (#[trigger] final(self).space@[i]).field
                    == old(self).space@[i].field,
            occupancy(final(self).space@) == occupancy(old(self).space@),
    {
        let len = self.space.len();
        let w = self.width;
        let h = self.height;
        let mut idx: usize = 0;
        while idx < len
            invariant
                idx <= len,
                len == self.space@.len(),
                len == old(self).space@.len(),
                old(self).wf(),
                w == old(self).width,
                h == old(self).height,
                self.width == w,
                self.height == h,
                self.particle_types@ == old(self).particle_types@,
                old(self).space@.len() == w * h,
                self.space@ == move_pass(
                    old(self).space@,
                    w as int,
                    h as int,
                    idx as nat,
                ),
                forall|i: int|
                    0 <= i < len ==> (#[trigger] self.space@[i]).field
                        == old(self).space@[i].field,
                forall|i: int|
                    0 <= i < len ==> ((#[trigger] self.space@[i]).particle matches Some(p)
                        ==> p.particle_type < self.particle_types@.len()),
                occupancy(self.space@) == occupancy(old(self).space@),
            decreases len - idx,
        {
            let ghost pre = self.space@;
            let x_i = idx / (h as usize);
            let y_i = idx % (h as usize);
            proof {
                lemma_fundamental_div_mod(idx as int, h as int);
                assert(((idx as int) / (h as int)) < w as int) by (nonlinear_arith)
                    requires
                        idx as int == (h as int) * ((idx as int) / (h as int)) + ((idx as int)
                            % (h as int)),
                        0 <= ((idx as int) % (h as int)),
                        ((idx as int) % (h as int)) < (h as int),
                        idx < (w as int) * (h as int),
                        1 <= h as int;
                assert(x_i as int == (idx as int) / (h as int));
                assert(y_i as int == (idx as int) % (h as int));
                assert(idx as int == (x_i as int) * (h as int) + (y_i as int))
                    by (nonlinear_arith)
                    requires
                        idx as int == (h as int) * ((idx as int) / (h as int)) + ((idx as int)
                            % (h as int)),
                        x_i as int == (idx as int) / (h as int),
                        y_i as int == (idx as int) % (h as int);
                assert(idx as int == flat_index(x_i as int, y_i as int, h as int));
            }
            let c = self.space[idx];
            let mut has = false;
            match c.particle {
                Some(p) => {
                    if !p.already_moved {
                        has = true;
                        let mut cc = c;
                        cc.particle = Some(
                            Particle {
                                already_moved: true,
                                velocity: p.velocity,
                                particle_type: p.particle_type,
                            },
                        );
                        self.space.set(idx, cc);
                        proof {
                            lemma_occupancy_update(pre, idx as int, cc);
                        }
                    }
                },
                None => {},
            }
            if has {
                let ghost flagged = self.space@;
                let fx = self.space[idx].field.x;
                let fy = self.space[idx].field.y;
                proof {
                    assert(Self::cell_wf(
                        old(self).space@[idx as int],
                        old(self).particle_types@.len() as int,
                    ));
                }
                let d = self.cell_at((x_i as i64) + fx, (y_i as i64) + fy);
                let mut can_move = false;
                match self.space[d].particle {
                    Some(_) => {},
                    None => {
                        can_move = true;
                    },
                }
                if can_move {
                    proof {
                        assert(d != idx);
                        lemma_occupancy_update(flagged, idx as int, Cell {
                            particle: None,
                            field: flagged[idx as int].field,
                        });
                    }
                    let mut src = self.space[idx];
                    let p = src.particle;
                    src.particle = None;
                    self.space.set(idx, src);
                    let ghost emptied = self.space@;
                    let mut dst = self.space[d];
                    dst.particle = p;
                    self.space.set(d, dst);
                    proof {
                        lemma_occupancy_update(emptied, d as int, dst);
                    }
                }
            }
            proof {
                assert(self.space@ == move_step(pre, w as int, h as int, x_i as int, y_i as int));
                assert(move_pass(old(self).space@, w as int, h as int, (idx + 1) as nat)
                    == move_step(
                    move_pass(old(self).space@, w as int, h as int, idx as nat),
                    w as int,
                    h as int,
                    ((idx as int) / (h as int)),
                    ((idx as int) % (h as int)),
                ));
            }
            idx = idx + 1;
        }
    }

    /// Phase four of a tick: clear the moved mark on every particle so the
    /// next tick's movement phase treats all particles as eligible again.
    pub fn make_particles_movable_again(&mut self)
        requires
            old(self).wf(),
        ensures
            final(self).wf(),
            final(self).space@ == clear_moved_spec(old(self).space@),
            final(self).width == old(self).width,
            final(self).height == old(self).height,
            final(self).particle_types@ == old(self).particle_types@,
            forall|i: int|
                0 <= i < final(self).space@.len() ==> (#[trigger] final(self).space@[i]).field
                    == old(self).space@[i].field,
            forall|i: int|
                0 <= i < final(self).space@.len() ==> ((#[trigger] final(self).space@[i]).particle
                    is Some) == (old(self).space@[i].particle is Some),
            forall|i: int|
                0 <= i < final(self).space@.len() ==> ((#[trigger] final(self).space@[i]).particle
                    matches Some(p) ==> !p.already_moved),
    {
        let len = self.space.len();
        let mut idx: usize = 0;
        while idx < len
            invariant
                idx <= len,
                len == self.space@.len(),
                len == old(self).space@.len(),
                old(self).wf(),
                self.width == old(self).width,
                self.height == old(self).height,
                self.particle_types@ == old(self).particle_types@,
                forall|i: int|
                    0 <= i < idx ==> (#[trigger] self.space@[i]) == clear_moved_spec(
                        old(self).space@,
                    )[i],
                forall|i: int|
                    idx <= i < len ==> (#[trigger] self.space@[i]) == old(self).space@[i],
            decreases len - idx,
        {
            let mut c = self.space[idx];
            match c.particle {
                Some(p) => {
                    c.particle = Some(
                        Particle {
                            already_moved: false,
                            velocity: p.velocity,
                            particle_type: p.particle_type,
                        },
                    );
                    self.space.set(idx, c);
                },
                None => {},
            }
            idx = idx + 1;
        }
        proof {
            assert(self.space@ =~= clear_moved_spec(old(self).space@));
        }
    }

    /// One tick of the simulation, in the fixed order: reset fields,
    /// accumulate charges, move particles, clear the moved marks. The total
    /// number of particles in the grid never changes.
    pub fn iterate(&mut self)
        requires
            old(self).wf(),
        ensures
            final(self).wf(),
            final(self).space@ == tick_spec(
                old(self).space@,
                old(self).width as int,
                old(self).height as int,
                old(self).particle_types@,
            ),
            final(self).width == old(self).width,
            final(self).height == old(self).height,
            final(self).particle_types@ == old(self).particle_types@,
            occupancy(final(self).space@) == occupancy(old(self).space@),
            forall|i: int|
                0 <= i < final(self).space@.len() ==> ((#[trigger] final(self).space@[i]).particle
                    matches Some(p) ==> !p.already_moved),
    {
        let ghost cfg0 = old(self).space@;
        self.reset_fields();
        let ghost r1 = self.space@;
        self.apply_charges();
        let ghost r2 = self.space@;
        proof {
            assert forall|i: int| 0 <= i < self.space@.len() implies Self::cell_wf(
                #[trigger] self.space@[i],
                self.particle_types@.len() as int,
            ) by {
                assert(Self::cell_wf(cfg0[i], old(self).particle_types@.len() as int));
                assert(r1[i].field == (Vector2d { x: 0, y: 0 }));
            };
            assert(self.wf());
            lemma_occupancy_congruent(cfg0, r1);
            lemma_occupancy_congruent(r1, r2);
        }
        self.move_particles();
        let ghost r3 = self.space@;
        self.make_particles_movable_again();
        proof {
            lemma_occupancy_congruent(r3, self.space@);
            assert(self.space@ == tick_spec(
                cfg0,
                old(self).width as int,
                old(self).height as int,
                old(self).particle_types@,
            ));
        }
    }
}

/// Toroidal normalization of one coordinate: the unique representative of
/// `v` modulo `m` that lies in `[0, m)`, reached by repeatedly adding or
/// subtracting the dimension, as out-of-range coordinates are rare and small.
pub fn wrap_dim(v: i64, m: i64) -> (r: usize)
    requires
        1 <= m <= MAX_DIM,
    ensures
        r as int == wrap(v as int, m as int),
        r < m,
{
    let mut vi: i64 = v;
    while vi < 0
        invariant
            1 <= m <= MAX_DIM,
            wrap(vi as int, m as int) == wrap(v as int, m as int),
        decreases (if vi < 0 { -vi as int } else { 0 }),
    {
        proof {
            lemma_mod_multiples_vanish(1, vi as int, m as int);
        }
        vi = vi + m;
    }
    while vi >= m
        invariant
            1 <= m <= MAX_DIM,
            vi >= 0,
            wrap(vi as int, m as int) == wrap(v as int, m as int),
        decreases vi,
    {
        proof {
            lemma_mod_multiples_vanish(-1, vi as int, m as int);
        }
        vi = vi - m;
    }
    proof {
        lemma_small_mod(vi as nat, m as nat);
    }
    vi as usize
}

} // verus!
