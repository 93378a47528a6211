//! Proofs of the engine's global laws: how occupancy behaves under updates
//! and passes, that a tick conserves particles, and the other properties the
//! model guarantees.

use vstd::prelude::*;
use vstd::arithmetic::div_mod::{
    lemma_fundamental_div_mod, lemma_mod_multiples_vanish, lemma_small_mod,
};
use crate::model::{
    abs_of, apply_charge_spec, cell_count, charges_pass, clear_moved_spec, dest_of, flat_index,
    inspect_spec, move_pass, move_step, occupancy, reset_spec, ring_amount, sweep_axis, sweep_dx,
    sweep_dy, tick_spec, ticks_spec, wrap,
};
use crate::types::{Cell, Particle, ParticleType, Vector2d};

verus! {

/// A flat index below `w * h` decomposes into in-range grid coordinates.
pub proof fn lemma_index_coords(j: int, w: int, h: int)
    requires
        0 <= j < w * h,
        1 <= w,
        1 <= h,
    ensures
        0 <= j / h < w,
        0 <= j % h < h,
        flat_index(j / h, j % h, h) == j,
{
    lemma_fundamental_div_mod(j, h);
    assert(0 <= j / h < w && (j / h) * h + j % h == j) by (nonlinear_arith)
        requires
            j == h * (j / h) + j % h,
            0 <= j % h < h,
            0 <= j < w * h,
            1 <= h;
}

/// Building a flat index from in-range coordinates and taking it apart
/// again are inverse operations.
pub proof fn lemma_flat_coords(a: int, b: int, h: int)
    requires
        0 <= a,
        0 <= b < h,
    ensures
        (a * h + b) / h == a,
        (a * h + b) % h == b,
{
    lemma_fundamental_div_mod(a * h + b, h);
    assert((a * h + b) / h == a && (a * h + b) % h == b) by (nonlinear_arith)
        requires
            a * h + b == h * ((a * h + b) / h) + (a * h + b) % h,
            0 <= (a * h + b) % h < h,
            0 <= a,
            0 <= b < h;
}

/// In-range grid coordinates give a flat index below `w * h`.
pub proof fn lemma_flat_index_in_range(px: int, py: int, w: int, h: int)
    requires
        0 <= px < w,
        0 <= py < h,
    ensures
        0 <= flat_index(px, py, h) < w * h,
{
    assert(0 <= px * h + py < w * h) by (nonlinear_arith)
        requires
            0 <= px < w,
            0 <= py < h;
}

/// A movement pass touches only particle slots: every cell keeps its field.
pub proof fn lemma_move_pass_fields(cfg: Seq<Cell>, w: int, h: int, k: nat)
    requires
        cfg.len() == w * h,
        1 <= w,
        1 <= h,
        k <= w * h,
    ensures
        move_pass(cfg, w, h, k).len() == cfg.len(),
        forall|j: int|
            0 <= j < cfg.len() ==> (#[trigger] move_pass(cfg, w, h, k)[j]).field == cfg[j].field,
    decreases k,
{
    if k > 0 {
        lemma_move_pass_fields(cfg, w, h, (k - 1) as nat);
        let prev = move_pass(cfg, w, h, (k - 1) as nat);
        let j0 = k - 1;
        lemma_index_coords(j0, w, h);
        let x = j0 / h;
        let y = j0 % h;
        match prev[j0].particle {
            Some(p) => {
                if !p.already_moved {
                    lemma_flat_index_in_range(
                        wrap(x + prev[j0].field.x, w),
                        wrap(y + prev[j0].field.y, h),
                        w,
                        h,
                    );
                }
            },
            None => {},
        }
    }
}

/// Single occupancy: a cell is a slot for at most one particle, so no cell
/// ever contributes more than one to the grid's occupancy.
pub proof fn lemma_single_occupancy(cfg: Seq<Cell>, i: int)
    requires
        0 <= i < cfg.len(),
    ensures
        0 <= cell_count(cfg[i]) <= 1,
{
}

/// Wraparound correctness: inspecting `(x + k * w, y + k * h)` reports the
/// same cell as inspecting `(x, y)`, for any integer `k`.
pub proof fn lemma_inspect_wraparound(cfg: Seq<Cell>, w: int, h: int, x: int, y: int, k: int)
    requires
        1 <= w,
        1 <= h,
    ensures
        inspect_spec(cfg, w, h, x + k * w, y + k * h) == inspect_spec(cfg, w, h, x, y),
{
    assert(x + k * w == w * k + x) by (nonlinear_arith);
    assert(y + k * h == h * k + y) by (nonlinear_arith);
    lemma_mod_multiples_vanish(k, x, w);
    lemma_mod_multiples_vanish(k, y, h);
}

/// A particle `p` found at flat index `j` part-way through a movement pass
/// is accounted for by an origin cell `o` of the pass's starting
/// configuration: `o` held a particle of the same type and velocity, and `j`
/// is `o` itself or the single destination `o`'s own field points to.
pub open spec fn origin_matches(
    cfg: Seq<Cell>,
    w: int,
    h: int,
    o: int,
    j: int,
    p: Particle,
) -> bool {
    &&& 0 <= o < cfg.len()
    &&& cfg[o].particle matches Some(q) && q.particle_type == p.particle_type && q.velocity
        == p.velocity
    &&& (j == o || j == dest_of(cfg, w, h, o))
}

/// At most one move per particle per tick: after any prefix of a movement
/// pass, a still-unmoved particle sits exactly where the pass found it, and
/// every particle sits at an origin of the starting configuration or at that
/// origin's one field-directed destination — never two hops away.
#[verifier::rlimit(100)]
pub proof fn lemma_at_most_one_move(cfg: Seq<Cell>, w: int, h: int, k: nat)
    requires
        cfg.len() == w * h,
        1 <= w,
        1 <= h,
        k <= w * h,
    ensures
        move_pass(cfg, w, h, k).len() == cfg.len(),
        forall|j: int|
            0 <= j < cfg.len() ==> ((#[trigger] move_pass(cfg, w, h, k)[j]).particle matches Some(
                p,
            ) ==> (p.already_moved || cfg[j].particle == Some(p))),
        forall|j: int|
            0 <= j < cfg.len() ==> ((#[trigger] move_pass(cfg, w, h, k)[j]).particle matches Some(
                p,
            ) ==> exists|o: int| origin_matches(cfg, w, h, o, j, p)),
    decreases k,
{
    if k > 0 {
        lemma_at_most_one_move(cfg, w, h, (k - 1) as nat);
        lemma_move_pass_fields(cfg, w, h, (k - 1) as nat);
        let prev = move_pass(cfg, w, h, (k - 1) as nat);
        let cur = move_pass(cfg, w, h, k);
        let j0 = k - 1;
        lemma_index_coords(j0, w, h);
        let x = j0 / h;
        let y = j0 % h;
        assert(cur == move_step(prev, w, h, x, y));
        assert(prev.len() == cfg.len());
        match prev[j0].particle {
            Some(p0) => {
                if !p0.already_moved {
                    lemma_flat_index_in_range(
                        wrap(x + prev[j0].field.x, w),
                        wrap(y + prev[j0].field.y, h),
                        w,
                        h,
                    );
                }
            },
            None => {},
        }
        assert(cur.len() == cfg.len());
        assert forall|j: int|
            0 <= j < cfg.len() implies (((#[trigger] move_pass(cfg, w, h, k)[j]).particle
            matches Some(p) ==> (p.already_moved || cfg[j].particle == Some(p))) && (move_pass(
            cfg,
            w,
            h,
            k,
        )[j].particle matches Some(p2) ==> exists|o: int|
            origin_matches(cfg, w, h, o, j, p2))) by {
            match move_pass(cfg, w, h, k)[j].particle {
                Some(pz) => {
                    assert(cur[j].particle == Some(pz));
                    match prev[j0].particle {
                        Some(p0) => {
                            if !p0.already_moved {
                                assert(cfg[j0].particle == Some(p0));
                                let q = Particle {
                                    already_moved: true,
                                    velocity: p0.velocity,
                                    particle_type: p0.particle_type,
                                };
                                let flagged = prev.update(
                                    j0,
                                    Cell { particle: Some(q), field: prev[j0].field },
                                );
                                let d = flat_index(
                                    wrap(x + prev[j0].field.x, w),
                                    wrap(y + prev[j0].field.y, h),
                                    h,
                                );
                                assert(prev[j0].field == cfg[j0].field);
                                assert(d == dest_of(cfg, w, h, j0));
                                lemma_flat_index_in_range(
                                    wrap(x + prev[j0].field.x, w),
                                    wrap(y + prev[j0].field.y, h),
                                    w,
                                    h,
                                );
                                if flagged[d].particle is None {
                                    assert(cur == flagged.update(
                                        j0,
                                        Cell { particle: None, field: prev[j0].field },
                                    ).update(
                                        d,
                                        Cell { particle: Some(q), field: flagged[d].field },
                                    ));
                                    if j == d {
                                        assert(pz == q);
                                        assert(pz.already_moved);
                                        assert(origin_matches(cfg, w, h, j0, j, pz));
                                        assert(exists|o: int|
                                            origin_matches(cfg, w, h, o, j, pz));
                                    } else if j == j0 {
                                        assert(cur[j].particle is None);
                                        assert(false);
                                    } else {
                                        assert(cur[j] == prev[j]);
                                        assert(prev[j].particle == Some(pz));
                                        assert(prev[j].particle matches Some(px) ==> (
                                        px.already_moved || cfg[j].particle == Some(px)));
                                        assert(pz.already_moved || cfg[j].particle == Some(
                                            pz,
                                        ));
                                        assert(prev[j].particle matches Some(px)
                                            ==> exists|o: int|
                                            origin_matches(cfg, w, h, o, j, px));
                                        assert(exists|o: int|
                                            origin_matches(cfg, w, h, o, j, pz));
                                    }
                                } else {
                                    assert(cur == flagged);
                                    if j == j0 {
                                        assert(pz == q);
                                        assert(pz.already_moved);
                                        assert(origin_matches(cfg, w, h, j0, j, pz));
                                        assert(exists|o: int|
                                            origin_matches(cfg, w, h, o, j, pz));
                                    } else {
                                        assert(cur[j] == prev[j]);
                                        assert(prev[j].particle == Some(pz));
                                        assert(prev[j].particle matches Some(px) ==> (
                                        px.already_moved || cfg[j].particle == Some(px)));
                                        assert(pz.already_moved || cfg[j].particle == Some(
                                            pz,
                                        ));
                                        assert(prev[j].particle matches Some(px)
                                            ==> exists|o: int|
                                            origin_matches(cfg, w, h, o, j, px));
                                        assert(exists|o: int|
                                            origin_matches(cfg, w, h, o, j, pz));
                                    }
                                }
                            } else {
                                assert(cur == prev);
                                assert(prev[j].particle == Some(pz));
                                assert(prev[j].particle matches Some(px) ==> (
                                px.already_moved || cfg[j].particle == Some(px)));
                                assert(pz.already_moved || cfg[j].particle == Some(pz));
                                assert(prev[j].particle matches Some(px) ==> exists|o: int|
                                    origin_matches(cfg, w, h, o, j, px));
                                assert(exists|o: int| origin_matches(cfg, w, h, o, j, pz));
                            }
                        },
                        None => {
                            assert(cur == prev);
                            assert(prev[j].particle == Some(pz));
                            assert(prev[j].particle matches Some(px) ==> (px.already_moved
                                || cfg[j].particle == Some(px)));
                            assert(pz.already_moved || cfg[j].particle == Some(pz));
                            assert(prev[j].particle matches Some(px) ==> exists|o: int|
                                origin_matches(cfg, w, h, o, j, px));
                            assert(exists|o: int| origin_matches(cfg, w, h, o, j, pz));
                        },
                    }
                },
                None => {},
            }
        };
    } else {
        assert forall|j: int|
            0 <= j < cfg.len() implies ((#[trigger] move_pass(cfg, w, h, k)[j]).particle
            matches Some(p) ==> exists|o: int| origin_matches(cfg, w, h, o, j, p)) by {
            match move_pass(cfg, w, h, k)[j].particle {
                Some(pz) => {
                    assert(cfg[j].particle == Some(pz));
                    assert(origin_matches(cfg, w, h, j, j, pz));
                    assert(exists|o: int| origin_matches(cfg, w, h, o, j, pz));
                },
                None => {},
            }
        };
    }
}

/// A zero charge deposits nothing: with every particle's type carrying the
/// zero charge, an accumulation pass leaves the configuration untouched.
pub proof fn lemma_zero_charges_pass(
    cfg: Seq<Cell>,
    w: int,
    h: int,
    types: Seq<ParticleType>,
    k: nat,
)
    requires
        k <= cfg.len(),
        forall|i: int|
            0 <= i < cfg.len() ==> ((#[trigger] cfg[i]).particle matches Some(p)
                ==> p.particle_type < types.len() && types[p.particle_type as int].charge == (
                Vector2d { x: 0, y: 0 })),
    ensures
        charges_pass(cfg, w, h, types, k) == cfg,
    decreases k,
{
    if k > 0 {
        lemma_zero_charges_pass(cfg, w, h, types, (k - 1) as nat);
        match cfg[k - 1].particle {
            Some(p) => {
                assert(abs_of(0) == 0);
                assert(apply_charge_spec(
                    cfg,
                    w,
                    h,
                    types[p.particle_type as int].charge,
                    (k - 1) / h,
                    (k - 1) % h,
                ) == cfg);
            },
            None => {},
        }
    }
}

/// With every field zero, a movement pass moves nothing: every particle
/// keeps its cell, its type and its velocity; only moved marks may change.
pub proof fn lemma_zero_fields_move(cfg: Seq<Cell>, w: int, h: int, k: nat)
    requires
        cfg.len() == w * h,
        1 <= w,
        1 <= h,
        k <= w * h,
        forall|i: int|
            0 <= i < cfg.len() ==> (#[trigger] cfg[i]).field == (Vector2d { x: 0, y: 0 }),
    ensures
        move_pass(cfg, w, h, k).len() == cfg.len(),
        forall|j: int|
            0 <= j < cfg.len() ==> ((#[trigger] move_pass(cfg, w, h, k)[j]).particle is Some) == (
            cfg[j].particle is Some),
        forall|j: int|
            0 <= j < cfg.len() ==> ((#[trigger] move_pass(cfg, w, h, k)[j]).particle matches Some(
                p,
            ) ==> cfg[j].particle matches Some(q) && q.particle_type == p.particle_type
                && q.velocity == p.velocity),
    decreases k,
{
    if k > 0 {
        lemma_zero_fields_move(cfg, w, h, (k - 1) as nat);
        lemma_move_pass_fields(cfg, w, h, (k - 1) as nat);
        let prev = move_pass(cfg, w, h, (k - 1) as nat);
        let j0 = k - 1;
        lemma_index_coords(j0, w, h);
        let x = j0 / h;
        let y = j0 % h;
        match prev[j0].particle {
            Some(p) => {
                if !p.already_moved {
                    assert(prev[j0].field == cfg[j0].field);
                    lemma_small_mod(x as nat, w as nat);
                    lemma_small_mod(y as nat, h as nat);
                    assert(wrap(x + prev[j0].field.x, w) == x);
                    assert(wrap(y + prev[j0].field.y, h) == y);
                }
            },
            None => {},
        }
    }
}

/// Zero-charge stationarity for one tick: on a grid whose particles all
/// have zero-charge types, a tick only zeroes fields and clears moved
/// marks; no particle changes cell, and no field is contributed anywhere.
pub proof fn lemma_zero_charge_stationary(
    cfg: Seq<Cell>,
    w: int,
    h: int,
    types: Seq<ParticleType>,
)
    requires
        cfg.len() == w * h,
        1 <= w,
        1 <= h,
        forall|i: int|
            0 <= i < cfg.len() ==> ((#[trigger] cfg[i]).particle matches Some(p)
                ==> p.particle_type < types.len() && types[p.particle_type as int].charge == (
                Vector2d { x: 0, y: 0 })),
    ensures
        tick_spec(cfg, w, h, types) == clear_moved_spec(reset_spec(cfg)),
{
    let r1 = reset_spec(cfg);
    assert(r1.len() == cfg.len());
    lemma_zero_charges_pass(r1, w, h, types, (w * h) as nat);
    lemma_zero_fields_move(r1, w, h, (w * h) as nat);
    lemma_move_pass_fields(r1, w, h, (w * h) as nat);
    let r3 = move_pass(r1, w, h, (w * h) as nat);
    assert forall|i: int| 0 <= i < cfg.len() implies clear_moved_spec(r3)[i] == clear_moved_spec(
        r1,
    )[i] by {
        assert(r3[i].field == r1[i].field);
        assert((r3[i].particle is Some) == (r1[i].particle is Some));
    };
    assert(clear_moved_spec(r3) =~= clear_moved_spec(r1));
}

/// Zero-charge stationarity across any number of ticks: the grid settles
/// after the first tick and then never changes again.
pub proof fn lemma_zero_charge_stationary_many(
    cfg: Seq<Cell>,
    w: int,
    h: int,
    types: Seq<ParticleType>,
    n: nat,
)
    requires
        cfg.len() == w * h,
        1 <= w,
        1 <= h,
        1 <= n,
        forall|i: int|
            0 <= i < cfg.len() ==> ((#[trigger] cfg[i]).particle matches Some(p)
                ==> p.particle_type < types.len() && types[p.particle_type as int].charge == (
                Vector2d { x: 0, y: 0 })),
    ensures
        ticks_spec(cfg, w, h, types, n) == clear_moved_spec(reset_spec(cfg)),
    decreases n,
{
    let s = clear_moved_spec(reset_spec(cfg));
    assert(ticks_spec(cfg, w, h, types, n) == tick_spec(
        ticks_spec(cfg, w, h, types, (n - 1) as nat),
        w,
        h,
        types,
    ));
    if n == 1 {
        assert(ticks_spec(cfg, w, h, types, 0) == cfg);
        lemma_zero_charge_stationary(cfg, w, h, types);
    } else {
        lemma_zero_charge_stationary_many(cfg, w, h, types, (n - 1) as nat);
        assert(s.len() == cfg.len());
        assert(forall|i: int|
            0 <= i < s.len() ==> ((#[trigger] s[i]).particle matches Some(p) ==> p.particle_type
                < types.len() && types[p.particle_type as int].charge == (Vector2d {
                x: 0,
                y: 0,
            })));
        lemma_zero_charge_stationary(s, w, h, types);
        assert forall|i: int| 0 <= i < cfg.len() implies clear_moved_spec(reset_spec(s))[i]
            == s[i] by {};
        assert(clear_moved_spec(reset_spec(s)) =~= s);
    }
}

/// A deposit sweep touches only fields: every cell keeps its particle.
proof fn lemma_sweep_dy_particles(
    cfg: Seq<Cell>,
    w: int,
    h: int,
    horizontal: bool,
    amt: int,
    x: int,
    y: int,
    xi: int,
    dx: int,
    dy_n: nat,
)
    requires
        cfg.len() == w * h,
        1 <= w,
        1 <= h,
    ensures
        sweep_dy(cfg, w, h, horizontal, amt, x, y, xi, dx, dy_n).len() == cfg.len(),
        forall|j: int|
            0 <= j < cfg.len() ==> (#[trigger] sweep_dy(
                cfg,
                w,
                h,
                horizontal,
                amt,
                x,
                y,
                xi,
                dx,
                dy_n,
            )[j]).particle == cfg[j].particle,
    decreases dy_n,
{
    if dy_n > 0 {
        lemma_sweep_dy_particles(cfg, w, h, horizontal, amt, x, y, xi, dx, (dy_n - 1) as nat);
        let dy = -xi + dy_n - 1;
        lemma_flat_index_in_range(wrap(x + dx, w), wrap(y + dy, h), w, h);
    }
}

/// A full square sweep touches only fields: every cell keeps its particle.
proof fn lemma_sweep_dx_particles(
    cfg: Seq<Cell>,
    w: int,
    h: int,
    horizontal: bool,
    amt: int,
    x: int,
    y: int,
    xi: int,
    dx_n: nat,
)
    requires
        cfg.len() == w * h,
        1 <= w,
        1 <= h,
    ensures
        sweep_dx(cfg, w, h, horizontal, amt, x, y, xi, dx_n).len() == cfg.len(),
        forall|j: int|
            0 <= j < cfg.len() ==> (#[trigger] sweep_dx(
                cfg,
                w,
                h,
                horizontal,
                amt,
                x,
                y,
                xi,
                dx_n,
            )[j]).particle == cfg[j].particle,
    decreases dx_n,
{
    if dx_n > 0 {
        lemma_sweep_dx_particles(cfg, w, h, horizontal, amt, x, y, xi, (dx_n - 1) as nat);
        let prev = sweep_dx(cfg, w, h, horizontal, amt, x, y, xi, (dx_n - 1) as nat);
        let dx = -xi + dx_n - 1;
        lemma_sweep_dy_particles(prev, w, h, horizontal, amt, x, y, xi, dx, (2 * xi + 1) as nat);
    }
}

/// A whole axis of a charge application touches only fields.
proof fn lemma_sweep_axis_particles(
    cfg: Seq<Cell>,
    w: int,
    h: int,
    horizontal: bool,
    init: int,
    x: int,
    y: int,
    xi_n: nat,
)
    requires
        cfg.len() == w * h,
        1 <= w,
        1 <= h,
    ensures
        sweep_axis(cfg, w, h, horizontal, init, x, y, xi_n).len() == cfg.len(),
        forall|j: int|
            0 <= j < cfg.len() ==> (#[trigger] sweep_axis(
                cfg,
                w,
                h,
                horizontal,
                init,
                x,
                y,
                xi_n,
            )[j]).particle == cfg[j].particle,
    decreases xi_n,
{
    if xi_n > 0 {
        lemma_sweep_axis_particles(cfg, w, h, horizontal, init, x, y, (xi_n - 1) as nat);
        let prev = sweep_axis(cfg, w, h, horizontal, init, x, y, (xi_n - 1) as nat);
        let xi = xi_n - 1;
        lemma_sweep_dx_particles(
            prev,
            w,
            h,
            horizontal,
            ring_amount(init, xi),
            x,
            y,
            xi,
            (2 * xi + 1) as nat,
        );
    }
}

/// The whole accumulation pass touches only fields: particles are exactly
/// where they were, so it cannot create or destroy any.
pub proof fn lemma_charges_pass_particles(
    cfg: Seq<Cell>,
    w: int,
    h: int,
    types: Seq<ParticleType>,
    k: nat,
)
    requires
        cfg.len() == w * h,
        1 <= w,
        1 <= h,
        k <= w * h,
    ensures
        charges_pass(cfg, w, h, types, k).len() == cfg.len(),
        forall|j: int|
            0 <= j < cfg.len() ==> (#[trigger] charges_pass(cfg, w, h, types, k)[j]).particle
                == cfg[j].particle,
    decreases k,
{
    if k > 0 {
        lemma_charges_pass_particles(cfg, w, h, types, (k - 1) as nat);
        let prev = charges_pass(cfg, w, h, types, (k - 1) as nat);
        match prev[k - 1].particle {
            Some(p) => {
                let charge = types[p.particle_type as int].charge;
                let x = (k - 1) / h;
                let y = (k - 1) % h;
                lemma_sweep_axis_particles(
                    prev,
                    w,
                    h,
                    true,
                    charge.x as int,
                    x,
                    y,
                    abs_of(charge.x as int) as nat,
                );
                let mid = sweep_axis(
                    prev,
                    w,
                    h,
                    true,
                    charge.x as int,
                    x,
                    y,
                    abs_of(charge.x as int) as nat,
                );
                lemma_sweep_axis_particles(
                    mid,
                    w,
                    h,
                    false,
                    charge.y as int,
                    x,
                    y,
                    abs_of(charge.y as int) as nat,
                );
            },
            None => {},
        }
    }
}

/// A movement pass conserves the particles: each step either leaves the
/// configuration alone, flags a particle in place, or moves one particle
/// into a previously empty cell — the total occupancy never changes.
pub proof fn lemma_move_pass_occupancy(cfg: Seq<Cell>, w: int, h: int, k: nat)
    requires
        cfg.len() == w * h,
        1 <= w,
        1 <= h,
        k <= w * h,
    ensures
        occupancy(move_pass(cfg, w, h, k)) == occupancy(cfg),
    decreases k,
{
    if k > 0 {
        lemma_move_pass_occupancy(cfg, w, h, (k - 1) as nat);
        lemma_move_pass_fields(cfg, w, h, (k - 1) as nat);
        let prev = move_pass(cfg, w, h, (k - 1) as nat);
        let j0 = k - 1;
        lemma_index_coords(j0, w, h);
        let x = j0 / h;
        let y = j0 % h;
        match prev[j0].particle {
            Some(p) => {
                if !p.already_moved {
                    let q = Particle {
                        already_moved: true,
                        velocity: p.velocity,
                        particle_type: p.particle_type,
                    };
                    let fc = Cell { particle: Some(q), field: prev[j0].field };
                    let flagged = prev.update(j0, fc);
                    lemma_occupancy_update(prev, j0, fc);
                    let d = flat_index(
                        wrap(x + prev[j0].field.x, w),
                        wrap(y + prev[j0].field.y, h),
                        h,
                    );
                    lemma_flat_index_in_range(
                        wrap(x + prev[j0].field.x, w),
                        wrap(y + prev[j0].field.y, h),
                        w,
                        h,
                    );
                    if flagged[d].particle is None {
                        assert(d != j0);
                        let ec = Cell { particle: None, field: prev[j0].field };
                        let emptied = flagged.update(j0, ec);
                        lemma_occupancy_update(flagged, j0, ec);
                        lemma_occupancy_update(
                            emptied,
                            d,
                            Cell { particle: Some(q), field: flagged[d].field },
                        );
                    }
                }
            },
            None => {},
        }
    }
}

/// Conservation: one whole tick never changes the total number of
/// particles in the grid.
pub proof fn lemma_tick_occupancy(cfg: Seq<Cell>, w: int, h: int, types: Seq<ParticleType>)
    requires
        cfg.len() == w * h,
        1 <= w,
        1 <= h,
    ensures
        occupancy(tick_spec(cfg, w, h, types)) == occupancy(cfg),
        tick_spec(cfg, w, h, types).len() == cfg.len(),
{
    let r1 = reset_spec(cfg);
    assert(r1.len() == cfg.len());
    assert forall|i: int| 0 <= i < cfg.len() implies cell_count(#[trigger] r1[i]) == cell_count(
        cfg[i],
    ) by {
        assert(r1[i].particle == cfg[i].particle);
    };
    lemma_occupancy_congruent(cfg, r1);
    let r2 = charges_pass(r1, w, h, types, (w * h) as nat);
    lemma_charges_pass_particles(r1, w, h, types, (w * h) as nat);
    assert forall|i: int| 0 <= i < r1.len() implies cell_count(#[trigger] r2[i]) == cell_count(
        r1[i],
    ) by {
        assert(r2[i].particle == r1[i].particle);
    };
    lemma_occupancy_congruent(r1, r2);
    lemma_move_pass_occupancy(r2, w, h, (w * h) as nat);
    lemma_move_pass_fields(r2, w, h, (w * h) as nat);
    let r3 = move_pass(r2, w, h, (w * h) as nat);
    let r4 = clear_moved_spec(r3);
    assert forall|i: int| 0 <= i < r3.len() implies cell_count(#[trigger] r4[i]) == cell_count(
        r3[i],
    ) by {};
    lemma_occupancy_congruent(r3, r4);
}

/// Conservation over any sequence of ticks: however long the simulation
/// runs, the total number of particles in the grid never changes.
pub proof fn lemma_ticks_occupancy(
    cfg: Seq<Cell>,
    w: int,
    h: int,
    types: Seq<ParticleType>,
    n: nat,
)
    requires
        cfg.len() == w * h,
        1 <= w,
        1 <= h,
    ensures
        occupancy(ticks_spec(cfg, w, h, types, n)) == occupancy(cfg),
        ticks_spec(cfg, w, h, types, n).len() == cfg.len(),
    decreases n,
{
    if n > 0 {
        lemma_ticks_occupancy(cfg, w, h, types, (n - 1) as nat);
        lemma_tick_occupancy(ticks_spec(cfg, w, h, types, (n - 1) as nat), w, h, types);
    }
}

/// Updating one cell changes the total occupancy by exactly the difference
/// between the new and the old cell's count.
pub proof fn lemma_occupancy_update(cfg: Seq<Cell>, i: int, c: Cell)
    requires
        0 <= i < cfg.len(),
    ensures
        occupancy(cfg.update(i, c)) == occupancy(cfg) - cell_count(cfg[i]) + cell_count(c),
    decreases cfg.len(),
{
    let u = cfg.update(i, c);
    if i == cfg.len() - 1 {
        assert(u.drop_last() =~= cfg.drop_last());
        assert(u.last() == c);
    } else {
        lemma_occupancy_update(cfg.drop_last(), i, c);
        assert(u.drop_last() =~= cfg.drop_last().update(i, c));
        assert(u.last() == cfg.last());
    }
}

/// Two cell sequences whose cells agree on occupancy everywhere have the
/// same total occupancy.
pub proof fn lemma_occupancy_congruent(a: Seq<Cell>, b: Seq<Cell>)
    requires
        a.len() == b.len(),
        forall|i: int| 0 <= i < a.len() ==> cell_count(#[trigger] b[i]) == cell_count(a[i]),
    ensures
        occupancy(a) == occupancy(b),
    decreases a.len(),
{
    if a.len() > 0 {
        lemma_occupancy_congruent(a.drop_last(), b.drop_last());
        assert(cell_count(b.last()) == cell_count(a.last()));
    }
}

} // verus!
