//! One-time setup around the engine: random seeding of the initial
//! particles over the left half of the grid.

use vstd::prelude::*;
use rand::Rng;
use crate::grid::Cerebro;
use crate::laws::{lemma_flat_coords, lemma_flat_index_in_range};
use crate::types::{Particle, Vector2d, MAX_DIM};

verus! {

#[verifier::external_type_specification]
#[verifier::external_body]
pub struct ExThreadRng(rand::rngs::ThreadRng);

/// Relies on rand's `Rng::gen::<usize>` on `ThreadRng`: one uniformly drawn
/// machine word. Nothing can be promised of a random value.
#[verifier::external_body]
fn random_usize(rng: &mut rand::rngs::ThreadRng) -> usize {
    rng.gen()
}

/// The seeding walk visits the cells of the left half of the grid in
/// column-major order, bumping its counter once per cell and once more
/// between columns; a particle is placed where the counter is a multiple of
/// four — that is, at flat index `i` exactly when this holds.
pub open spec fn seeded_at(w: int, h: int, i: int) -> bool {
    i / h < w / 2 && ((i / h) * (h + 1) + i % h) % 4 == 0
}

impl Cerebro {
    /// Seed the left half of the grid: walking columns then rows, every
    /// fourth step of the walk overwrites the cell with a fresh, unmoved
    /// particle of a randomly drawn registered type; every other cell is
    /// left untouched.
    pub fn place_particles(&mut self, rng: &mut rand::rngs::ThreadRng)
        requires
            old(self).wf(),
            old(self).particle_types@.len() >= 1,
        ensures
            final(self).wf(),
            final(self).width == old(self).width,
            final(self).height == old(self).height,
            final(self).particle_types@ == old(self).particle_types@,
            final(self).space@.len() == old(self).space@.len(),
            forall|i: int|
                0 <= i < old(self).space@.len() && !seeded_at(
                    old(self).width as int,
                    old(self).height as int,
                    i,
                ) ==> final(self).space@[i] == old(self).space@[i],
            forall|i: int|
                0 <= i < old(self).space@.len() && seeded_at(
                    old(self).width as int,
                    old(self).height as int,
                    i,
                ) ==> (#[trigger] final(self).space@[i]).field == old(self).space@[i].field
                    && (final(self).space@[i].particle matches Some(p) && !p.already_moved
                    && p.velocity == (Vector2d { x: 0, y: 0 }) && p.particle_type < old(
                    self,
                ).particle_types@.len()),
    {
        let w = self.width;
        let h = self.height;
        let half = w / 2;
        let mut iteration: i64 = 0;
        let spacing: i64 = 4;
        let mut x: i64 = 0;
        while x < half
            invariant
                0 <= x <= half,
                half == w / 2,
                spacing == 4,
                w == old(self).width,
                h == old(self).height,
                self.width == w,
                self.height == h,
                1 <= w,
                1 <= h,
                self.particle_types@ == old(self).particle_types@,
                self.particle_types@.len() >= 1,
                old(self).wf(),
                self.space@.len() == old(self).space@.len(),
                old(self).space@.len() == w * h,
                0 <= iteration < 4,
                iteration == (x * (h + 1)) % 4,
                forall|i: int|
                    x * h <= i < self.space@.len() ==> (#[trigger] self.space@[i]) == old(
                        self,
                    ).space@[i],
                forall|i: int|
                    0 <= i < x * h && !seeded_at(w as int, h as int, i) ==> (
                    #[trigger] self.space@[i]) == old(self).space@[i],
                forall|i: int|
                    0 <= i < x * h && seeded_at(w as int, h as int, i) ==> (
                    #[trigger] self.space@[i]).field == old(self).space@[i].field && (
                    self.space@[i].particle matches Some(p) && !p.already_moved && p.velocity
                        == (Vector2d { x: 0, y: 0 }) && p.particle_type
                        < self.particle_types@.len()),
            decreases half - x,
        {
            let mut y: i64 = 0;
            while y < h
                invariant
                    0 <= y <= h,
                    0 <= x < half,
                    half == w / 2,
                    spacing == 4,
                    w == old(self).width,
                    h == old(self).height,
                    self.width == w,
                    self.height == h,
                    1 <= w,
                    1 <= h,
                    self.particle_types@ == old(self).particle_types@,
                    self.particle_types@.len() >= 1,
                    old(self).wf(),
                    self.space@.len() == old(self).space@.len(),
                    old(self).space@.len() == w * h,
                    0 <= iteration < 4,
                    iteration == (x * (h + 1) + y) % 4,
                    forall|i: int|
                        x * h + y <= i < self.space@.len() ==> (#[trigger] self.space@[i])
                            == old(self).space@[i],
                    forall|i: int|
                        0 <= i < x * h + y && !seeded_at(w as int, h as int, i) ==> (
                        #[trigger] self.space@[i]) == old(self).space@[i],
                    forall|i: int|
                        0 <= i < x * h + y && seeded_at(w as int, h as int, i) ==> (
                        #[trigger] self.space@[i]).field == old(self).space@[i].field && (
                        self.space@[i].particle matches Some(p) && !p.already_moved
                            && p.velocity == (Vector2d { x: 0, y: 0 }) && p.particle_type
                            < self.particle_types@.len()),
                decreases h - y,
            {
                proof {
                    lemma_flat_coords(x as int, y as int, h as int);
                    lemma_flat_index_in_range(x as int, y as int, w as int, h as int);
                    assert(x < w / 2 ==> (x * h + y) / (h as int) < w / 2);
                    assert(w * h <= MAX_DIM * MAX_DIM) by (nonlinear_arith)
                        requires 1 <= w <= MAX_DIM, 1 <= h <= MAX_DIM;
                }
                if iteration == 0 {
                    let random: usize = random_usize(rng);
                    let modulus: usize = self.particle_types.len();
                    let idx: usize = (x as usize) * (h as usize) + (y as usize);
                    let mut c = self.space[idx];
                    c.particle = Some(Particle::new(random % modulus));
                    self.space.set(idx, c);
                    proof {
                        assert(seeded_at(w as int, h as int, idx as int));
                    }
                } else {
                    proof {
                        assert(!seeded_at(w as int, h as int, x * h + y));
                    }
                }
                proof {
                    vstd::arithmetic::div_mod::lemma_add_mod_noop(
                        x * (h + 1) + y,
                        1,
                        4,
                    );
                }
                iteration = iteration + 1;
                iteration = iteration % spacing;
                y = y + 1;
            }
            proof {
                assert(x * (h + 1) + h + 1 == (x + 1) * (h + 1)) by (nonlinear_arith);
                assert((x + 1) * h == x * h + h) by (nonlinear_arith);
                vstd::arithmetic::div_mod::lemma_add_mod_noop(x * (h + 1) + h, 1, 4);
            }
            iteration = iteration + 1;
            iteration = iteration % spacing;
            x = x + 1;
        }
        proof {
            assert(half * h <= w * h) by (nonlinear_arith)
                requires 0 <= half <= w, 0 <= h;
            assert forall|i: int|
                0 <= i < old(self).space@.len() && seeded_at(w as int, h as int, i) implies i
                < half * h by {
                assert(i / (h as int) < w / 2);
                vstd::arithmetic::div_mod::lemma_fundamental_div_mod(i, h as int);
                assert(i < half * h) by (nonlinear_arith)
                    requires
                        i / (h as int) < half,
                        h as int >= 1,
                        i >= 0,
                        i == (h as int) * (i / (h as int)) + i % (h as int),
                        0 <= i % (h as int) < h as int;
            };
        }
    }
}

} // verus!
