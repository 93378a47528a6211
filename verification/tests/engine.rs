use cerebro::{Cerebro, Color, PlaceError, Vector2d};

fn count_particles(g: &Cerebro) -> usize {
    let mut n = 0;
    for x in 0..g.width {
        for y in 0..g.height {
            let (p, _) = g.inspect(x, y);
            if p.is_some() {
                n += 1;
            }
        }
    }
    n
}

#[test]
fn fields_are_zero_after_reset() {
    let mut g = Cerebro::new(5, 4);
    let t = g.register_particle_type(Vector2d::new(2, -1), Color::new(1, 2, 3));
    g.place_particle(1, 1, t).unwrap();
    g.place_particle(3, 2, t).unwrap();
    g.reset_fields();
    g.apply_charges();
    g.reset_fields();
    for x in 0..5 {
        for y in 0..4 {
            let (_, f) = g.inspect(x, y);
            assert_eq!(f, Vector2d::new(0, 0));
        }
    }
}

#[test]
fn single_unit_charge_moves_one_cell() {
    // A 3x3 toroidal grid with one particle of charge (1, 0) at (1, 1).
    let mut g = Cerebro::new(3, 3);
    let t = g.register_particle_type(Vector2d::new(1, 0), Color::new(0, 0, 0));
    g.place_particle(1, 1, t).unwrap();
    g.reset_fields();
    g.apply_charges();
    // Only the i = 0 ring exists, so the charge lands on (1, 1) alone.
    let (_, f) = g.inspect(1, 1);
    assert_eq!(f, Vector2d::new(1, 0));
    for &(x, y) in &[(0, 0), (1, 0), (2, 0), (0, 1), (2, 1), (0, 2), (1, 2), (2, 2)] {
        let (_, f) = g.inspect(x, y);
        assert_eq!(f, Vector2d::new(0, 0));
    }
    g.move_particles();
    g.make_particles_movable_again();
    assert_eq!(g.inspect(1, 1).0, None);
    assert_eq!(g.inspect(2, 1).0, Some(t));
}

#[test]
fn occupied_destination_blocks_the_move() {
    // Same setup, but the destination (2, 1) holds a zero-charge occupant.
    let mut g = Cerebro::new(3, 3);
    let mover = g.register_particle_type(Vector2d::new(1, 0), Color::new(0, 0, 0));
    let still = g.register_particle_type(Vector2d::new(0, 0), Color::new(9, 9, 9));
    g.place_particle(1, 1, mover).unwrap();
    g.place_particle(2, 1, still).unwrap();
    let before = count_particles(&g);
    g.iterate();
    assert_eq!(g.inspect(1, 1).0, Some(mover));
    assert_eq!(g.inspect(2, 1).0, Some(still));
    assert_eq!(count_particles(&g), before);
}

#[test]
fn triangular_falloff_superposes() {
    // Charge (2, 0) at (0, 0): ring 0 deposits 2 on (0, 0), ring 1 deposits
    // 1 on the whole 3x3 block around it, so (0, 0) accumulates 3 and
    // (1, 1) receives only the ring-1 term.
    let mut g = Cerebro::new(8, 8);
    let t = g.register_particle_type(Vector2d::new(2, 0), Color::new(0, 0, 0));
    g.place_particle(0, 0, t).unwrap();
    g.reset_fields();
    g.apply_charges();
    assert_eq!(g.inspect(0, 0).1, Vector2d::new(3, 0));
    assert_eq!(g.inspect(1, 1).1, Vector2d::new(1, 0));
    assert_eq!(g.inspect(2, 0).1, Vector2d::new(0, 0));
    // Wraparound spreads ring 1 to the far edge.
    assert_eq!(g.inspect(7, 7).1, Vector2d::new(1, 0));
}

#[test]
fn particle_count_is_conserved_over_ticks() {
    let mut g = Cerebro::new(6, 5);
    let a = g.register_particle_type(Vector2d::new(2, 1), Color::new(0, 0, 0));
    let b = g.register_particle_type(Vector2d::new(-1, 0), Color::new(1, 1, 1));
    g.place_particle(0, 0, a).unwrap();
    g.place_particle(2, 3, b).unwrap();
    g.place_particle(4, 1, a).unwrap();
    g.place_particle(5, 4, b).unwrap();
    let before = count_particles(&g);
    for _ in 0..5 {
        g.iterate();
        assert_eq!(count_particles(&g), before);
    }
}

#[test]
fn inspect_wraps_in_both_directions() {
    let mut g = Cerebro::new(3, 4);
    let t = g.register_particle_type(Vector2d::new(0, 0), Color::new(5, 5, 5));
    g.place_particle(1, 1, t).unwrap();
    let base = g.inspect(1, 1);
    assert_eq!(g.inspect(1 + 3, 1 + 4), base);
    assert_eq!(g.inspect(1 - 3, 1 - 4), base);
    assert_eq!(g.inspect(1 + 3 * 7, 1 + 4 * 7), base);
    assert_eq!(g.inspect(1 - 3 * 9, 1 - 4 * 9), base);
    assert_eq!(base.0, Some(t));
}

#[test]
fn zero_charge_particles_never_move() {
    let mut g = Cerebro::new(4, 4);
    let t = g.register_particle_type(Vector2d::new(0, 0), Color::new(1, 2, 3));
    g.place_particle(0, 0, t).unwrap();
    g.place_particle(2, 3, t).unwrap();
    g.reset_fields();
    g.apply_charges();
    // A zero charge contributes no field to any cell.
    for x in 0..4 {
        for y in 0..4 {
            assert_eq!(g.inspect(x, y).1, Vector2d::new(0, 0));
        }
    }
    for _ in 0..6 {
        g.iterate();
        assert_eq!(g.inspect(0, 0).0, Some(t));
        assert_eq!(g.inspect(2, 3).0, Some(t));
        assert_eq!(count_particles(&g), 2);
    }
}

#[test]
fn displacement_comes_from_the_cell_field_even_for_zero_charge() {
    // The field accumulated at a cell displaces whatever particle sits
    // there, so a zero-charge particle standing in a neighbour's field is
    // pushed along with it.
    let mut g = Cerebro::new(6, 3);
    let a = g.register_particle_type(Vector2d::new(2, 0), Color::new(0, 0, 0));
    let z = g.register_particle_type(Vector2d::new(0, 0), Color::new(1, 1, 1));
    g.place_particle(0, 1, a).unwrap();
    g.place_particle(1, 1, z).unwrap();
    g.reset_fields();
    g.apply_charges();
    assert_eq!(g.inspect(0, 1).1, Vector2d::new(3, 0));
    assert_eq!(g.inspect(1, 1).1, Vector2d::new(1, 0));
    g.move_particles();
    g.make_particles_movable_again();
    assert_eq!(g.inspect(3, 1).0, Some(a));
    assert_eq!(g.inspect(2, 1).0, Some(z));
    assert_eq!(g.inspect(0, 1).0, None);
    assert_eq!(g.inspect(1, 1).0, None);
    assert_eq!(count_particles(&g), 2);
}

#[test]
fn placing_with_a_bad_type_index_is_rejected() {
    let mut g = Cerebro::new(3, 3);
    assert_eq!(g.place_particle(0, 0, 0), Err(PlaceError::TypeIndexOutOfRange));
    let t = g.register_particle_type(Vector2d::new(0, 0), Color::new(0, 0, 0));
    assert_eq!(g.place_particle(0, 0, t), Ok(()));
    assert_eq!(g.place_particle(0, 0, 1), Err(PlaceError::TypeIndexOutOfRange));
    assert_eq!(
        PlaceError::TypeIndexOutOfRange.message(),
        "particle type index out of range"
    );
    // The rejected placement left the grid untouched.
    assert_eq!(g.inspect(0, 0).0, Some(t));
}

#[test]
fn registered_type_indices_are_stable() {
    let mut g = Cerebro::new(2, 2);
    assert_eq!(g.register_particle_type(Vector2d::new(1, 0), Color::new(1, 0, 0)), 0);
    assert_eq!(g.register_particle_type(Vector2d::new(0, 1), Color::new(0, 1, 0)), 1);
    assert_eq!(g.register_particle_type(Vector2d::new(-1, -1), Color::new(0, 0, 1)), 2);
}

#[test]
fn iterate_matches_the_four_phases_run_by_hand() {
    let build = || {
        let mut g = Cerebro::new(5, 5);
        let a = g.register_particle_type(Vector2d::new(1, 1), Color::new(0, 0, 0));
        let b = g.register_particle_type(Vector2d::new(-2, 0), Color::new(1, 1, 1));
        g.place_particle(0, 0, a).unwrap();
        g.place_particle(2, 2, b).unwrap();
        g.place_particle(4, 4, a).unwrap();
        g
    };
    let mut g1 = build();
    let mut g2 = build();
    g1.iterate();
    g2.reset_fields();
    g2.apply_charges();
    g2.move_particles();
    g2.make_particles_movable_again();
    for x in 0..5 {
        for y in 0..5 {
            assert_eq!(g1.inspect(x, y), g2.inspect(x, y));
        }
    }
}

#[test]
fn movement_displaces_by_the_full_field_magnitude() {
    // Displacement is the raw accumulated field, not clamped to neighbours:
    // a lone charge (3, 0) deposits 3, 2 and 1 on its own cell across the
    // three rings, so the particle jumps six cells at once.
    let mut g = Cerebro::new(9, 9);
    let t = g.register_particle_type(Vector2d::new(3, 0), Color::new(0, 0, 0));
    g.place_particle(1, 4, t).unwrap();
    g.reset_fields();
    g.apply_charges();
    assert_eq!(g.inspect(1, 4).1, Vector2d::new(6, 0));
    g.move_particles();
    g.make_particles_movable_again();
    assert_eq!(g.inspect(1, 4).0, None);
    assert_eq!(g.inspect(7, 4).0, Some(t));
}
