use cerebro::draw::{draw_cerebro, draw_rectangle};
use cerebro::{Cerebro, Color, Vector2d};

#[test]
fn random_seeding_follows_the_spacing_pattern() {
    let mut g = Cerebro::new(8, 4);
    g.register_particle_type(Vector2d::new(1, 0), Color::new(0, 0, 0));
    g.register_particle_type(Vector2d::new(0, 1), Color::new(1, 1, 1));
    let mut rng = rand::thread_rng();
    g.place_particles(&mut rng);
    // The walk bumps its counter once per cell and once more per column, so
    // over the left half a particle stands exactly where the walk count
    // x * (height + 1) + y is a multiple of four.
    for x in 0..8i64 {
        for y in 0..4i64 {
            let expected = x < 4 && (x * 5 + y) % 4 == 0;
            let (p, _) = g.inspect(x, y);
            assert_eq!(p.is_some(), expected, "cell ({}, {})", x, y);
            if let Some(t) = p {
                assert!(t < 2);
            }
        }
    }
}

#[test]
fn rectangle_paints_its_block_and_nothing_else() {
    // A 4-pixel-wide BGRA buffer, two rows of blocks of side 2.
    let mut pixels: Vec<u8> = vec![0xAA; 4 * 4 * 4];
    let color = Color::new(1, 2, 3);
    draw_rectangle(1, 0, &mut pixels, 4, &color, 2);
    // Pixel (2, 0) lies inside the block: bytes are blue, green, red, alpha.
    let base = (0 * 4 + 2) * 4;
    assert_eq!(&pixels[base..base + 4], &[3, 2, 1, 255]);
    // Pixel (3, 1) lies inside too.
    let base = (1 * 4 + 3) * 4;
    assert_eq!(&pixels[base..base + 4], &[3, 2, 1, 255]);
    // Pixel (1, 0) lies outside and keeps its old bytes.
    let base = (0 * 4 + 1) * 4;
    assert_eq!(&pixels[base..base + 4], &[0xAA; 4]);
    // Rows below the block are untouched.
    let base = (2 * 4 + 2) * 4;
    assert_eq!(&pixels[base..base + 4], &[0xAA; 4]);
}

#[test]
fn grid_rendering_colours_cells_and_blanks_empties() {
    let mut g = Cerebro::new(2, 1);
    let t = g.register_particle_type(Vector2d::new(0, 0), Color::new(10, 20, 30));
    g.place_particle(0, 0, t).unwrap();
    let mut pixels: Vec<u8> = vec![0; 2 * 1 * 4];
    draw_cerebro(&g, &mut pixels, 2, 1);
    // The occupied cell paints its type colour in BGRA order.
    assert_eq!(&pixels[0..4], &[30, 20, 10, 255]);
    // The empty cell paints white.
    assert_eq!(&pixels[4..8], &[255, 255, 255, 255]);
}

#[test]
fn rendering_respects_the_cell_size() {
    let mut g = Cerebro::new(1, 2);
    let t = g.register_particle_type(Vector2d::new(0, 0), Color::new(1, 2, 3));
    g.place_particle(0, 1, t).unwrap();
    // One cell column, two rows, blocks of side 2: a 2x4-pixel buffer.
    let mut pixels: Vec<u8> = vec![0; 2 * 4 * 4];
    draw_cerebro(&g, &mut pixels, 2, 2);
    // Rows 0..2 belong to the empty cell (white), rows 2..4 to the particle.
    for py in 0..2usize {
        for px in 0..2usize {
            let base = (py * 2 + px) * 4;
            assert_eq!(&pixels[base..base + 4], &[255, 255, 255, 255]);
        }
    }
    for py in 2..4usize {
        for px in 0..2usize {
            let base = (py * 2 + px) * 4;
            assert_eq!(&pixels[base..base + 4], &[3, 2, 1, 255]);
        }
    }
}
