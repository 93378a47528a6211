//! Conversion of the grid into a BGRA pixel buffer for the rendering
//! collaborator: every cell paints a square block of pixels in its type's
//! colour; empty cells paint white.

use vstd::prelude::*;
use vstd::arithmetic::div_mod::lemma_fundamental_div_mod;
use crate::grid::Cerebro;
use crate::laws::lemma_flat_index_in_range;
use crate::model::flat_index;
use crate::types::{Color, ParticleType, Cell, MAX_DIM};

verus! {

/// Does byte index `i` of the pixel buffer fall inside the square block of
/// side `cell_size` at block coordinates `(x, y)`? Bytes come four per
/// pixel and rows are `width` pixels wide.
pub open spec fn rect_covers(x: int, y: int, width: int, cell_size: int, i: int) -> bool {
    let p = i / 4;
    let px = p % width;
    let py = p / width;
    &&& x * cell_size <= px < (x + 1) * cell_size
    &&& y * cell_size <= py < (y + 1) * cell_size
}

/// The byte written at index `i` of a painted pixel: blue, green, red, then
/// full alpha.
pub open spec fn rect_byte(color: Color, i: int) -> u8 {
    let r = i % 4;
    if r == 0 {
        color.blue
    } else if r == 1 {
        color.green
    } else if r == 2 {
        color.red
    } else {
        255
    }
}

/// Which bytes a prefix of the block scan has painted: full pixel columns
/// below `xp`, plus the rows below `yp` of column `xp`.
spec fn block_prefix(x: int, y: int, width: int, cell_size: int, xp: int, yp: int, i: int) -> bool {
    let p = i / 4;
    let px = p % width;
    let py = p / width;
    &&& rect_covers(x, y, width, cell_size, i)
    &&& (px < xp || (px == xp && py < yp))
}

/// Paint the square block of side `cell_size` at block coordinates
/// `(x, y)` of a BGRA pixel buffer `width` pixels wide, touching no other
/// byte.
pub fn draw_rectangle(
    x: usize,
    y: usize,
    pixels: &mut Vec<u8>,
    width: usize,
    color: &Color,
    cell_size: usize,
)
    requires
        (x + 1) * cell_size <= width,
        (y + 1) * cell_size * width * 4 <= old(pixels).len(),
    ensures
        final(pixels).len() == old(pixels).len(),
        forall|i: int|
            0 <= i < old(pixels).len() ==> final(pixels)@[i] == (if rect_covers(
                x as int,
                y as int,
                width as int,
                cell_size as int,
                i,
            ) {
                rect_byte(*color, i)
            } else {
                old(pixels)@[i]
            }),
{
    proof {
        assert((x + 1) * cell_size == x * cell_size + cell_size) by (nonlinear_arith);
        assert((y + 1) * cell_size == y * cell_size + cell_size) by (nonlinear_arith);
        if cell_size >= 1 {
            assert((y + 1) * cell_size <= (y + 1) * cell_size * (width as int) * 4)
                by (nonlinear_arith)
                requires cell_size >= 1, (x as int + 1) * cell_size <= width;
        }
    }
    let x_init = x * cell_size;
    let x_final = x_init + cell_size;
    let y_init = y * cell_size;
    let y_final = y_init + cell_size;
    let mut x_pixel = x_init;
    while x_pixel < x_final
        invariant
            x_init == x * cell_size,
            x_final == (x + 1) * cell_size,
            y_init == y * cell_size,
            y_final == (y + 1) * cell_size,
            x_init <= x_pixel <= x_final,
            x_final == x_init + cell_size,
            y_final == y_init + cell_size,
            x_final <= width,
            (y + 1) * cell_size * width * 4 <= old(pixels).len(),
            pixels@.len() == old(pixels)@.len(),
            forall|i: int|
                0 <= i < old(pixels)@.len() ==> pixels@[i] == (if block_prefix(
                    x as int,
                    y as int,
                    width as int,
                    cell_size as int,
                    x_pixel as int,
                    y_init as int,
                    i,
                ) {
                    rect_byte(*color, i)
                } else {
                    old(pixels)@[i]
                }),
        decreases x_final - x_pixel,
    {
        let mut y_pixel = y_init;
        while y_pixel < y_final
            invariant
                x_init == x * cell_size,
                x_final == (x + 1) * cell_size,
                y_init == y * cell_size,
                y_final == (y + 1) * cell_size,
                x_init <= x_pixel < x_final,
                y_init <= y_pixel <= y_final,
                x_final == x_init + cell_size,
                y_final == y_init + cell_size,
                x_final <= width,
                (y + 1) * cell_size * width * 4 <= old(pixels).len(),
                pixels@.len() == old(pixels)@.len(),
                forall|i: int|
                    0 <= i < old(pixels)@.len() ==> pixels@[i] == (if block_prefix(
                        x as int,
                        y as int,
                        width as int,
                        cell_size as int,
                        x_pixel as int,
                        y_pixel as int,
                        i,
                    ) {
                        rect_byte(*color, i)
                    } else {
                        old(pixels)@[i]
                    }),
            decreases y_final - y_pixel,
        {
            proof {
                assert(y_pixel * width * 4 + x_pixel * 4 + 4 <= (y_pixel + 1) * (width as int)
                    * 4 && (y_pixel + 1) * (width as int) * 4 <= y_final * (width as int) * 4
                    && y_final * (width as int) * 4 <= (y as int + 1) * cell_size * (
                width as int) * 4) by (nonlinear_arith)
                    requires
                        0 <= x_pixel < width,
                        0 <= y_pixel,
                        y_pixel + 1 <= y_final,
                        y_final == (y as int + 1) * cell_size;
            }
            let index = y_pixel * width * 4 + x_pixel * 4;
            pixels.set(index, color.blue);
            pixels.set(index + 1, color.green);
            pixels.set(index + 2, color.red);
            pixels.set(index + 3, 255);
            proof {
                let p = (y_pixel * width + x_pixel) as int;
                assert(index as int == 4 * p);
                assert forall|i: int|
                    0 <= i < old(pixels)@.len() implies pixels@[i] == (if block_prefix(
                    x as int,
                    y as int,
                    width as int,
                    cell_size as int,
                    x_pixel as int,
                    (y_pixel + 1) as int,
                    i,
                ) {
                    rect_byte(*color, i)
                } else {
                    old(pixels)@[i]
                }) by {
                    lemma_fundamental_div_mod(i, 4);
                    lemma_fundamental_div_mod(i / 4, width as int);
                    if index as int <= i < index as int + 4 {
                        assert(i / 4 == p && 0 <= i % 4 < 4) by (nonlinear_arith)
                            requires
                                4 * p <= i < 4 * p + 4,
                                i == 4 * (i / 4) + i % 4,
                                0 <= i % 4 < 4;
                        assert((i / 4) % (width as int) == x_pixel && (i / 4) / (width as int)
                            == y_pixel) by (nonlinear_arith)
                            requires
                                i / 4 == (y_pixel as int) * (width as int) + x_pixel,
                                i / 4 == (width as int) * ((i / 4) / (width as int)) + (i / 4)
                                    % (width as int),
                                0 <= (i / 4) % (width as int) < width as int,
                                0 <= x_pixel < width,
                                0 <= y_pixel,
                                0 <= (i / 4) / (width as int);
                    } else {
                        assert(!(i / 4 == p)) by (nonlinear_arith)
                            requires
                                !(4 * p <= i < 4 * p + 4),
                                i == 4 * (i / 4) + i % 4,
                                0 <= i % 4 < 4;
                        assert(((i / 4) % (width as int) == x_pixel && (i / 4) / (width as int)
                            == y_pixel) ==> i / 4 == p) by (nonlinear_arith)
                            requires
                                i / 4 == (width as int) * ((i / 4) / (width as int)) + (i / 4)
                                    % (width as int),
                                p == (y_pixel as int) * (width as int) + x_pixel;
                    }
                };
            }
            y_pixel = y_pixel + 1;
        }
        proof {
            assert forall|i: int| #![auto]
                0 <= i < old(pixels)@.len() implies (block_prefix(
                x as int,
                y as int,
                width as int,
                cell_size as int,
                x_pixel as int,
                y_final as int,
                i,
            ) == block_prefix(
                x as int,
                y as int,
                width as int,
                cell_size as int,
                (x_pixel + 1) as int,
                y_init as int,
                i,
            )) by {};
        }
        x_pixel = x_pixel + 1;
    }
}

/// The colour a cell is painted with: its particle's type colour, or white
/// for an empty cell.
pub open spec fn cell_color_spec(
    cfg: Seq<Cell>,
    types: Seq<ParticleType>,
    h: int,
    cx: int,
    cy: int,
) -> Color {
    match cfg[flat_index(cx, cy, h)].particle {
        Some(p) => types[p.particle_type as int].color,
        None => Color { red: 255, green: 255, blue: 255 },
    }
}

/// Which bytes a prefix of the cell scan has painted: the blocks of all
/// cell columns below `cx`, plus the blocks below row `cy` of column `cx`.
spec fn drawn_prefix(
    gw: int,
    gh: int,
    width: int,
    cell_size: int,
    cx: int,
    cy: int,
    i: int,
) -> bool {
    let p = i / 4;
    let px = p % width;
    let py = p / width;
    ||| (px < cx * cell_size && py < gh * cell_size)
    ||| (cx * cell_size <= px < (cx + 1) * cell_size && py < cy * cell_size)
}

/// Paint the whole grid into a BGRA pixel buffer `width` pixels wide: every
/// cell's block gets the cell's colour; bytes beyond the painted area are
/// untouched.
pub fn draw_cerebro(cerebro: &Cerebro, pixels: &mut Vec<u8>, width: usize, cell_size: usize)
    requires
        cerebro.wf(),
        cerebro.width * cell_size <= width,
        cerebro.height * cell_size * width * 4 <= old(pixels).len(),
    ensures
        final(pixels).len() == old(pixels).len(),
        forall|cx: int, cy: int, i: int|
            0 <= cx < cerebro.width && 0 <= cy < cerebro.height && 0 <= i < old(pixels).len()
                && #[trigger] rect_covers(cx, cy, width as int, cell_size as int, i) ==> final(pixels)@[i] == rect_byte(
                cell_color_spec(
                    cerebro.space@,
                    cerebro.particle_types@,
                    cerebro.height as int,
                    cx,
                    cy,
                ),
                i,
            ),
        forall|i: int|
            0 <= i < old(pixels).len() && !((i / 4) % (width as int) < cerebro.width * cell_size
                && (i / 4) / (width as int) < cerebro.height * cell_size) ==> final(pixels)@[i] == old(pixels)@[i],
{
    let gw = cerebro.width;
    let gh = cerebro.height;
    let mut cx: i64 = 0;
    while cx < gw
        invariant
            0 <= cx <= gw,
            gw == cerebro.width,
            gh == cerebro.height,
            cerebro.wf(),
            cerebro.width * cell_size <= width,
            cerebro.height * cell_size * width * 4 <= old(pixels).len(),
            pixels@.len() == old(pixels)@.len(),
            forall|a: int, b: int, i: int|
                0 <= a < gw && 0 <= b < gh && 0 <= i < old(pixels)@.len() && (a < cx)
                    && #[trigger] rect_covers(a, b, width as int, cell_size as int, i)
                    ==> pixels@[i] == rect_byte(
                    cell_color_spec(
                        cerebro.space@,
                        cerebro.particle_types@,
                        gh as int,
                        a,
                        b,
                    ),
                    i,
                ),
            forall|i: int|
                0 <= i < old(pixels)@.len() && !drawn_prefix(
                    gw as int,
                    gh as int,
                    width as int,
                    cell_size as int,
                    cx as int,
                    0,
                    i,
                ) ==> pixels@[i] == old(pixels)@[i],
        decreases gw - cx,
    {
        let mut cy: i64 = 0;
        while cy < gh
            invariant
                0 <= cx < gw,
                0 <= cy <= gh,
                gw == cerebro.width,
                gh == cerebro.height,
                cerebro.wf(),
                cerebro.width * cell_size <= width,
                cerebro.height * cell_size * width * 4 <= old(pixels).len(),
                pixels@.len() == old(pixels)@.len(),
                forall|a: int, b: int, i: int|
                    0 <= a < gw && 0 <= b < gh && 0 <= i < old(pixels)@.len() && (a < cx || (a
                        == cx && b < cy)) && #[trigger] rect_covers(
                        a,
                        b,
                        width as int,
                        cell_size as int,
                        i,
                    ) ==> pixels@[i] == rect_byte(
                        cell_color_spec(
                            cerebro.space@,
                            cerebro.particle_types@,
                            gh as int,
                            a,
                            b,
                        ),
                        i,
                    ),
                forall|i: int|
                    0 <= i < old(pixels)@.len() && !drawn_prefix(
                        gw as int,
                        gh as int,
                        width as int,
                        cell_size as int,
                        cx as int,
                        cy as int,
                        i,
                    ) ==> pixels@[i] == old(pixels)@[i],
            decreases gh - cy,
        {
            proof {
                lemma_flat_index_in_range(cx as int, cy as int, gw as int, gh as int);
                assert((cx + 1) * cell_size <= gw * cell_size && (cy + 1) * cell_size * (
                width as int) * 4 <= gh * cell_size * (width as int) * 4) by (nonlinear_arith)
                    requires
                        0 <= cx,
                        cx + 1 <= gw,
                        0 <= cy,
                        cy + 1 <= gh,
                        0 <= cell_size,
                        0 <= width;
                assert(gw * gh <= MAX_DIM * MAX_DIM) by (nonlinear_arith)
                    requires 1 <= gw <= MAX_DIM, 1 <= gh <= MAX_DIM;
            }
            let idx: usize = (cx as usize) * (gh as usize) + (cy as usize);
            let color = match self_cell_particle(cerebro, idx) {
                Some(t) => cerebro.particle_types[t].color,
                None => Color { red: 255, green: 255, blue: 255 },
            };
            let ghost before = pixels@;
            draw_rectangle(cx as usize, cy as usize, pixels, width, &color, cell_size);
            proof {
                assert(color == cell_color_spec(
                    cerebro.space@,
                    cerebro.particle_types@,
                    gh as int,
                    cx as int,
                    cy as int,
                ));
                assert forall|a: int, b: int, i: int|
                    0 <= a < gw && 0 <= b < gh && 0 <= i < old(pixels)@.len() && (a < cx || (a
                        == cx && b < cy + 1)) && #[trigger] rect_covers(
                    a,
                    b,
                    width as int,
                    cell_size as int,
                    i,
                ) implies pixels@[i] == rect_byte(
                    cell_color_spec(
                        cerebro.space@,
                        cerebro.particle_types@,
                        gh as int,
                        a,
                        b,
                    ),
                    i,
                ) by {
                    if a == cx && b == cy {
                    } else {
                        assert(!rect_covers(
                            cx as int,
                            cy as int,
                            width as int,
                            cell_size as int,
                            i,
                        )) by (nonlinear_arith)
                            requires
                                rect_covers(a, b, width as int, cell_size as int, i),
                                !(a == cx && b == cy),
                                0 <= a,
                                0 <= b,
                                0 <= cx,
                                0 <= cy;
                        assert(pixels@[i] == before[i]);
                    }
                };
                assert forall|i: int|
                    0 <= i < old(pixels)@.len() && !drawn_prefix(
                    gw as int,
                    gh as int,
                    width as int,
                    cell_size as int,
                    cx as int,
                    (cy + 1) as int,
                    i,
                ) implies pixels@[i] == old(pixels)@[i] by {
                    assert(!rect_covers(cx as int, cy as int, width as int, cell_size as int, i)
                        && !drawn_prefix(
                        gw as int,
                        gh as int,
                        width as int,
                        cell_size as int,
                        cx as int,
                        cy as int,
                        i,
                    )) by (nonlinear_arith)
                        requires
                            !drawn_prefix(
                                gw as int,
                                gh as int,
                                width as int,
                                cell_size as int,
                                cx as int,
                                (cy + 1) as int,
                                i,
                            ),
                            0 <= cx,
                            0 <= cy,
                            cy + 1 <= gh,
                            0 <= cell_size;
                    assert(pixels@[i] == before[i]);
                };
            }
            cy = cy + 1;
        }
        proof {
            assert forall|i: int|
                0 <= i < old(pixels)@.len() && !drawn_prefix(
                gw as int,
                gh as int,
                width as int,
                cell_size as int,
                (cx + 1) as int,
                0,
                i,
            ) implies !drawn_prefix(
                gw as int,
                gh as int,
                width as int,
                cell_size as int,
                cx as int,
                gh as int,
                i,
            ) by {
                assert(((i / 4) % (width as int) < (cx + 1) * cell_size && (i / 4) / (
                width as int) < gh * cell_size) == drawn_prefix(
                    gw as int,
                    gh as int,
                    width as int,
                    cell_size as int,
                    cx as int,
                    gh as int,
                    i,
                ) || !drawn_prefix(
                    gw as int,
                    gh as int,
                    width as int,
                    cell_size as int,
                    cx as int,
                    gh as int,
                    i,
                )) by (nonlinear_arith);
                assert(drawn_prefix(
                    gw as int,
                    gh as int,
                    width as int,
                    cell_size as int,
                    cx as int,
                    gh as int,
                    i,
                ) ==> drawn_prefix(
                    gw as int,
                    gh as int,
                    width as int,
                    cell_size as int,
                    (cx + 1) as int,
                    0,
                    i,
                )) by (nonlinear_arith)
                    requires 0 <= cx, 0 <= cell_size;
            };
        }
        cx = cx + 1;
    }
    proof {
        assert forall|i: int|
            0 <= i < old(pixels)@.len() && !((i / 4) % (width as int) < cerebro.width
                * cell_size && (i / 4) / (width as int) < cerebro.height * cell_size) implies
            !drawn_prefix(
                gw as int,
                gh as int,
                width as int,
                cell_size as int,
                gw as int,
                0,
                i,
            ) by {
            lemma_fundamental_div_mod(i, 4);
            if width >= 1 {
                lemma_fundamental_div_mod(i / 4, width as int);
                assert(0 <= (i / 4) / (width as int)) by (nonlinear_arith)
                    requires
                        i / 4 == (width as int) * ((i / 4) / (width as int)) + (i / 4) % (
                        width as int),
                        0 <= (i / 4) % (width as int),
                        (i / 4) % (width as int) < width as int,
                        0 <= i / 4,
                        1 <= width as int;
            } else {
                assert(cell_size == 0) by (nonlinear_arith)
                    requires
                        (gw as int) * (cell_size as int) <= width as int,
                        1 <= gw as int,
                        width as int == 0,
                        0 <= cell_size as int;
                assert(((gw as int) + 1) * (cell_size as int) == (gw as int) * (
                cell_size as int)) by (nonlinear_arith)
                    requires cell_size as int == 0;
            }
        };
    }
}

/// Read the type index of the particle on the cell at flat index `idx`.
fn self_cell_particle(cerebro: &Cerebro, idx: usize) -> (r: Option<usize>)
    requires
        idx < cerebro.space@.len(),
        cerebro.wf(),
    ensures
        r == (match cerebro.space@[idx as int].particle {
            Some(p) => Some(p.particle_type),
            None => None::<usize>,
        }),
        r matches Some(t) ==> t < cerebro.particle_types@.len(),
{
    match cerebro.space[idx].particle {
        Some(p) => Some(p.particle_type),
        None => None,
    }
}

} // verus!
