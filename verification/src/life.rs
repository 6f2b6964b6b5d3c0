//! Semantics of one simulation step: the standard Life rule on a torus.
//!
//! This is the meaning of the compute fragment program. A buffer holds one
//! RGBA texel per cell, row-major; the program samples the red channel of the
//! eight Moore neighbors with wraparound coordinates, thresholds each at the
//! midpoint, and writes the next generation as a grayscale texel.

use vstd::prelude::*;

verus! {

/// Byte offset of cell `(x, y)`'s texel in a row-major RGBA buffer of width `w`.
pub open spec fn texel_index(w: int, x: int, y: int) -> int {
    4 * (y * w + x)
}

/// The compute program reads a cell as live when its red channel exceeds the
/// midpoint (`r > 0.5` on a channel stored as `byte / 255`).
pub open spec fn texel_live(data: Seq<u8>, w: int, x: int, y: int) -> bool {
    data[texel_index(w, x, y)] >= 128
}

/// Torus wrap of a coordinate one step toward zero.
pub open spec fn wrap_dec(i: int, n: int) -> int {
    if i == 0 {
        n - 1
    } else {
        i - 1
    }
}

/// Torus wrap of a coordinate one step away from zero.
pub open spec fn wrap_inc(i: int, n: int) -> int {
    if i == n - 1 {
        0
    } else {
        i + 1
    }
}

/// 1 when the cell is live, 0 otherwise.
pub open spec fn live_ind(data: Seq<u8>, w: int, x: int, y: int) -> int {
    if texel_live(data, w, x, y) {
        1
    } else {
        0
    }
}

/// Number of live cells among the eight Moore neighbors of `(x, y)`,
/// with both coordinates wrapping around the grid edges.
pub open spec fn live_neighbors(data: Seq<u8>, w: int, h: int, x: int, y: int) -> int {
    let xm = wrap_dec(x, w);
    let xp = wrap_inc(x, w);
    let ym = wrap_dec(y, h);
    let yp = wrap_inc(y, h);
    live_ind(data, w, xm, ym) + live_ind(data, w, x, ym) + live_ind(data, w, xp, ym)
        + live_ind(data, w, xm, y) + live_ind(data, w, xp, y) + live_ind(data, w, xm, yp)
        + live_ind(data, w, x, yp) + live_ind(data, w, xp, yp)
}

/// The standard Life rule: a live cell survives with two or three live
/// neighbors; a dead cell becomes live with exactly three.
pub open spec fn next_live(cur: bool, neighbors: int) -> bool {
    if cur {
        neighbors == 2 || neighbors == 3
    } else {
        neighbors == 3
    }
}

/// A buffer is the size of a `w` by `h` grid of RGBA texels.
pub open spec fn data_sized(data: Seq<u8>, w: int, h: int) -> bool {
    data.len() == 4 * w * h
}

/// The byte a grayscale texel stores in its color channels: 255 when live, 0 when dead.
pub open spec fn live_byte(live: bool) -> u8 {
    if live {
        255u8
    } else {
        0u8
    }
}

/// The all-dead buffer: every texel `(0, 0, 0, 255)`.
pub open spec fn dead_data(w: int, h: int) -> Seq<u8> {
    Seq::new((4 * w * h) as nat, |i: int| if i % 4 == 3 { 255u8 } else { 0u8 })
}

/// The next generation of a buffer: each texel is the grayscale encoding of
/// the Life rule applied to the corresponding cell of `data`.
pub open spec fn next_gen(data: Seq<u8>, w: int, h: int) -> Seq<u8> {
    Seq::new(
        (4 * w * h) as nat,
        |i: int|
            {
                let cell = i / 4;
                let x = cell % w;
                let y = cell / w;
                if i % 4 == 3 {
                    255u8
                } else {
                    live_byte(next_live(texel_live(data, w, x, y), live_neighbors(data, w, h, x, y)))
                }
            },
    )
}

/// The texel of cell `(x, y)` is wholly inside a `w` by `h` buffer.
pub proof fn lemma_texel_index_bound(w: int, h: int, x: int, y: int)
    requires
        0 <= x < w,
        0 <= y < h,
    ensures
        0 <= y * w,
        0 <= y * w + x < w * h,
        0 <= texel_index(w, x, y),
        texel_index(w, x, y) + 3 < 4 * w * h,
{
    assert(0 <= y * w && y * w + x < w * h && 4 * (y * w + x) + 3 < 4 * w * h) by (nonlinear_arith)
        requires
            0 <= x < w,
            0 <= y < h,
    ;
}

/// Cells of the rows before `y` plus `x` cells never exceed the grid size.
proof fn lemma_cells_prefix_bound(w: int, h: int, x: int, y: int)
    requires
        0 <= x <= w,
        0 <= y < h,
    ensures
        0 <= y * w + x <= w * h,
        0 <= 4 * (y * w + x) <= 4 * w * h,
        (y + 1) * w == y * w + w,
{
    assert(0 <= y * w + x <= w * h && 0 <= 4 * (y * w + x) <= 4 * w * h && (y + 1) * w == y * w
        + w) by (nonlinear_arith)
        requires
            0 <= x <= w,
            0 <= y < h,
    ;
}

/// Splitting a byte index into its cell and channel: cell `y * w + x`,
/// channel `c`.
pub proof fn lemma_texel_index_decompose(w: int, x: int, y: int, c: int)
    requires
        0 <= x < w,
        0 <= y,
        0 <= c < 4,
    ensures
        (texel_index(w, x, y) + c) / 4 == y * w + x,
        (texel_index(w, x, y) + c) % 4 == c,
        (y * w + x) % w == x,
        (y * w + x) / w == y,
{
    assert((4 * (y * w + x) + c) / 4 == y * w + x && (4 * (y * w + x) + c) % 4 == c) by (nonlinear_arith)
        requires
            0 <= c < 4,
            0 <= y * w + x,
    ;
    assert((y * w + x) % w == x && (y * w + x) / w == y) by (nonlinear_arith)
        requires
            0 <= x < w,
            0 <= y,
    ;
}

/// A cell of the next generation is live exactly as the Life rule dictates:
/// a live cell survives with two or three live neighbors, a dead cell is born
/// with exactly three, and every other combination yields a dead cell.
pub proof fn lemma_step_rule(data: Seq<u8>, w: int, h: int, x: int, y: int)
    requires
        1 <= w,
        1 <= h,
        data_sized(data, w, h),
        0 <= x < w,
        0 <= y < h,
    ensures
        texel_live(next_gen(data, w, h), w, x, y) == next_live(
            texel_live(data, w, x, y),
            live_neighbors(data, w, h, x, y),
        ),
{
    lemma_texel_index_bound(w, h, x, y);
    lemma_texel_index_decompose(w, x, y, 0);
}

/// No spontaneous generation: stepping the all-dead grid yields the all-dead
/// grid again, on every grid size.
pub proof fn lemma_dead_grid_stays_dead(w: int, h: int)
    requires
        1 <= w,
        1 <= h,
    ensures
        next_gen(dead_data(w, h), w, h) == dead_data(w, h),
{
    let dead = dead_data(w, h);
    assert(data_sized(dead, w, h));
    assert forall|a: int, b: int| 0 <= a < w && 0 <= b < h implies !texel_live(dead, w, a, b) by {
        lemma_texel_index_bound(w, h, a, b);
        lemma_texel_index_decompose(w, a, b, 0);
    }
    assert forall|i: int| 0 <= i < dead.len() implies next_gen(dead, w, h)[i] == dead[i] by {
        if i % 4 != 3 {
            let cell = i / 4;
            let x = cell % w;
            let y = cell / w;
            lemma_byte_index_cell_bounds(w, h, i);
            lemma_texel_index_bound(w, h, x, y);
        }
    }
    assert(next_gen(dead, w, h) =~= dead);
}

/// Any byte index of a sized buffer belongs to an in-bounds cell.
pub proof fn lemma_byte_index_cell_bounds(w: int, h: int, i: int)
    requires
        1 <= w,
        1 <= h,
        0 <= i < 4 * w * h,
    ensures
        0 <= i / 4 < w * h,
        0 <= (i / 4) % w < w,
        0 <= (i / 4) / w < h,
{
    assert(0 <= i / 4 < w * h && 0 <= (i / 4) % w < w && 0 <= (i / 4) / w < h) by (nonlinear_arith)
        requires
            1 <= w,
            1 <= h,
            0 <= i < 4 * w * h,
    ;
}

/// A byte index whose cell is not `c` lies outside cell `c`'s texel.
pub proof fn lemma_byte_outside_texel(i: int, c: int)
    requires
        0 <= i,
        0 <= c,
        i / 4 != c,
    ensures
        i < 4 * c || i >= 4 * c + 4,
{
    assert(i < 4 * c || i >= 4 * c + 4) by (nonlinear_arith)
        requires
            0 <= i,
            0 <= c,
            i / 4 != c,
    ;
}

/// An isolated live cell dies: on a grid at least three wide and three tall,
/// a state with exactly one live cell steps to the all-dead state. (On
/// narrower grids the torus can make a cell its own neighbor: on a 1 by 2
/// grid a lone live cell has two live neighbors and survives.)
pub proof fn lemma_single_live_cell_dies(data: Seq<u8>, w: int, h: int, x: int, y: int)
    requires
        3 <= w,
        3 <= h,
        data_sized(data, w, h),
        0 <= x < w,
        0 <= y < h,
        texel_live(data, w, x, y),
        forall|a: int, b: int|
            0 <= a < w && 0 <= b < h && !(a == x && b == y) ==> !texel_live(data, w, a, b),
    ensures
        forall|a: int, b: int|
            0 <= a < w && 0 <= b < h ==> !texel_live(next_gen(data, w, h), w, a, b),
{
    let ng = next_gen(data, w, h);
    assert forall|a: int, b: int| 0 <= a < w && 0 <= b < h implies !texel_live(ng, w, a, b) by {
        lemma_step_rule(data, w, h, a, b);
        let xm = wrap_dec(a, w);
        let xp = wrap_inc(a, w);
        let ym = wrap_dec(b, h);
        let yp = wrap_inc(b, h);
        assert(live_ind(data, w, xm, ym) == if xm == x && ym == y { 1int } else { 0int });
        assert(live_ind(data, w, a, ym) == if a == x && ym == y { 1int } else { 0int });
        assert(live_ind(data, w, xp, ym) == if xp == x && ym == y { 1int } else { 0int });
        assert(live_ind(data, w, xm, b) == if xm == x && b == y { 1int } else { 0int });
        assert(live_ind(data, w, xp, b) == if xp == x && b == y { 1int } else { 0int });
        assert(live_ind(data, w, xm, yp) == if xm == x && yp == y { 1int } else { 0int });
        assert(live_ind(data, w, a, yp) == if a == x && yp == y { 1int } else { 0int });
        assert(live_ind(data, w, xp, yp) == if xp == x && yp == y { 1int } else { 0int });
        if a == x && b == y {
            assert(live_neighbors(data, w, h, a, b) == 0);
        } else {
            assert(live_neighbors(data, w, h, a, b) <= 1);
        }
    }
}

/// Reads one cell of a buffer as the compute program would.
fn read_cell(data: &Vec<u8>, w: u32, h: u32, x: u32, y: u32) -> (live: bool)
    requires
        data_sized(data@, w as int, h as int),
        x < w,
        y < h,
    ensures
        live == texel_live(data@, w as int, x as int, y as int),
{
    let n: usize = data.len();
    proof {
        lemma_texel_index_bound(w as int, h as int, x as int, y as int);
        assert(n == 4 * (w as int) * (h as int));
    }
    let idx: usize = 4 * ((y as usize) * (w as usize) + (x as usize));
    data[idx] >= 128
}

/// Counts the live cells among the eight Moore neighbors of `(x, y)`,
/// wrapping both coordinates around the grid edges.
fn count_neighbors(data: &Vec<u8>, w: u32, h: u32, x: u32, y: u32) -> (n: u8)
    requires
        1 <= w,
        1 <= h,
        data_sized(data@, w as int, h as int),
        x < w,
        y < h,
    ensures
        n as int == live_neighbors(data@, w as int, h as int, x as int, y as int),
{
    let xm: u32 = if x == 0 { w - 1 } else { x - 1 };
    let xp: u32 = if x == w - 1 { 0 } else { x + 1 };
    let ym: u32 = if y == 0 { h - 1 } else { y - 1 };
    let yp: u32 = if y == h - 1 { 0 } else { y + 1 };

    let mut neighbors: u8 = 0;
    if read_cell(data, w, h, xm, ym) {
        neighbors = neighbors + 1;
    }
    if read_cell(data, w, h, x, ym) {
        neighbors = neighbors + 1;
    }
    if read_cell(data, w, h, xp, ym) {
        neighbors = neighbors + 1;
    }
    if read_cell(data, w, h, xm, y) {
        neighbors = neighbors + 1;
    }
    if read_cell(data, w, h, xp, y) {
        neighbors = neighbors + 1;
    }
    if read_cell(data, w, h, xm, yp) {
        neighbors = neighbors + 1;
    }
    if read_cell(data, w, h, x, yp) {
        neighbors = neighbors + 1;
    }
    if read_cell(data, w, h, xp, yp) {
        neighbors = neighbors + 1;
    }
    neighbors
}

/// Computes the next generation of a buffer: the CPU-side meaning of one
/// compute pass over the full grid.
pub fn step_data(data: &Vec<u8>, w: u32, h: u32) -> (next: Vec<u8>)
    requires
        1 <= w,
        1 <= h,
        data_sized(data@, w as int, h as int),
    ensures
        next@ == next_gen(data@, w as int, h as int),
{
    let mut next: Vec<u8> = Vec::new();
    let ghost ng = next_gen(data@, w as int, h as int);
    assert(ng.len() == 4 * (w as int) * (h as int));
    let mut y: u32 = 0;
    while y < h
        invariant
            1 <= w,
            1 <= h,
            y <= h,
            data_sized(data@, w as int, h as int),
            ng == next_gen(data@, w as int, h as int),
            ng.len() == 4 * (w as int) * (h as int),
            next@.len() == 4 * ((y as int) * (w as int)),
            next@.len() <= ng.len(),
            forall|i: int| 0 <= i < next@.len() ==> next@[i] == ng[i],
        decreases h - y,
    {
        let mut x: u32 = 0;
        while x < w
            invariant
                1 <= w,
                1 <= h,
                y < h,
                x <= w,
                data_sized(data@, w as int, h as int),
                ng == next_gen(data@, w as int, h as int),
                ng.len() == 4 * (w as int) * (h as int),
                next@.len() == 4 * ((y as int) * (w as int) + (x as int)),
                next@.len() <= ng.len(),
                forall|i: int| 0 <= i < next@.len() ==> next@[i] == ng[i],
            decreases w - x,
        {
            let neighbors: u8 = count_neighbors(data, w, h, x, y);
            let cur = read_cell(data, w, h, x, y);
            let color: u8 = if cur {
                if neighbors == 2 || neighbors == 3 {
                    255
                } else {
                    0
                }
            } else {
                if neighbors == 3 {
                    255
                } else {
                    0
                }
            };
            proof {
                lemma_texel_index_bound(w as int, h as int, x as int, y as int);
            }
            let ghost base = texel_index(w as int, x as int, y as int);
            assert(next@.len() == base);
            next.push(color);
            next.push(color);
            next.push(color);
            next.push(255);
            proof {
                lemma_texel_index_decompose(w as int, x as int, y as int, 0);
                lemma_texel_index_decompose(w as int, x as int, y as int, 1);
                lemma_texel_index_decompose(w as int, x as int, y as int, 2);
                lemma_texel_index_decompose(w as int, x as int, y as int, 3);
                lemma_cells_prefix_bound(w as int, h as int, x as int + 1, y as int);
                assert(forall|i: int| base <= i < base + 4 ==> next@[i] == ng[i]);
            }
            x = x + 1;
        }
        proof {
            lemma_cells_prefix_bound(w as int, h as int, w as int, y as int);
        }
        y = y + 1;
    }
    proof {
        assert(4 * ((h as int) * (w as int)) == 4 * (w as int) * (h as int)) by (nonlinear_arith);
        assert(next@ =~= ng);
    }
    next
}

} // verus!
