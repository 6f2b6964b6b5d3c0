//! Pixel-buffer construction and editing for the texture store.
//!
//! Every buffer is `width * height` RGBA texels, row-major, one texel per
//! cell. The host uploads these buffers to the device textures unchanged, so
//! their contents are exactly the simulation state.

use crate::life::{dead_data, lemma_texel_index_bound, texel_index};
use vstd::prelude::*;

verus! {

/// Some entry of `ps` names the cell `(x, y)`.
pub open spec fn pos_marked(ps: Seq<(u32, u32)>, x: int, y: int) -> bool {
    exists|k: int| 0 <= k < ps.len() && ps[k].0 == x && ps[k].1 == y
}

/// The buffer that is all dead except at the listed positions: marked texels
/// are `(255, 255, 255, 255)`, all others `(0, 0, 0, 255)`.
pub open spec fn pattern_data(w: int, h: int, ps: Seq<(u32, u32)>) -> Seq<u8> {
    Seq::new(
        (4 * w * h) as nat,
        |i: int|
            {
                let cell = i / 4;
                if i % 4 == 3 {
                    255u8
                } else if pos_marked(ps, cell % w, cell / w) {
                    255u8
                } else {
                    0u8
                }
            },
    )
}

/// The buffer whose cell `c` is live exactly when `live[c]` holds.
pub open spec fn random_data(w: int, h: int, live: Seq<bool>) -> Seq<u8> {
    Seq::new(
        (4 * w * h) as nat,
        |i: int|
            {
                if i % 4 == 3 {
                    255u8
                } else if live[i / 4] {
                    255u8
                } else {
                    0u8
                }
            },
    )
}

/// A cell of a pattern buffer reads as live exactly when its position is
/// listed.
pub proof fn lemma_pattern_data_live(w: int, h: int, ps: Seq<(u32, u32)>)
    requires
        1 <= w,
        1 <= h,
    ensures
        forall|x: int, y: int|
            0 <= x < w && 0 <= y < h ==> #[trigger] crate::life::texel_live(
                pattern_data(w, h, ps),
                w,
                x,
                y,
            ) == pos_marked(ps, x, y),
{
    assert forall|x: int, y: int| 0 <= x < w && 0 <= y < h implies #[trigger] crate::life::texel_live(
        pattern_data(w, h, ps),
        w,
        x,
        y,
    ) == pos_marked(ps, x, y) by {
        lemma_texel_index_bound(w, h, x, y);
        crate::life::lemma_texel_index_decompose(w, x, y, 0);
    }
}

/// Seeding with an empty position list yields exactly the all-dead buffer,
/// and seeding with any position list differs from the all-dead buffer only
/// at the listed cells: marking positions and then seeding afresh with none
/// returns to the all-dead state.
pub proof fn lemma_pattern_data_round_trip(w: int, h: int, ps: Seq<(u32, u32)>)
    requires
        1 <= w,
        1 <= h,
    ensures
        pattern_data(w, h, Seq::<(u32, u32)>::empty()) == dead_data(w, h),
        forall|i: int|
            0 <= i < 4 * w * h && #[trigger] pattern_data(w, h, ps)[i] != dead_data(w, h)[i]
                ==> pos_marked(ps, (i / 4) % w, (i / 4) / w),
{
    assert forall|i: int| 0 <= i < 4 * w * h implies pattern_data(
        w,
        h,
        Seq::<(u32, u32)>::empty(),
    )[i] == dead_data(w, h)[i] by {
        assert(!pos_marked(Seq::<(u32, u32)>::empty(), (i / 4) % w, (i / 4) / w));
    }
    assert(pattern_data(w, h, Seq::<(u32, u32)>::empty()) =~= dead_data(w, h));
    assert forall|i: int|
        0 <= i < 4 * w * h && !pos_marked(ps, (i / 4) % w, (i / 4) / w) implies #[trigger]
    pattern_data(w, h, ps)[i] == dead_data(w, h)[i] by {}
}

/// Cell `(x, y)` lies in the closed disc of radius `r` around `(cx, cy)`:
/// its squared Euclidean distance to the center is at most `r` squared.
pub open spec fn in_disc(cx: int, cy: int, r: int, x: int, y: int) -> bool {
    (x - cx) * (x - cx) + (y - cy) * (y - cy) <= r * r
}

/// Splitting a byte index into its cell and channel.
proof fn lemma_byte_decompose(cell: int, c: int)
    requires
        0 <= cell,
        0 <= c < 4,
    ensures
        (4 * cell + c) / 4 == cell,
        (4 * cell + c) % 4 == c,
{
    assert((4 * cell + c) / 4 == cell && (4 * cell + c) % 4 == c) by (nonlinear_arith)
        requires
            0 <= cell,
            0 <= c < 4,
    ;
}

/// A cell index splits into in-bounds coordinates, and recomposes from them.
proof fn lemma_cell_coords(w: int, h: int, cell: int)
    requires
        1 <= w,
        1 <= h,
        0 <= cell < w * h,
    ensures
        0 <= cell % w < w,
        0 <= cell / w < h,
        (cell / w) * w + cell % w == cell,
{
    assert(0 <= cell % w < w && 0 <= cell / w < h && (cell / w) * w + cell % w == cell)
        by (nonlinear_arith)
        requires
            1 <= w,
            1 <= h,
            0 <= cell < w * h,
    ;
}

/// The number of cells and of bytes of a grid fit the machine word.
proof fn lemma_grid_products(w: int, h: int)
    requires
        0 <= w,
        0 <= h,
    ensures
        0 <= w * h,
        4 * (w * h) == 4 * w * h,
        w * h == h * w,
{
    assert(0 <= w * h && 4 * (w * h) == 4 * w * h && w * h == h * w) by (nonlinear_arith)
        requires
            0 <= w,
            0 <= h,
    ;
}

/// Materializes raw pixel buffers for a fixed grid size and edits them in
/// place. The host pushes the buffers it produces into the device textures.
pub struct TextureManager {
    pub width: u32,
    pub height: u32,
}

impl TextureManager {
    /// The grid has at least one cell and its byte count fits a `usize`.
    pub open spec fn wf(&self) -> bool {
        1 <= self.width && 1 <= self.height && 4 * (self.width as int) * (self.height as int)
            <= usize::MAX as int
    }

    pub fn new(width: u32, height: u32) -> (tm: TextureManager)
        requires
            1 <= width,
            1 <= height,
            4 * (width as int) * (height as int) <= usize::MAX as int,
        ensures
            tm.width == width,
            tm.height == height,
            tm.wf(),
    {
        TextureManager { width, height }
    }

    /// The number of cells of the grid.
    fn cell_count(&self) -> (n: usize)
        requires
            self.wf(),
        ensures
            n == (self.width as int) * (self.height as int),
            4 * (n as int) <= usize::MAX as int,
    {
        proof {
            lemma_grid_products(self.width as int, self.height as int);
        }
        (self.width as usize) * (self.height as usize)
    }

    /// Builds the all-dead buffer: every texel `(0, 0, 0, 255)`.
    pub fn create_clear_data(&self) -> (data: Vec<u8>)
        requires
            self.wf(),
        ensures
            data@ == dead_data(self.width as int, self.height as int),
    {
        let ghost target = dead_data(self.width as int, self.height as int);
        let n: usize = self.cell_count();
        proof {
            lemma_grid_products(self.width as int, self.height as int);
        }
        let mut data: Vec<u8> = Vec::new();
        let mut cell: usize = 0;
        while cell < n
            invariant
                cell <= n,
                4 * (n as int) <= usize::MAX as int,
                target == dead_data(self.width as int, self.height as int),
                target.len() == 4 * (n as int),
                data@.len() == 4 * (cell as int),
                forall|i: int| 0 <= i < data@.len() ==> data@[i] == target[i],
            decreases n - cell,
        {
            data.push(0);
            data.push(0);
            data.push(0);
            data.push(255);
            proof {
                lemma_byte_decompose(cell as int, 0);
                lemma_byte_decompose(cell as int, 1);
                lemma_byte_decompose(cell as int, 2);
                lemma_byte_decompose(cell as int, 3);
            }
            cell = cell + 1;
        }
        proof {
            assert(data@ =~= target);
        }
        data
    }

    /// Builds the buffer whose cell `c` is live exactly when `live[c]` holds;
    /// the caller supplies one liveness decision per cell, e.g. drawn from a
    /// random source at some density.
    pub fn create_random_data(&self, live: &Vec<bool>) -> (data: Vec<u8>)
        requires
            self.wf(),
            live@.len() == (self.width as int) * (self.height as int),
        ensures
            data@ == random_data(self.width as int, self.height as int, live@),
    {
        let ghost target = random_data(self.width as int, self.height as int, live@);
        let n: usize = self.cell_count();
        proof {
            lemma_grid_products(self.width as int, self.height as int);
        }
        let mut data: Vec<u8> = Vec::new();
        let mut cell: usize = 0;
        while cell < n
            invariant
                cell <= n,
                n == live@.len(),
                4 * (n as int) <= usize::MAX as int,
                target == random_data(self.width as int, self.height as int, live@),
                target.len() == 4 * (n as int),
                data@.len() == 4 * (cell as int),
                forall|i: int| 0 <= i < data@.len() ==> data@[i] == target[i],
            decreases n - cell,
        {
            let color: u8 = if live[cell] {
                255
            } else {
                0
            };
            data.push(color);
            data.push(color);
            data.push(color);
            data.push(255);
            proof {
                lemma_byte_decompose(cell as int, 0);
                lemma_byte_decompose(cell as int, 1);
                lemma_byte_decompose(cell as int, 2);
                lemma_byte_decompose(cell as int, 3);
            }
            cell = cell + 1;
        }
        proof {
            assert(data@ =~= target);
        }
        data
    }

    /// Builds the buffer that is all dead except at the given positions;
    /// out-of-bounds positions are silently dropped.
    pub fn create_pattern_data(&self, positions: &Vec<(u32, u32)>) -> (data: Vec<u8>)
        requires
            self.wf(),
        ensures
            data@ == pattern_data(self.width as int, self.height as int, positions@),
    {
        let ghost w = self.width as int;
        let ghost h = self.height as int;
        let mut data: Vec<u8> = self.create_clear_data();
        proof {
            lemma_grid_products(w, h);
            assert(data@ =~= pattern_data(w, h, positions@.take(0))) by {
                assert forall|i: int| 0 <= i < data@.len() implies data@[i] == pattern_data(
                    w,
                    h,
                    positions@.take(0),
                )[i] by {
                    assert(!pos_marked(positions@.take(0), (i / 4) % w, (i / 4) / w));
                }
            }
        }
        let mut k: usize = 0;
        while k < positions.len()
            invariant
                self.wf(),
                w == self.width as int,
                h == self.height as int,
                k <= positions@.len(),
                data@.len() == 4 * w * h,
                data@ == pattern_data(w, h, positions@.take(k as int)),
            decreases positions@.len() - k,
        {
            let (x, y) = positions[k];
            let ghost before = data@;
            if x < self.width && y < self.height {
                proof {
                    lemma_texel_index_bound(w, h, x as int, y as int);
                }
                let base: usize = 4 * ((y as usize) * (self.width as usize) + (x as usize));
                data.set(base, 255);
                data.set(base + 1, 255);
                data.set(base + 2, 255);
                data.set(base + 3, 255);
            }
            proof {
                lemma_mark_position(w, h, positions@, k as int, before, data@);
            }
            k = k + 1;
        }
        proof {
            assert(positions@.take(positions@.len() as int) =~= positions@);
        }
        data
    }

    /// Marks alive every in-bounds cell whose squared distance to
    /// `(center_x, center_y)` is at most `radius` squared, and leaves every
    /// other byte of the buffer unchanged.
    pub fn add_cells_in_area(
        &self,
        data: &mut Vec<u8>,
        center_x: u32,
        center_y: u32,
        radius: u32,
    )
        requires
            self.wf(),
            old(data)@.len() == 4 * (self.width as int) * (self.height as int),
        ensures
            final(data)@.len() == old(data)@.len(),
            forall|i: int|
                0 <= i < old(data)@.len() ==> final(data)@[i] == (if in_disc(
                    center_x as int,
                    center_y as int,
                    radius as int,
                    (i / 4) % (self.width as int),
                    (i / 4) / (self.width as int),
                ) {
                    255u8
                } else {
                    old(data)@[i]
                }),
    {
        let ghost w = self.width as int;
        let ghost h = self.height as int;
        let ghost orig = data@;
        let n: usize = self.cell_count();
        proof {
            lemma_grid_products(w, h);
        }
        let mut cell: usize = 0;
        while cell < n
            invariant
                self.wf(),
                w == self.width as int,
                h == self.height as int,
                n == w * h,
                4 * (n as int) <= usize::MAX as int,
                cell <= n,
                orig.len() == 4 * w * h,
                data@.len() == orig.len(),
                forall|i: int|
                    0 <= i < orig.len() ==> data@[i] == (if i / 4 < cell as int && in_disc(
                        center_x as int,
                        center_y as int,
                        radius as int,
                        (i / 4) % w,
                        (i / 4) / w,
                    ) {
                        255u8
                    } else {
                        orig[i]
                    }),
            decreases n - cell,
        {
            let x: u32 = (cell % (self.width as usize)) as u32;
            let y: u32 = (cell / (self.width as usize)) as u32;
            proof {
                lemma_cell_coords(w, h, cell as int);
                lemma_texel_index_bound(w, h, x as int, y as int);
            }
            let dx: i64 = x as i64 - center_x as i64;
            let dy: i64 = y as i64 - center_y as i64;
            proof {
                assert(0 <= dx as int * dx as int <= 0x10000000000000000int && 0 <= dy as int
                    * dy as int <= 0x10000000000000000int && 0 <= (radius as int) * (radius as int)
                    <= 0x10000000000000000int) by (nonlinear_arith)
                    requires
                        -(u32::MAX as int) <= dx as int <= u32::MAX as int,
                        -(u32::MAX as int) <= dy as int <= u32::MAX as int,
                        0 <= radius as int <= u32::MAX as int,
                ;
            }
            let sq: i128 = (dx as i128) * (dx as i128) + (dy as i128) * (dy as i128);
            let r2: i128 = (radius as i128) * (radius as i128);
            if sq <= r2 {
                let base: usize = 4 * cell;
                data.set(base, 255);
                data.set(base + 1, 255);
                data.set(base + 2, 255);
                data.set(base + 3, 255);
            }
            proof {
                lemma_byte_decompose(cell as int, 0);
                lemma_byte_decompose(cell as int, 1);
                lemma_byte_decompose(cell as int, 2);
                lemma_byte_decompose(cell as int, 3);
                assert forall|i: int| 0 <= i < orig.len() implies data@[i] == (if i / 4 < cell
                    as int + 1 && in_disc(
                    center_x as int,
                    center_y as int,
                    radius as int,
                    (i / 4) % w,
                    (i / 4) / w,
                ) {
                    255u8
                } else {
                    orig[i]
                }) by {
                    if i / 4 == cell as int {
                        lemma_cell_coords(w, h, cell as int);
                    }
                }
            }
            cell = cell + 1;
        }
    }
}

/// Byte-for-byte copy of a pixel buffer, for seeding both generation
/// textures with the same contents.
pub fn copy_data(src: &Vec<u8>) -> (r: Vec<u8>)
    ensures
        r@ == src@,
{
    let mut r: Vec<u8> = Vec::new();
    let mut i: usize = 0;
    while i < src.len()
        invariant
            i <= src@.len(),
            r@ == src@.take(i as int),
        decreases src@.len() - i,
    {
        r.push(src[i]);
        proof {
            assert(r@ =~= src@.take(i as int + 1));
        }
        i = i + 1;
    }
    proof {
        assert(src@.take(src@.len() as int) =~= src@);
    }
    r
}

/// Marking one position turns the buffer for the first `k` positions into
/// the buffer for the first `k + 1`.
proof fn lemma_mark_position(
    w: int,
    h: int,
    ps: Seq<(u32, u32)>,
    k: int,
    before: Seq<u8>,
    after: Seq<u8>,
)
    requires
        1 <= w,
        1 <= h,
        0 <= k < ps.len(),
        before == pattern_data(w, h, ps.take(k)),
        (ps[k].0 < w && ps[k].1 < h) ==> after == before.update(
            texel_index(w, ps[k].0 as int, ps[k].1 as int),
            255u8,
        ).update(texel_index(w, ps[k].0 as int, ps[k].1 as int) + 1, 255u8).update(
            texel_index(w, ps[k].0 as int, ps[k].1 as int) + 2,
            255u8,
        ).update(texel_index(w, ps[k].0 as int, ps[k].1 as int) + 3, 255u8),
        !(ps[k].0 < w && ps[k].1 < h) ==> after == before,
    ensures
        after == pattern_data(w, h, ps.take(k + 1)),
{
    let x = ps[k].0 as int;
    let y = ps[k].1 as int;
    let target = pattern_data(w, h, ps.take(k + 1));
    if x < w && y < h {
        lemma_texel_index_bound(w, h, x, y);
    }
    assert forall|i: int| 0 <= i < target.len() implies after[i] == target[i] by {
        let cell = i / 4;
        let c = i % 4;
        crate::life::lemma_byte_index_cell_bounds(w, h, i);
        lemma_cell_coords(w, h, cell);
        let ix = cell % w;
        let iy = cell / w;
        if x < w && y < h && cell == y * w + x {
            // the marked cell: every channel of the texel was overwritten with 255
            crate::life::lemma_texel_index_decompose(w, x, y, 0);
            assert(ix == x && iy == y);
            assert(pos_marked(ps.take(k + 1), ix, iy)) by {
                assert(ps.take(k + 1)[k] == ps[k]);
            }
            assert(after[i] == 255u8);
        } else {
            // an untouched byte: its cell's marked status is unchanged
            assert(after[i] == before[i]);
            if pos_marked(ps.take(k), ix, iy) {
                let m = choose|m: int|
                    0 <= m < ps.take(k).len() && (#[trigger] ps.take(k)[m]).0 == ix && ps.take(
                        k,
                    )[m].1 == iy;
                assert(ps.take(k + 1)[m] == ps[m]);
                assert(pos_marked(ps.take(k + 1), ix, iy));
            }
            if pos_marked(ps.take(k + 1), ix, iy) {
                let m = choose|m: int|
                    0 <= m < ps.take(k + 1).len() && (#[trigger] ps.take(k + 1)[m]).0 == ix
                        && ps.take(k + 1)[m].1 == iy;
                if m < k {
                    assert(ps.take(k)[m] == ps[m]);
                    assert(pos_marked(ps.take(k), ix, iy));
                } else {
                    // the new position itself: then this cell is the marked cell
                    assert(ix == x && iy == y && x < w && y < h);
                    assert(cell == y * w + x);
                }
            }
        }
    }
    assert(after =~= target);
}

} // verus!
