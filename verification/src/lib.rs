//! Core state machine of a GPU-resident Game of Life simulator.
//!
//! Cell state lives in RGBA pixel buffers that mirror the textures the host
//! uploads to the graphics device: one texel per cell, alive encoded as
//! `(255, 255, 255, 255)` and dead as `(0, 0, 0, 255)`. This crate owns the
//! simulation semantics: the standard Life rule on a torus (the semantics of
//! the compute fragment program), the pattern catalog and its placement rule,
//! buffer seeding and editing, and the double-buffered ping-pong step
//! protocol. The host shell performs the graphics calls; it hands buffers
//! produced here to the device unchanged.

pub mod behavior;
pub mod life;
pub mod line;
pub mod patterns;
pub mod texture;

pub use life::step_data;
pub use patterns::Pattern;
pub use patterns::PatternKind;
pub use texture::TextureManager;

use vstd::prelude::*;

verus! {

use crate::life::{dead_data, next_gen, texel_index};
use crate::line::{
    lemma_bresenham_step,
    lemma_err_bound,
    lemma_marked_line_cells,
    lemma_sign_unit,
    line_measure,
    line_points,
    line_points_rec,
    marked_line,
    on_line,
};
use crate::patterns::scaled_positions;
use crate::texture::{copy_data, in_disc, pattern_data, random_data};

/// A buffer with the texel of cell `(x, y)` overwritten: the color channels
/// set to `alive` and the alpha channel to 255, as a single-cell edit writes
/// it.
pub open spec fn cell_written(data: Seq<u8>, w: int, x: int, y: int, alive: u8) -> Seq<u8> {
    data.update(texel_index(w, x, y), alive).update(texel_index(w, x, y) + 1, alive).update(
        texel_index(w, x, y) + 2,
        alive,
    ).update(texel_index(w, x, y) + 3, 255u8)
}

/// The simulation engine: the grid dimensions, the texture store, and the
/// two generation buffers. `current` is the authoritative state; `next` is
/// the scratch target of the compute pass. One step writes the next
/// generation into `next` and swaps the two handles in place, so no pass
/// ever reads and writes the same buffer. The host shell mirrors both
/// buffers into its pair of device textures.
pub struct GameOfLife {
    pub current: Vec<u8>,
    pub next: Vec<u8>,
    pub texture_manager: TextureManager,
    pub width: u32,
    pub height: u32,
}

impl GameOfLife {
    /// Both buffers are sized to the grid and the store agrees on the
    /// dimensions.
    pub open spec fn wf(&self) -> bool {
        &&& self.texture_manager.width == self.width
        &&& self.texture_manager.height == self.height
        &&& self.texture_manager.wf()
        &&& self.current@.len() == 4 * (self.width as int) * (self.height as int)
        &&& self.next@.len() == 4 * (self.width as int) * (self.height as int)
    }

    /// A fresh engine: both generation buffers hold the all-dead state.
    pub fn new(width: u32, height: u32) -> (game: GameOfLife)
        requires
            1 <= width,
            1 <= height,
            4 * (width as int) * (height as int) <= usize::MAX as int,
        ensures
            game.wf(),
            game.width == width,
            game.height == height,
            game.current@ == dead_data(width as int, height as int),
            game.next@ == dead_data(width as int, height as int),
    {
        let texture_manager = TextureManager::new(width, height);
        let current = texture_manager.create_clear_data();
        let next = texture_manager.create_clear_data();
        GameOfLife { current, next, texture_manager, width, height }
    }

    /// Replaces the contents of both generation buffers, as a reseed uploads
    /// the same pixel data into both textures.
    fn upload_texture_data(&mut self, data: Vec<u8>)
        requires
            old(self).wf(),
            data@.len() == 4 * (old(self).width as int) * (old(self).height as int),
        ensures
            final(self).wf(),
            final(self).width == old(self).width,
            final(self).height == old(self).height,
            final(self).texture_manager == old(self).texture_manager,
            final(self).current@ == data@,
            final(self).next@ == data@,
    {
        let second = copy_data(&data);
        self.current = data;
        self.next = second;
    }

    /// Reseeds the grid from one liveness decision per cell; the host draws
    /// the decisions from its random source at the chosen density.
    pub fn randomize(&mut self, live: &Vec<bool>)
        requires
            old(self).wf(),
            live@.len() == (old(self).width as int) * (old(self).height as int),
        ensures
            final(self).wf(),
            final(self).width == old(self).width,
            final(self).height == old(self).height,
            final(self).texture_manager == old(self).texture_manager,
            final(self).current@ == random_data(
                old(self).width as int,
                old(self).height as int,
                live@,
            ),
            final(self).next@ == final(self).current@,
    {
        let data = self.texture_manager.create_random_data(live);
        self.upload_texture_data(data);
    }

    /// Clears the grid to the all-dead state.
    pub fn clear(&mut self)
        requires
            old(self).wf(),
        ensures
            final(self).wf(),
            final(self).width == old(self).width,
            final(self).height == old(self).height,
            final(self).texture_manager == old(self).texture_manager,
            final(self).current@ == dead_data(old(self).width as int, old(self).height as int),
            final(self).next@ == final(self).current@,
    {
        let data = self.texture_manager.create_clear_data();
        self.upload_texture_data(data);
    }

    /// Loads a pattern: seeds both buffers with the pattern placed for this
    /// grid, everything else dead.
    fn load_pattern(&mut self, pattern: &Pattern)
        requires
            old(self).wf(),
        ensures
            final(self).wf(),
            final(self).width == old(self).width,
            final(self).height == old(self).height,
            final(self).texture_manager == old(self).texture_manager,
            final(self).current@ == pattern_data(
                old(self).width as int,
                old(self).height as int,
                scaled_positions(
                    pattern.kind,
                    pattern.cells@,
                    old(self).width as int,
                    old(self).height as int,
                ),
            ),
            final(self).next@ == final(self).current@,
    {
        let positions = pattern.scaled_for_grid(self.width, self.height);
        let data = self.texture_manager.create_pattern_data(&positions);
        self.upload_texture_data(data);
    }

    /// Seeds the grid with the glider.
    pub fn load_glider(&mut self)
        requires
            old(self).wf(),
        ensures
            final(self).wf(),
            final(self).width == old(self).width,
            final(self).height == old(self).height,
            final(self).texture_manager == old(self).texture_manager,
            final(self).current@ == pattern_data(
                old(self).width as int,
                old(self).height as int,
                scaled_positions(
                    PatternKind::Glider,
                    crate::patterns::glider_cells(),
                    old(self).width as int,
                    old(self).height as int,
                ),
            ),
            final(self).next@ == final(self).current@,
    {
        let pattern = Pattern::glider();
        self.load_pattern(&pattern);
    }

    /// Seeds the grid with the blinker, the period-2 oscillator.
    pub fn load_oscillator(&mut self)
        requires
            old(self).wf(),
        ensures
            final(self).wf(),
            final(self).width == old(self).width,
            final(self).height == old(self).height,
            final(self).texture_manager == old(self).texture_manager,
            final(self).current@ == pattern_data(
                old(self).width as int,
                old(self).height as int,
                scaled_positions(
                    PatternKind::Blinker,
                    crate::patterns::blinker_cells(),
                    old(self).width as int,
                    old(self).height as int,
                ),
            ),
            final(self).next@ == final(self).current@,
    {
        let pattern = Pattern::blinker();
        self.load_pattern(&pattern);
    }

    /// Seeds the grid with the beacon.
    pub fn load_beacon(&mut self)
        requires
            old(self).wf(),
        ensures
            final(self).wf(),
            final(self).width == old(self).width,
            final(self).height == old(self).height,
            final(self).texture_manager == old(self).texture_manager,
            final(self).current@ == pattern_data(
                old(self).width as int,
                old(self).height as int,
                scaled_positions(
                    PatternKind::Beacon,
                    crate::patterns::beacon_cells(),
                    old(self).width as int,
                    old(self).height as int,
                ),
            ),
            final(self).next@ == final(self).current@,
    {
        let pattern = Pattern::beacon();
        self.load_pattern(&pattern);
    }

    /// Seeds the grid with the toad.
    pub fn load_toad(&mut self)
        requires
            old(self).wf(),
        ensures
            final(self).wf(),
            final(self).width == old(self).width,
            final(self).height == old(self).height,
            final(self).texture_manager == old(self).texture_manager,
            final(self).current@ == pattern_data(
                old(self).width as int,
                old(self).height as int,
                scaled_positions(
                    PatternKind::Toad,
                    crate::patterns::toad_cells(),
                    old(self).width as int,
                    old(self).height as int,
                ),
            ),
            final(self).next@ == final(self).current@,
    {
        let pattern = Pattern::toad();
        self.load_pattern(&pattern);
    }

    /// Seeds the grid with the lightweight spaceship.
    pub fn load_spaceship(&mut self)
        requires
            old(self).wf(),
        ensures
            final(self).wf(),
            final(self).width == old(self).width,
            final(self).height == old(self).height,
            final(self).texture_manager == old(self).texture_manager,
            final(self).current@ == pattern_data(
                old(self).width as int,
                old(self).height as int,
                scaled_positions(
                    PatternKind::LightweightSpaceship,
                    crate::patterns::lightweight_spaceship_cells(),
                    old(self).width as int,
                    old(self).height as int,
                ),
            ),
            final(self).next@ == final(self).current@,
    {
        let pattern = Pattern::lightweight_spaceship();
        self.load_pattern(&pattern);
    }

    /// Seeds the grid with the pulsar.
    pub fn load_pulsar(&mut self)
        requires
            old(self).wf(),
        ensures
            final(self).wf(),
            final(self).width == old(self).width,
            final(self).height == old(self).height,
            final(self).texture_manager == old(self).texture_manager,
            final(self).current@ == pattern_data(
                old(self).width as int,
                old(self).height as int,
                scaled_positions(
                    PatternKind::Pulsar,
                    crate::patterns::pulsar_cells(),
                    old(self).width as int,
                    old(self).height as int,
                ),
            ),
            final(self).next@ == final(self).current@,
    {
        let pattern = Pattern::pulsar();
        self.load_pattern(&pattern);
    }

    /// Seeds the grid with the Gosper glider gun.
    pub fn load_glider_gun(&mut self)
        requires
            old(self).wf(),
        ensures
            final(self).wf(),
            final(self).width == old(self).width,
            final(self).height == old(self).height,
            final(self).texture_manager == old(self).texture_manager,
            final(self).current@ == pattern_data(
                old(self).width as int,
                old(self).height as int,
                scaled_positions(
                    PatternKind::GosperGliderGun,
                    crate::patterns::gospel_glider_gun_cells(),
                    old(self).width as int,
                    old(self).height as int,
                ),
            ),
            final(self).next@ == final(self).current@,
    {
        let pattern = Pattern::gospel_glider_gun();
        self.load_pattern(&pattern);
    }

    /// One simulation step: computes the next generation of `current` into
    /// the scratch buffer, then swaps the two handles in place. Afterward
    /// `current` holds the freshly computed generation and `next` holds the
    /// generation that was current before the call.
    pub fn step(&mut self)
        requires
            old(self).wf(),
        ensures
            final(self).wf(),
            final(self).width == old(self).width,
            final(self).height == old(self).height,
            final(self).texture_manager == old(self).texture_manager,
            final(self).current@ == next_gen(
                old(self).current@,
                old(self).width as int,
                old(self).height as int,
            ),
            final(self).next@ == old(self).current@,
    {
        self.next = step_data(&self.current, self.width, self.height);
        core::mem::swap(&mut self.current, &mut self.next);
    }

    /// Replaces both textures at the new dimensions, discarding prior
    /// content rather than migrating it, and reseeds with the given random
    /// decisions, one per cell of the new grid.
    pub fn resize(&mut self, width: u32, height: u32, live: &Vec<bool>)
        requires
            old(self).wf(),
            1 <= width,
            1 <= height,
            4 * (width as int) * (height as int) <= usize::MAX as int,
            live@.len() == (width as int) * (height as int),
        ensures
            final(self).wf(),
            final(self).width == width,
            final(self).height == height,
            final(self).current@ == random_data(width as int, height as int, live@),
            final(self).next@ == final(self).current@,
    {
        self.width = width;
        self.height = height;
        self.texture_manager = TextureManager::new(width, height);
        self.current = self.texture_manager.create_clear_data();
        self.next = self.texture_manager.create_clear_data();
        self.randomize(live);
    }

    /// Writes one cell of the current generation: color channels set to
    /// `alive`, alpha opaque. Out-of-bounds coordinates are ignored. The
    /// scratch buffer is untouched; the edit feeds into the next step.
    pub fn set_cell(&mut self, x: u32, y: u32, alive: u8)
        requires
            old(self).wf(),
        ensures
            final(self).wf(),
            final(self).width == old(self).width,
            final(self).height == old(self).height,
            final(self).texture_manager == old(self).texture_manager,
            final(self).next@ == old(self).next@,
            x < old(self).width && y < old(self).height ==> final(self).current@ == cell_written(
                old(self).current@,
                old(self).width as int,
                x as int,
                y as int,
                alive,
            ),
            !(x < old(self).width && y < old(self).height) ==> final(self).current@ == old(
                self,
            ).current@,
    {
        if x >= self.width || y >= self.height {
            return ;
        }
        proof {
            crate::life::lemma_texel_index_bound(
                self.width as int,
                self.height as int,
                x as int,
                y as int,
            );
        }
        let base: usize = 4 * ((y as usize) * (self.width as usize) + (x as usize));
        self.current.set(base, alive);
        self.current.set(base + 1, alive);
        self.current.set(base + 2, alive);
        self.current.set(base + 3, 255);
    }

    /// Reads the stored state of one cell from the current generation:
    /// the red channel byte, or 0 for out-of-bounds coordinates.
    pub fn get_cell_state(&self, x: u32, y: u32) -> (state: u8)
        requires
            self.wf(),
        ensures
            x < self.width && y < self.height ==> state == self.current@[texel_index(
                self.width as int,
                x as int,
                y as int,
            )],
            !(x < self.width && y < self.height) ==> state == 0,
    {
        if x >= self.width || y >= self.height {
            return 0;
        }
        proof {
            crate::life::lemma_texel_index_bound(
                self.width as int,
                self.height as int,
                x as int,
                y as int,
            );
        }
        let base: usize = 4 * ((y as usize) * (self.width as usize) + (x as usize));
        self.current[base]
    }

    /// Flips one cell of the current generation: a cell stored brighter than
    /// the toggle threshold becomes dead, any other becomes live.
    /// Out-of-bounds coordinates are ignored.
    pub fn toggle_cell(&mut self, x: u32, y: u32)
        requires
            old(self).wf(),
        ensures
            final(self).wf(),
            final(self).width == old(self).width,
            final(self).height == old(self).height,
            final(self).texture_manager == old(self).texture_manager,
            final(self).next@ == old(self).next@,
            x < old(self).width && y < old(self).height ==> final(self).current@ == cell_written(
                old(self).current@,
                old(self).width as int,
                x as int,
                y as int,
                (if old(self).current@[texel_index(old(self).width as int, x as int, y as int)]
                    > 128 {
                    0u8
                } else {
                    255u8
                }),
            ),
            !(x < old(self).width && y < old(self).height) ==> final(self).current@ == old(
                self,
            ).current@,
    {
        if x >= self.width || y >= self.height {
            return ;
        }
        let current_state = self.get_cell_state(x, y);
        let new_state: u8 = if current_state > 128 {
            0
        } else {
            255
        };
        self.set_cell(x, y, new_state);
    }

    /// Rasterizes a line of live cells between two grid points with integer
    /// Bresenham stepping, writing each traversed in-bounds cell into the
    /// current generation.
    pub fn draw_line(&mut self, x1: u32, y1: u32, x2: u32, y2: u32)
        requires
            old(self).wf(),
        ensures
            final(self).wf(),
            final(self).width == old(self).width,
            final(self).height == old(self).height,
            final(self).texture_manager == old(self).texture_manager,
            final(self).next@ == old(self).next@,
            final(self).current@ == marked_line(
                old(self).current@,
                old(self).width as int,
                old(self).height as int,
                line_points(x1 as int, y1 as int, x2 as int, y2 as int),
            ),
            forall|x: int, y: int|
                0 <= x < old(self).width && 0 <= y < old(self).height && on_line(
                    line_points(x1 as int, y1 as int, x2 as int, y2 as int),
                    x,
                    y,
                ) ==> final(self).current@[#[trigger] texel_index(old(self).width as int, x, y)]
                    == 255,
            forall|i: int|
                0 <= i < old(self).current@.len() && !on_line(
                    line_points(x1 as int, y1 as int, x2 as int, y2 as int),
                    (i / 4) % (old(self).width as int),
                    (i / 4) / (old(self).width as int),
                ) ==> #[trigger] final(self).current@[i] == old(self).current@[i],
    {
        let ghost w0 = self.width;
        let ghost h0 = self.height;
        let ghost tm0 = self.texture_manager;
        let ghost next0 = self.next@;
        let ghost orig = self.current@;
        let ghost pts = line_points(x1 as int, y1 as int, x2 as int, y2 as int);

        let mut x0: i128 = x1 as i128;
        let mut y0: i128 = y1 as i128;
        let x_end: i128 = x2 as i128;
        let y_end: i128 = y2 as i128;

        let dx: i128 = if x_end >= x0 {
            x_end - x0
        } else {
            x0 - x_end
        };
        let b: i128 = if y_end >= y0 {
            y_end - y0
        } else {
            y0 - y_end
        };
        let dy: i128 = -b;
        let sx: i128 = if x0 < x_end {
            1
        } else {
            -1
        };
        let sy: i128 = if y0 < y_end {
            1
        } else {
            -1
        };
        let mut err: i128 = dx + dy;
        let ghost mut k: int = 0;

        proof {
            lemma_sign_unit(sx as int, x_end as int - x0 as int);
            lemma_sign_unit(sy as int, y_end as int - y0 as int);
            assert(sx as int * (x_end as int - x0 as int) == dx as int);
            assert(sy as int * (y_end as int - y0 as int) == b as int);
            assert(dx as int * (1 - b as int) - b as int * (1 - dx as int) == dx as int
                - b as int) by (nonlinear_arith);
            assert(pts == line_points_rec(
                x0 as int,
                y0 as int,
                x_end as int,
                y_end as int,
                dx as int,
                dy as int,
                sx as int,
                sy as int,
                err as int,
            ));
            assert(pts.skip(0) =~= pts);
            assert(marked_line(orig, w0 as int, h0 as int, pts.take(0)) == orig);
        }

        loop
            invariant_except_break
                self.wf(),
                self.width == w0,
                self.height == h0,
                self.texture_manager == tm0,
                self.next@ == next0,
                0 <= dx <= 0x100000000,
                0 <= b <= 0x100000000,
                dy == -b,
                sx == 1 || sx == -1,
                sy == 1 || sy == -1,
                0 <= x0 <= u32::MAX,
                0 <= y0 <= u32::MAX,
                0 <= x_end <= u32::MAX,
                0 <= y_end <= u32::MAX,
                0 <= sx as int * (x_end as int - x0 as int) <= dx as int,
                0 <= sy as int * (y_end as int - y0 as int) <= b as int,
                err as int == dx as int * (1 - sy as int * (y_end as int - y0 as int)) - b as int * (
                1 - sx as int * (x_end as int - x0 as int)),
                0 <= k <= pts.len(),
                self.current@ == marked_line(orig, w0 as int, h0 as int, pts.take(k)),
                line_points_rec(
                    x0 as int,
                    y0 as int,
                    x_end as int,
                    y_end as int,
                    dx as int,
                    dy as int,
                    sx as int,
                    sy as int,
                    err as int,
                ) == pts.skip(k),
            ensures
                self.wf(),
                self.width == w0,
                self.height == h0,
                self.texture_manager == tm0,
                self.next@ == next0,
                self.current@ == marked_line(orig, w0 as int, h0 as int, pts),
            decreases line_measure(
                x0 as int,
                y0 as int,
                x_end as int,
                y_end as int,
                sx as int,
                sy as int,
            ),
        {
            let ghost u = sx as int * (x_end as int - x0 as int);
            let ghost v = sy as int * (y_end as int - y0 as int);
            let ghost rec = line_points_rec(
                x0 as int,
                y0 as int,
                x_end as int,
                y_end as int,
                dx as int,
                dy as int,
                sx as int,
                sy as int,
                err as int,
            );
            proof {
                // the head of the remaining points is the current point
                lemma_sign_unit(sx as int, x_end as int - x0 as int);
                lemma_sign_unit(sy as int, y_end as int - y0 as int);
                if !(x0 == x_end && y0 == y_end) {
                    assert(u + v > 0);
                    lemma_bresenham_step(dx as int, b as int, u, v, err as int);
                }
                assert(rec[0] == (x0 as int, y0 as int));
                assert(rec.len() >= 1);
                assert(pts.skip(k).len() == pts.len() - k);
                assert(k < pts.len());
                assert(pts.skip(k)[0] == pts[k + 0]);
                assert(pts[k] == (x0 as int, y0 as int));
            }
            if x0 >= 0 && y0 >= 0 && x0 < self.width as i128 && y0 < self.height as i128 {
                self.set_cell(x0 as u32, y0 as u32, 255);
            }
            proof {
                assert(pts.take(k + 1).drop_last() =~= pts.take(k));
                assert(pts.take(k + 1).last() == pts[k]);
                assert(self.current@ == marked_line(orig, w0 as int, h0 as int, pts.take(k + 1)));
                k = k + 1;
            }
            if x0 == x_end && y0 == y_end {
                proof {
                    assert(rec =~= seq![(x0 as int, y0 as int)]);
                    assert(pts.skip(k - 1).len() == 1);
                    assert(k == pts.len());
                    assert(pts.take(k) =~= pts);
                }
                break ;
            }
            let ghost e2g = 2 * (err as int);
            let ghost nx0g: int = if e2g >= dy as int {
                x0 as int + sx as int
            } else {
                x0 as int
            };
            let ghost ny0g: int = if e2g <= dx as int {
                y0 as int + sy as int
            } else {
                y0 as int
            };
            let ghost nerrg: int = err as int + (if e2g >= dy as int {
                dy as int
            } else {
                0
            }) + (if e2g <= dx as int {
                dx as int
            } else {
                0
            });
            proof {
                lemma_err_bound(dx as int, b as int, u, v, err as int);
                // unfold the remaining points once: the guard is transparent here
                assert(rec == seq![(x0 as int, y0 as int)] + line_points_rec(
                    nx0g,
                    ny0g,
                    x_end as int,
                    y_end as int,
                    dx as int,
                    dy as int,
                    sx as int,
                    sy as int,
                    nerrg,
                ));
                assert(line_points_rec(
                    nx0g,
                    ny0g,
                    x_end as int,
                    y_end as int,
                    dx as int,
                    dy as int,
                    sx as int,
                    sy as int,
                    nerrg,
                ) == pts.skip(k)) by {
                    assert(rec == pts.skip(k - 1));
                    assert(pts.skip(k - 1) =~= seq![pts[k - 1]] + pts.skip(k));
                    assert((seq![(x0 as int, y0 as int)] + line_points_rec(
                        nx0g,
                        ny0g,
                        x_end as int,
                        y_end as int,
                        dx as int,
                        dy as int,
                        sx as int,
                        sy as int,
                        nerrg,
                    )).skip(1) =~= line_points_rec(
                        nx0g,
                        ny0g,
                        x_end as int,
                        y_end as int,
                        dx as int,
                        dy as int,
                        sx as int,
                        sy as int,
                        nerrg,
                    ));
                    assert((seq![pts[k - 1]] + pts.skip(k)).skip(1) =~= pts.skip(k));
                }
                // how the remaining axis distances change with the moves
                lemma_sign_unit(sx as int, x_end as int - x0 as int);
                lemma_sign_unit(sy as int, y_end as int - y0 as int);
                assert(sx as int * (x_end as int - nx0g) == (if e2g >= dy as int {
                    u - 1
                } else {
                    u
                }));
                assert(sy as int * (y_end as int - ny0g) == (if e2g <= dx as int {
                    v - 1
                } else {
                    v
                }));
            }
            let e2: i128 = 2 * err;
            if e2 >= dy {
                err = err + dy;
                x0 = x0 + sx;
            }
            if e2 <= dx {
                err = err + dx;
                y0 = y0 + sy;
            }
            proof {
                assert(x0 as int == nx0g);
                assert(y0 as int == ny0g);
                assert(err as int == nerrg);
            }
        }
        proof {
            lemma_marked_line_cells(orig, w0 as int, h0 as int, pts);
        }
    }

    /// Marks alive every in-bounds cell within the given radius of the
    /// center (an inclusive disc under squared Euclidean distance), directly
    /// in the current generation.
    pub fn add_cells_in_area(&mut self, center_x: u32, center_y: u32, radius: u32)
        requires
            old(self).wf(),
        ensures
            final(self).wf(),
            final(self).width == old(self).width,
            final(self).height == old(self).height,
            final(self).texture_manager == old(self).texture_manager,
            final(self).next@ == old(self).next@,
            final(self).current@.len() == old(self).current@.len(),
            forall|i: int|
                0 <= i < old(self).current@.len() ==> final(self).current@[i] == (if in_disc(
                    center_x as int,
                    center_y as int,
                    radius as int,
                    (i / 4) % (old(self).width as int),
                    (i / 4) / (old(self).width as int),
                ) {
                    255u8
                } else {
                    old(self).current@[i]
                }),
    {
        self.texture_manager.add_cells_in_area(&mut self.current, center_x, center_y, radius);
    }
}

} // verus!
