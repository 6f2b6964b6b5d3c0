//! The pattern catalog: named lists of relative cell offsets from standard
//! Life literature, and the placement rule that maps them onto a grid.

use vstd::prelude::*;

verus! {

/// Which catalog entry a [`Pattern`] holds. The placement rule treats the
/// glider and the glider gun specially on large grids.
#[derive(Clone, Copy, PartialEq, Eq, Structural)]
pub enum PatternKind {
    Glider,
    Blinker,
    Beacon,
    Toad,
    LightweightSpaceship,
    Pulsar,
    GosperGliderGun,
}

/// A named, immutable list of relative `(dx, dy)` cell offsets from an
/// implicit anchor.
#[derive(Clone)]
pub struct Pattern {
    pub cells: Vec<(i32, i32)>,
    pub kind: PatternKind,
}

/// Offsets of the glider.
pub open spec fn glider_cells() -> Seq<(i32, i32)> {
    seq![(1i32, 0i32), (2i32, 1i32), (0i32, 2i32), (1i32, 2i32), (2i32, 2i32)]
}

/// Offsets of the blinker, the period-2 oscillator.
pub open spec fn blinker_cells() -> Seq<(i32, i32)> {
    seq![(-1i32, 0i32), (0i32, 0i32), (1i32, 0i32)]
}

/// Offsets of the beacon.
pub open spec fn beacon_cells() -> Seq<(i32, i32)> {
    seq![(0i32, 0i32), (1i32, 0i32), (0i32, 1i32), (3i32, 2i32), (2i32, 3i32), (3i32, 3i32)]
}

/// Offsets of the toad.
pub open spec fn toad_cells() -> Seq<(i32, i32)> {
    seq![(1i32, 0i32), (2i32, 0i32), (3i32, 0i32), (0i32, 1i32), (1i32, 1i32), (2i32, 1i32)]
}

/// Offsets of the lightweight spaceship.
pub open spec fn lightweight_spaceship_cells() -> Seq<(i32, i32)> {
    seq![
        (0i32, 1i32),
        (3i32, 1i32),
        (4i32, 2i32),
        (0i32, 3i32),
        (4i32, 3i32),
        (1i32, 4i32),
        (2i32, 4i32),
        (3i32, 4i32),
        (4i32, 4i32),
    ]
}

/// Offsets of the pulsar.
pub open spec fn pulsar_cells() -> Seq<(i32, i32)> {
    seq![
        (2i32, 0i32),
        (3i32, 0i32),
        (4i32, 0i32),
        (8i32, 0i32),
        (9i32, 0i32),
        (10i32, 0i32),
        (1i32, 2i32),
        (5i32, 2i32),
        (7i32, 2i32),
        (11i32, 2i32),
        (1i32, 3i32),
        (5i32, 3i32),
        (7i32, 3i32),
        (11i32, 3i32),
        (1i32, 4i32),
        (5i32, 4i32),
        (7i32, 4i32),
        (11i32, 4i32),
        (2i32, 5i32),
        (3i32, 5i32),
        (4i32, 5i32),
        (8i32, 5i32),
        (9i32, 5i32),
        (10i32, 5i32),
        (2i32, 7i32),
        (3i32, 7i32),
        (4i32, 7i32),
        (8i32, 7i32),
        (9i32, 7i32),
        (10i32, 7i32),
        (1i32, 8i32),
        (5i32, 8i32),
        (7i32, 8i32),
        (11i32, 8i32),
        (1i32, 9i32),
        (5i32, 9i32),
        (7i32, 9i32),
        (11i32, 9i32),
        (1i32, 10i32),
        (5i32, 10i32),
        (7i32, 10i32),
        (11i32, 10i32),
        (2i32, 12i32),
        (3i32, 12i32),
        (4i32, 12i32),
        (8i32, 12i32),
        (9i32, 12i32),
        (10i32, 12i32),
    ]
}

/// Offsets of the Gosper glider gun.
pub open spec fn gospel_glider_gun_cells() -> Seq<(i32, i32)> {
    seq![
        (0i32, 4i32),
        (0i32, 5i32),
        (1i32, 4i32),
        (1i32, 5i32),
        (10i32, 4i32),
        (10i32, 5i32),
        (10i32, 6i32),
        (11i32, 3i32),
        (11i32, 7i32),
        (12i32, 2i32),
        (12i32, 8i32),
        (13i32, 2i32),
        (13i32, 8i32),
        (14i32, 5i32),
        (15i32, 3i32),
        (15i32, 7i32),
        (16i32, 4i32),
        (16i32, 5i32),
        (16i32, 6i32),
        (17i32, 5i32),
        (20i32, 2i32),
        (20i32, 3i32),
        (20i32, 4i32),
        (21i32, 2i32),
        (21i32, 3i32),
        (21i32, 4i32),
        (22i32, 1i32),
        (22i32, 5i32),
        (24i32, 0i32),
        (24i32, 1i32),
        (24i32, 5i32),
        (24i32, 6i32),
        (34i32, 2i32),
        (34i32, 3i32),
        (35i32, 2i32),
        (35i32, 3i32),
    ]
}

/// The offsets anchored at `(cx, cy)`, kept in order, out-of-bounds results
/// silently dropped.
pub open spec fn place_cells(cells: Seq<(i32, i32)>, cx: int, cy: int, w: int, h: int) -> Seq<
    (u32, u32),
>
    decreases cells.len(),
{
    if cells.len() == 0 {
        Seq::empty()
    } else {
        let prefix = place_cells(cells.drop_last(), cx, cy, w, h);
        let px = cx + cells.last().0;
        let py = cy + cells.last().1;
        if 0 <= px < w && 0 <= py < h {
            prefix.push((px as u32, py as u32))
        } else {
            prefix
        }
    }
}

/// The full placement rule: anchor at the grid center; when the smaller grid
/// dimension is at least 200, the glider is instead replicated at four
/// symmetric offsets from center, and the glider gun keeps the default
/// single placement.
pub open spec fn scaled_positions(kind: PatternKind, cells: Seq<(i32, i32)>, w: int, h: int) -> Seq<
    (u32, u32),
> {
    let cx = w / 2;
    let cy = h / 2;
    if (if w <= h {
        w
    } else {
        h
    }) >= 200 && kind == PatternKind::Glider {
        place_cells(cells, cx - 30, cy - 30, w, h) + place_cells(cells, cx + 30, cy - 30, w, h)
            + place_cells(cells, cx - 30, cy + 30, w, h) + place_cells(
            cells,
            cx + 30,
            cy + 30,
            w,
            h,
        )
    } else {
        place_cells(cells, cx, cy, w, h)
    }
}

/// Every placed coordinate is inside `[0, w) x [0, h)`.
pub proof fn lemma_place_cells_in_bounds(cells: Seq<(i32, i32)>, cx: int, cy: int, w: int, h: int)
    requires
        0 < w <= u32::MAX as int + 1,
        0 < h <= u32::MAX as int + 1,
    ensures
        forall|k: int|
            0 <= k < place_cells(cells, cx, cy, w, h).len() ==> (
            #[trigger] place_cells(cells, cx, cy, w, h)[k]).0 < w && place_cells(
                cells,
                cx,
                cy,
                w,
                h,
            )[k].1 < h,
    decreases cells.len(),
{
    if cells.len() > 0 {
        lemma_place_cells_in_bounds(cells.drop_last(), cx, cy, w, h);
        let r = place_cells(cells, cx, cy, w, h);
        let prefix = place_cells(cells.drop_last(), cx, cy, w, h);
        assert forall|k: int| 0 <= k < r.len() implies (#[trigger] r[k]).0 < w && r[k].1 < h by {
            if k < prefix.len() {
                assert(r[k] == prefix[k]);
                assert((prefix[k]).0 < w && prefix[k].1 < h);
            }
        }
    }
}

/// The placement rule never returns a coordinate outside the grid.
pub proof fn lemma_scaled_positions_in_bounds(
    kind: PatternKind,
    cells: Seq<(i32, i32)>,
    w: int,
    h: int,
)
    requires
        0 < w <= u32::MAX as int + 1,
        0 < h <= u32::MAX as int + 1,
    ensures
        forall|k: int|
            0 <= k < scaled_positions(kind, cells, w, h).len() ==> (
            #[trigger] scaled_positions(kind, cells, w, h)[k]).0 < w && scaled_positions(
                kind,
                cells,
                w,
                h,
            )[k].1 < h,
{
    let cx = w / 2;
    let cy = h / 2;
    lemma_place_cells_in_bounds(cells, cx, cy, w, h);
    lemma_place_cells_in_bounds(cells, cx - 30, cy - 30, w, h);
    lemma_place_cells_in_bounds(cells, cx + 30, cy - 30, w, h);
    lemma_place_cells_in_bounds(cells, cx - 30, cy + 30, w, h);
    lemma_place_cells_in_bounds(cells, cx + 30, cy + 30, w, h);
}

impl Pattern {
    pub fn glider() -> (p: Pattern)
        ensures
            p.kind == PatternKind::Glider,
            p.cells@ == glider_cells(),
    {
        let mut cells: Vec<(i32, i32)> = Vec::new();
        cells.push((1, 0));
        cells.push((2, 1));
        cells.push((0, 2));
        cells.push((1, 2));
        cells.push((2, 2));
        assert(cells@ =~= glider_cells());
        Pattern { cells, kind: PatternKind::Glider }
    }

    pub fn blinker() -> (p: Pattern)
        ensures
            p.kind == PatternKind::Blinker,
            p.cells@ == blinker_cells(),
    {
        let mut cells: Vec<(i32, i32)> = Vec::new();
        cells.push((-1, 0));
        cells.push((0, 0));
        cells.push((1, 0));
        assert(cells@ =~= blinker_cells());
        Pattern { cells, kind: PatternKind::Blinker }
    }

    pub fn beacon() -> (p: Pattern)
        ensures
            p.kind == PatternKind::Beacon,
            p.cells@ == beacon_cells(),
    {
        let mut cells: Vec<(i32, i32)> = Vec::new();
        cells.push((0, 0));
        cells.push((1, 0));
        cells.push((0, 1));
        cells.push((3, 2));
        cells.push((2, 3));
        cells.push((3, 3));
        assert(cells@ =~= beacon_cells());
        Pattern { cells, kind: PatternKind::Beacon }
    }

    pub fn toad() -> (p: Pattern)
        ensures
            p.kind == PatternKind::Toad,
            p.cells@ == toad_cells(),
    {
        let mut cells: Vec<(i32, i32)> = Vec::new();
        cells.push((1, 0));
        cells.push((2, 0));
        cells.push((3, 0));
        cells.push((0, 1));
        cells.push((1, 1));
        cells.push((2, 1));
        assert(cells@ =~= toad_cells());
        Pattern { cells, kind: PatternKind::Toad }
    }

    pub fn lightweight_spaceship() -> (p: Pattern)
        ensures
            p.kind == PatternKind::LightweightSpaceship,
            p.cells@ == lightweight_spaceship_cells(),
    {
        let mut cells: Vec<(i32, i32)> = Vec::new();
        cells.push((0, 1));
        cells.push((3, 1));
        cells.push((4, 2));
        cells.push((0, 3));
        cells.push((4, 3));
        cells.push((1, 4));
        cells.push((2, 4));
        cells.push((3, 4));
        cells.push((4, 4));
        assert(cells@ =~= lightweight_spaceship_cells());
        Pattern { cells, kind: PatternKind::LightweightSpaceship }
    }

    #[verifier::rlimit(100)]
    pub fn pulsar() -> (p: Pattern)
        ensures
            p.kind == PatternKind::Pulsar,
            p.cells@ == pulsar_cells(),
    {
        let mut cells: Vec<(i32, i32)> = Vec::new();
        cells.push((2, 0));
        cells.push((3, 0));
        cells.push((4, 0));
        cells.push((8, 0));
        cells.push((9, 0));
        cells.push((10, 0));
        cells.push((1, 2));
        cells.push((5, 2));
        cells.push((7, 2));
        cells.push((11, 2));
        cells.push((1, 3));
        cells.push((5, 3));
        cells.push((7, 3));
        cells.push((11, 3));
        cells.push((1, 4));
        cells.push((5, 4));
        cells.push((7, 4));
        cells.push((11, 4));
        cells.push((2, 5));
        cells.push((3, 5));
        cells.push((4, 5));
        cells.push((8, 5));
        cells.push((9, 5));
        cells.push((10, 5));
        cells.push((2, 7));
        cells.push((3, 7));
        cells.push((4, 7));
        cells.push((8, 7));
        cells.push((9, 7));
        cells.push((10, 7));
        cells.push((1, 8));
        cells.push((5, 8));
        cells.push((7, 8));
        cells.push((11, 8));
        cells.push((1, 9));
        cells.push((5, 9));
        cells.push((7, 9));
        cells.push((11, 9));
        cells.push((1, 10));
        cells.push((5, 10));
        cells.push((7, 10));
        cells.push((11, 10));
        cells.push((2, 12));
        cells.push((3, 12));
        cells.push((4, 12));
        cells.push((8, 12));
        cells.push((9, 12));
        cells.push((10, 12));
        assert(cells@ =~= pulsar_cells());
        Pattern { cells, kind: PatternKind::Pulsar }
    }

    #[verifier::rlimit(100)]
    pub fn gospel_glider_gun() -> (p: Pattern)
        ensures
            p.kind == PatternKind::GosperGliderGun,
            p.cells@ == gospel_glider_gun_cells(),
    {
        let mut cells: Vec<(i32, i32)> = Vec::new();
        cells.push((0, 4));
        cells.push((0, 5));
        cells.push((1, 4));
        cells.push((1, 5));
        cells.push((10, 4));
        cells.push((10, 5));
        cells.push((10, 6));
        cells.push((11, 3));
        cells.push((11, 7));
        cells.push((12, 2));
        cells.push((12, 8));
        cells.push((13, 2));
        cells.push((13, 8));
        cells.push((14, 5));
        cells.push((15, 3));
        cells.push((15, 7));
        cells.push((16, 4));
        cells.push((16, 5));
        cells.push((16, 6));
        cells.push((17, 5));
        cells.push((20, 2));
        cells.push((20, 3));
        cells.push((20, 4));
        cells.push((21, 2));
        cells.push((21, 3));
        cells.push((21, 4));
        cells.push((22, 1));
        cells.push((22, 5));
        cells.push((24, 0));
        cells.push((24, 1));
        cells.push((24, 5));
        cells.push((24, 6));
        cells.push((34, 2));
        cells.push((34, 3));
        cells.push((35, 2));
        cells.push((35, 3));
        assert(cells@ =~= gospel_glider_gun_cells());
        Pattern { cells, kind: PatternKind::GosperGliderGun }
    }

    /// Anchors the pattern at the grid center and keeps the in-bounds
    /// absolute coordinates; on grids whose smaller dimension is at least
    /// 200 the glider is replicated at four symmetric offsets from center.
    pub fn scaled_for_grid(&self, grid_width: u32, grid_height: u32) -> (r: Vec<(u32, u32)>)
        requires
            1 <= grid_width,
            1 <= grid_height,
        ensures
            r@ == scaled_positions(
                self.kind,
                self.cells@,
                grid_width as int,
                grid_height as int,
            ),
            forall|k: int|
                0 <= k < r@.len() ==> (#[trigger] r@[k]).0 < grid_width && r@[k].1 < grid_height,
    {
        let cx: i64 = (grid_width / 2) as i64;
        let cy: i64 = (grid_height / 2) as i64;
        let min_dimension: u32 = if grid_width < grid_height {
            grid_width
        } else {
            grid_height
        };

        let mut positions: Vec<(u32, u32)> = Vec::new();
        if min_dimension >= 200 && self.kind == PatternKind::Glider {
            place_into(&mut positions, &self.cells, cx - 30, cy - 30, grid_width, grid_height);
            place_into(&mut positions, &self.cells, cx + 30, cy - 30, grid_width, grid_height);
            place_into(&mut positions, &self.cells, cx - 30, cy + 30, grid_width, grid_height);
            place_into(&mut positions, &self.cells, cx + 30, cy + 30, grid_width, grid_height);
            proof {
                let w = grid_width as int;
                let h = grid_height as int;
                assert(positions@ =~= scaled_positions(self.kind, self.cells@, w, h));
            }
        } else {
            place_into(&mut positions, &self.cells, cx, cy, grid_width, grid_height);
            assert(positions@ =~= scaled_positions(
                self.kind,
                self.cells@,
                grid_width as int,
                grid_height as int,
            ));
        }
        proof {
            lemma_scaled_positions_in_bounds(
                self.kind,
                self.cells@,
                grid_width as int,
                grid_height as int,
            );
        }
        positions
    }
}

/// Appends the in-bounds placements of `cells` anchored at `(cx, cy)`.
fn place_into(
    positions: &mut Vec<(u32, u32)>,
    cells: &Vec<(i32, i32)>,
    cx: i64,
    cy: i64,
    grid_width: u32,
    grid_height: u32,
)
    requires
        i64::MIN / 2 < cx < i64::MAX / 2,
        i64::MIN / 2 < cy < i64::MAX / 2,
    ensures
        final(positions)@ == old(positions)@ + place_cells(
            cells@,
            cx as int,
            cy as int,
            grid_width as int,
            grid_height as int,
        ),
{
    let ghost w = grid_width as int;
    let ghost h = grid_height as int;
    let ghost orig = positions@;
    proof {
        assert(orig + place_cells(cells@.take(0), cx as int, cy as int, w, h) =~= orig);
    }
    let mut k: usize = 0;
    while k < cells.len()
        invariant
            i64::MIN / 2 < cx < i64::MAX / 2,
            i64::MIN / 2 < cy < i64::MAX / 2,
            w == grid_width as int,
            h == grid_height as int,
            k <= cells@.len(),
            positions@ == orig + place_cells(cells@.take(k as int), cx as int, cy as int, w, h),
        decreases cells@.len() - k,
    {
        let (dx, dy) = cells[k];
        let px: i64 = cx + dx as i64;
        let py: i64 = cy + dy as i64;
        if px >= 0 && py >= 0 && px < grid_width as i64 && py < grid_height as i64 {
            positions.push((px as u32, py as u32));
        }
        proof {
            assert(cells@.take(k as int + 1).drop_last() =~= cells@.take(k as int));
            assert(cells@.take(k as int + 1).last() == cells@[k as int]);
            assert(positions@ =~= orig + place_cells(
                cells@.take(k as int + 1),
                cx as int,
                cy as int,
                w,
                h,
            ));
        }
        k = k + 1;
    }
    proof {
        assert(cells@.take(cells@.len() as int) =~= cells@);
    }
}

} // verus!
