//! Classic pattern behavior, proved for every grid large enough that the
//! pattern stays clear of the torus seam: the two-by-two block is a still
//! life, and loading the blinker and stepping twice returns the original
//! state. (On smaller grids a pattern can interact with itself across the
//! wrap.)

use crate::life::{
    lemma_step_rule,
    lemma_texel_index_bound,
    lemma_texel_index_decompose,
    live_ind,
    live_neighbors,
    next_gen,
    next_live,
    texel_live,
    wrap_dec,
    wrap_inc,
};
use crate::patterns::{blinker_cells, scaled_positions, PatternKind};
use crate::texture::{lemma_pattern_data_live, pattern_data, pos_marked};
use vstd::prelude::*;

verus! {

/// The three cells of a horizontal blinker centered at `(cx, cy)`.
pub open spec fn blinker_row(cx: int, cy: int) -> Seq<(u32, u32)> {
    seq![((cx - 1) as u32, cy as u32), (cx as u32, cy as u32), ((cx + 1) as u32, cy as u32)]
}

/// The three cells of a vertical blinker centered at `(cx, cy)`.
pub open spec fn blinker_column(cx: int, cy: int) -> Seq<(u32, u32)> {
    seq![(cx as u32, (cy - 1) as u32), (cx as u32, cy as u32), (cx as u32, (cy + 1) as u32)]
}

/// The center is far enough from every edge that the blinker and its halo
/// never touch the torus seam, and the coordinates fit the position type.
pub open spec fn centered(cx: int, cy: int, w: int, h: int) -> bool {
    &&& 2 <= cx <= w - 3
    &&& 2 <= cy <= h - 3
    &&& w <= u32::MAX as int + 1
    &&& h <= u32::MAX as int + 1
}

/// The four cells of a two-by-two block with top-left corner `(cx, cy)`.
pub open spec fn block_cells(cx: int, cy: int) -> Seq<(u32, u32)> {
    seq![
        (cx as u32, cy as u32),
        ((cx + 1) as u32, cy as u32),
        (cx as u32, (cy + 1) as u32),
        ((cx + 1) as u32, (cy + 1) as u32),
    ]
}

/// The two-by-two block is a still life: every block cell has exactly three
/// live neighbors and survives, and no dead cell sees more than two.
pub proof fn lemma_block_still_life(w: int, h: int, cx: int, cy: int)
    requires
        1 <= cx <= w - 3,
        1 <= cy <= h - 3,
        w <= u32::MAX as int + 1,
        h <= u32::MAX as int + 1,
    ensures
        next_gen(pattern_data(w, h, block_cells(cx, cy)), w, h) == pattern_data(
            w,
            h,
            block_cells(cx, cy),
        ),
{
    let d0 = pattern_data(w, h, block_cells(cx, cy));
    let d1 = next_gen(d0, w, h);
    lemma_pattern_data_live(w, h, block_cells(cx, cy));
    assert forall|x: int, y: int| 0 <= x < w && 0 <= y < h implies pos_marked(
        block_cells(cx, cy),
        x,
        y,
    ) == (cx <= x <= cx + 1 && cy <= y <= cy + 1) by {
        if cx <= x <= cx + 1 && cy <= y <= cy + 1 {
            assert(block_cells(cx, cy)[if x == cx && y == cy {
                0int
            } else if y == cy {
                1int
            } else if x == cx {
                2int
            } else {
                3int
            }] == ((x as u32, y as u32)));
        }
    }
    assert forall|a: int, b: int| 0 <= a < w && 0 <= b < h implies texel_live(d1, w, a, b)
        == texel_live(d0, w, a, b) by {
        lemma_step_rule(d0, w, h, a, b);
        let xm = wrap_dec(a, w);
        let xp = wrap_inc(a, w);
        let ym = wrap_dec(b, h);
        let yp = wrap_inc(b, h);
        assert(live_ind(d0, w, xm, ym) == if cx <= xm <= cx + 1 && cy <= ym <= cy + 1 { 1int } else { 0int });
        assert(live_ind(d0, w, a, ym) == if cx <= a <= cx + 1 && cy <= ym <= cy + 1 { 1int } else { 0int });
        assert(live_ind(d0, w, xp, ym) == if cx <= xp <= cx + 1 && cy <= ym <= cy + 1 { 1int } else { 0int });
        assert(live_ind(d0, w, xm, b) == if cx <= xm <= cx + 1 && cy <= b <= cy + 1 { 1int } else { 0int });
        assert(live_ind(d0, w, xp, b) == if cx <= xp <= cx + 1 && cy <= b <= cy + 1 { 1int } else { 0int });
        assert(live_ind(d0, w, xm, yp) == if cx <= xm <= cx + 1 && cy <= yp <= cy + 1 { 1int } else { 0int });
        assert(live_ind(d0, w, a, yp) == if cx <= a <= cx + 1 && cy <= yp <= cy + 1 { 1int } else { 0int });
        assert(live_ind(d0, w, xp, yp) == if cx <= xp <= cx + 1 && cy <= yp <= cy + 1 { 1int } else { 0int });
        if cx <= a <= cx + 1 && cy <= b <= cy + 1 {
            assert(live_neighbors(d0, w, h, a, b) == 3);
        }
    }
    assert forall|i: int| 0 <= i < d1.len() implies d1[i] == d0[i] by {
        if i % 4 != 3 {
            let cell = i / 4;
            let x = cell % w;
            let y = cell / w;
            crate::life::lemma_byte_index_cell_bounds(w, h, i);
            lemma_texel_index_bound(w, h, x, y);
            lemma_texel_index_decompose(w, x, y, 0);
            assert(texel_live(d1, w, x, y) == next_live(
                texel_live(d0, w, x, y),
                live_neighbors(d0, w, h, x, y),
            ));
        }
    }
    assert(d1 =~= d0);
}

/// One step turns the horizontal blinker into the vertical one.
pub proof fn lemma_blinker_row_steps_to_column(w: int, h: int, cx: int, cy: int)
    requires
        centered(cx, cy, w, h),
    ensures
        next_gen(pattern_data(w, h, blinker_row(cx, cy)), w, h) == pattern_data(
            w,
            h,
            blinker_column(cx, cy),
        ),
{
    let d0 = pattern_data(w, h, blinker_row(cx, cy));
    let d1 = next_gen(d0, w, h);
    let target = pattern_data(w, h, blinker_column(cx, cy));
    lemma_pattern_data_live(w, h, blinker_row(cx, cy));
    lemma_pattern_data_live(w, h, blinker_column(cx, cy));
    assert forall|x: int, y: int| 0 <= x < w && 0 <= y < h implies pos_marked(
        blinker_row(cx, cy),
        x,
        y,
    ) == (y == cy && (x == cx - 1 || x == cx || x == cx + 1)) by {
        if y == cy && (x == cx - 1 || x == cx || x == cx + 1) {
            assert(blinker_row(cx, cy)[if x == cx - 1 {
                0int
            } else if x == cx {
                1int
            } else {
                2int
            }] == ((x as u32, y as u32)));
        }
    }
    assert forall|x: int, y: int| 0 <= x < w && 0 <= y < h implies pos_marked(
        blinker_column(cx, cy),
        x,
        y,
    ) == (x == cx && (y == cy - 1 || y == cy || y == cy + 1)) by {
        if x == cx && (y == cy - 1 || y == cy || y == cy + 1) {
            assert(blinker_column(cx, cy)[if y == cy - 1 {
                0int
            } else if y == cy {
                1int
            } else {
                2int
            }] == ((x as u32, y as u32)));
        }
    }
    assert forall|a: int, b: int| 0 <= a < w && 0 <= b < h implies texel_live(d1, w, a, b) == (a
        == cx && (b == cy - 1 || b == cy || b == cy + 1)) by {
        lemma_step_rule(d0, w, h, a, b);
        let xm = wrap_dec(a, w);
        let xp = wrap_inc(a, w);
        let ym = wrap_dec(b, h);
        let yp = wrap_inc(b, h);
        assert(live_ind(d0, w, xm, ym) == if ym == cy && cx - 1 <= xm <= cx + 1 { 1int } else { 0int });
        assert(live_ind(d0, w, a, ym) == if ym == cy && cx - 1 <= a <= cx + 1 { 1int } else { 0int });
        assert(live_ind(d0, w, xp, ym) == if ym == cy && cx - 1 <= xp <= cx + 1 { 1int } else { 0int });
        assert(live_ind(d0, w, xm, b) == if b == cy && cx - 1 <= xm <= cx + 1 { 1int } else { 0int });
        assert(live_ind(d0, w, xp, b) == if b == cy && cx - 1 <= xp <= cx + 1 { 1int } else { 0int });
        assert(live_ind(d0, w, xm, yp) == if yp == cy && cx - 1 <= xm <= cx + 1 { 1int } else { 0int });
        assert(live_ind(d0, w, a, yp) == if yp == cy && cx - 1 <= a <= cx + 1 { 1int } else { 0int });
        assert(live_ind(d0, w, xp, yp) == if yp == cy && cx - 1 <= xp <= cx + 1 { 1int } else { 0int });
        if a == cx && (b == cy - 1 || b == cy || b == cy + 1) {
            if b == cy {
                assert(live_neighbors(d0, w, h, a, b) == 2);
            } else {
                assert(live_neighbors(d0, w, h, a, b) == 3);
            }
        }
    }
    assert forall|i: int| 0 <= i < d1.len() implies d1[i] == target[i] by {
        if i % 4 != 3 {
            let cell = i / 4;
            let x = cell % w;
            let y = cell / w;
            crate::life::lemma_byte_index_cell_bounds(w, h, i);
            lemma_texel_index_bound(w, h, x, y);
            lemma_texel_index_decompose(w, x, y, 0);
            assert(texel_live(d1, w, x, y) == next_live(
                texel_live(d0, w, x, y),
                live_neighbors(d0, w, h, x, y),
            ));
        }
    }
    assert(d1 =~= target);
}

/// One step turns the vertical blinker back into the horizontal one.
pub proof fn lemma_blinker_column_steps_to_row(w: int, h: int, cx: int, cy: int)
    requires
        centered(cx, cy, w, h),
    ensures
        next_gen(pattern_data(w, h, blinker_column(cx, cy)), w, h) == pattern_data(
            w,
            h,
            blinker_row(cx, cy),
        ),
{
    let d0 = pattern_data(w, h, blinker_column(cx, cy));
    let d1 = next_gen(d0, w, h);
    let target = pattern_data(w, h, blinker_row(cx, cy));
    lemma_pattern_data_live(w, h, blinker_column(cx, cy));
    lemma_pattern_data_live(w, h, blinker_row(cx, cy));
    assert forall|x: int, y: int| 0 <= x < w && 0 <= y < h implies pos_marked(
        blinker_column(cx, cy),
        x,
        y,
    ) == (x == cx && (y == cy - 1 || y == cy || y == cy + 1)) by {
        if x == cx && (y == cy - 1 || y == cy || y == cy + 1) {
            assert(blinker_column(cx, cy)[if y == cy - 1 {
                0int
            } else if y == cy {
                1int
            } else {
                2int
            }] == ((x as u32, y as u32)));
        }
    }
    assert forall|x: int, y: int| 0 <= x < w && 0 <= y < h implies pos_marked(
        blinker_row(cx, cy),
        x,
        y,
    ) == (y == cy && (x == cx - 1 || x == cx || x == cx + 1)) by {
        if y == cy && (x == cx - 1 || x == cx || x == cx + 1) {
            assert(blinker_row(cx, cy)[if x == cx - 1 {
                0int
            } else if x == cx {
                1int
            } else {
                2int
            }] == ((x as u32, y as u32)));
        }
    }
    assert forall|a: int, b: int| 0 <= a < w && 0 <= b < h implies texel_live(d1, w, a, b) == (b
        == cy && (a == cx - 1 || a == cx || a == cx + 1)) by {
        lemma_step_rule(d0, w, h, a, b);
        let xm = wrap_dec(a, w);
        let xp = wrap_inc(a, w);
        let ym = wrap_dec(b, h);
        let yp = wrap_inc(b, h);
        assert(live_ind(d0, w, xm, ym) == if xm == cx && cy - 1 <= ym <= cy + 1 { 1int } else { 0int });
        assert(live_ind(d0, w, a, ym) == if a == cx && cy - 1 <= ym <= cy + 1 { 1int } else { 0int });
        assert(live_ind(d0, w, xp, ym) == if xp == cx && cy - 1 <= ym <= cy + 1 { 1int } else { 0int });
        assert(live_ind(d0, w, xm, b) == if xm == cx && cy - 1 <= b <= cy + 1 { 1int } else { 0int });
        assert(live_ind(d0, w, xp, b) == if xp == cx && cy - 1 <= b <= cy + 1 { 1int } else { 0int });
        assert(live_ind(d0, w, xm, yp) == if xm == cx && cy - 1 <= yp <= cy + 1 { 1int } else { 0int });
        assert(live_ind(d0, w, a, yp) == if a == cx && cy - 1 <= yp <= cy + 1 { 1int } else { 0int });
        assert(live_ind(d0, w, xp, yp) == if xp == cx && cy - 1 <= yp <= cy + 1 { 1int } else { 0int });
        if b == cy && (a == cx - 1 || a == cx || a == cx + 1) {
            if a == cx {
                assert(live_neighbors(d0, w, h, a, b) == 2);
            } else {
                assert(live_neighbors(d0, w, h, a, b) == 3);
            }
        }
    }
    assert forall|i: int| 0 <= i < d1.len() implies d1[i] == target[i] by {
        if i % 4 != 3 {
            let cell = i / 4;
            let x = cell % w;
            let y = cell / w;
            crate::life::lemma_byte_index_cell_bounds(w, h, i);
            lemma_texel_index_bound(w, h, x, y);
            lemma_texel_index_decompose(w, x, y, 0);
            assert(texel_live(d1, w, x, y) == next_live(
                texel_live(d0, w, x, y),
                live_neighbors(d0, w, h, x, y),
            ));
        }
    }
    assert(d1 =~= target);
}

/// Loading the blinker and stepping twice returns the original state, on
/// every grid at least five cells wide and five tall.
pub proof fn lemma_blinker_period_two(w: int, h: int)
    requires
        5 <= w <= u32::MAX as int + 1,
        5 <= h <= u32::MAX as int + 1,
    ensures
        ({
            let seeded = pattern_data(
                w,
                h,
                scaled_positions(PatternKind::Blinker, blinker_cells(), w, h),
            );
            next_gen(next_gen(seeded, w, h), w, h) == seeded
        }),
{
    let cx = w / 2;
    let cy = h / 2;
    assert(2 <= cx <= w - 3 && 2 <= cy <= h - 3) by (nonlinear_arith)
        requires
            5 <= w,
            5 <= h,
            cx == w / 2,
            cy == h / 2,
    ;
    let placed = scaled_positions(PatternKind::Blinker, blinker_cells(), w, h);
    assert(placed =~= blinker_row(cx, cy)) by {
        let cells = blinker_cells();
        let c2 = seq![(-1i32, 0i32), (0i32, 0i32)];
        let c1 = seq![(-1i32, 0i32)];
        let c0 = Seq::<(i32, i32)>::empty();
        assert(cells.drop_last() =~= c2);
        assert(c2.drop_last() =~= c1);
        assert(c1.drop_last() =~= c0);
        assert(crate::patterns::place_cells(c0, cx, cy, w, h) =~= Seq::<(u32, u32)>::empty());
        assert(crate::patterns::place_cells(c1, cx, cy, w, h) =~= seq![
            ((cx - 1) as u32, cy as u32),
        ]);
        assert(crate::patterns::place_cells(c2, cx, cy, w, h) =~= seq![
            ((cx - 1) as u32, cy as u32),
            (cx as u32, cy as u32),
        ]);
        assert(crate::patterns::place_cells(cells, cx, cy, w, h) =~= blinker_row(cx, cy));
    }
    lemma_blinker_row_steps_to_column(w, h, cx, cy);
    lemma_blinker_column_steps_to_row(w, h, cx, cy);
}

} // verus!
