//! Integer Bresenham line rasterization: the exact set of cells a line
//! between two grid points traverses, and the proof that the stepping loop
//! reaches its endpoint.
//!
//! The stepping state keeps an error term `err`; writing `u` and `v` for the
//! remaining distances along each axis, the loop maintains
//! `err == dx * (1 - v) - b * (1 - u)` (with `dx` the total x distance and
//! `b` the total y distance). That identity is what rules out overshooting:
//! when one axis is exhausted the error test only ever advances the other.

use crate::cell_written;
use vstd::prelude::*;

verus! {

/// How far the stepping state still has to travel, clamped so it can serve
/// as a termination measure.
pub open spec fn line_measure(x0: int, y0: int, xe: int, ye: int, sx: int, sy: int) -> int {
    let m = sx * (xe - x0) + sy * (ye - y0);
    if m >= 0 {
        m
    } else {
        0
    }
}

/// The points the stepping loop visits from state `(x0, y0, err)` until it
/// reaches `(xe, ye)`: each iteration emits the current point, then advances
/// x when `2 * err` is at least `dy` and advances y when `2 * err` is at
/// most `dx` (at least one of the two always fires). The recursion guards on
/// its own termination measure; on every state the loop actually reaches,
/// the measure does decrease and the guard is transparent.
pub open spec fn line_points_rec(
    x0: int,
    y0: int,
    xe: int,
    ye: int,
    dx: int,
    dy: int,
    sx: int,
    sy: int,
    err: int,
) -> Seq<(int, int)>
    decreases line_measure(x0, y0, xe, ye, sx, sy),
{
    if x0 == xe && y0 == ye {
        seq![(x0, y0)]
    } else {
        let e2 = 2 * err;
        let nx0 = if e2 >= dy {
            x0 + sx
        } else {
            x0
        };
        let ny0 = if e2 <= dx {
            y0 + sy
        } else {
            y0
        };
        let nerr = err + (if e2 >= dy {
            dy
        } else {
            0
        }) + (if e2 <= dx {
            dx
        } else {
            0
        });
        if line_measure(nx0, ny0, xe, ye, sx, sy) < line_measure(x0, y0, xe, ye, sx, sy) {
            seq![(x0, y0)] + line_points_rec(nx0, ny0, xe, ye, dx, dy, sx, sy, nerr)
        } else {
            seq![(x0, y0)]
        }
    }
}

/// The points of the Bresenham line from `(x1, y1)` to `(x2, y2)`, endpoints
/// included.
pub open spec fn line_points(x1: int, y1: int, x2: int, y2: int) -> Seq<(int, int)> {
    let dx = if x2 >= x1 {
        x2 - x1
    } else {
        x1 - x2
    };
    let b = if y2 >= y1 {
        y2 - y1
    } else {
        y1 - y2
    };
    let sx = if x1 < x2 {
        1
    } else {
        -1
    };
    let sy = if y1 < y2 {
        1
    } else {
        -1
    };
    line_points_rec(x1, y1, x2, y2, dx, -b, sx, sy, dx - b)
}

/// A buffer with every in-bounds point of `pts` overwritten as a live texel,
/// in order; out-of-bounds points are skipped.
pub open spec fn marked_line(data: Seq<u8>, w: int, h: int, pts: Seq<(int, int)>) -> Seq<u8>
    decreases pts.len(),
{
    if pts.len() == 0 {
        data
    } else {
        let prefix = marked_line(data, w, h, pts.drop_last());
        let p = pts.last();
        if 0 <= p.0 < w && 0 <= p.1 < h {
            cell_written(prefix, w, p.0, p.1, 255u8)
        } else {
            prefix
        }
    }
}

/// Some point of `pts` is the cell `(x, y)`.
pub open spec fn on_line(pts: Seq<(int, int)>, x: int, y: int) -> bool {
    exists|j: int| 0 <= j < pts.len() && pts[j].0 == x && pts[j].1 == y
}

/// Marking a line writes exactly the in-bounds cells the line traverses:
/// every traversed cell becomes a live texel and every byte of every other
/// cell is untouched.
pub proof fn lemma_marked_line_cells(data: Seq<u8>, w: int, h: int, pts: Seq<(int, int)>)
    requires
        1 <= w,
        1 <= h,
        data.len() == 4 * w * h,
    ensures
        marked_line(data, w, h, pts).len() == data.len(),
        forall|x: int, y: int|
            0 <= x < w && 0 <= y < h && on_line(pts, x, y) ==> marked_line(data, w, h, pts)[
                #[trigger] crate::life::texel_index(w, x, y)] == 255 && marked_line(data, w, h, pts)[
                crate::life::texel_index(w, x, y) + 1] == 255 && marked_line(data, w, h, pts)[
                crate::life::texel_index(w, x, y) + 2] == 255 && marked_line(data, w, h, pts)[
                crate::life::texel_index(w, x, y) + 3] == 255,
        forall|i: int|
            0 <= i < data.len() && !on_line(pts, (i / 4) % w, (i / 4) / w)
                ==> #[trigger] marked_line(data, w, h, pts)[i] == data[i],
    decreases pts.len(),
{
    if pts.len() == 0 {
    } else {
        let rest = pts.drop_last();
        let p = pts.last();
        lemma_marked_line_cells(data, w, h, rest);
        let m = marked_line(data, w, h, pts);
        let mr = marked_line(data, w, h, rest);
        let inb = 0 <= p.0 < w && 0 <= p.1 < h;
        if inb {
            crate::life::lemma_texel_index_bound(w, h, p.0, p.1);
        }
        // a point of the shorter line is a point of the whole line
        assert forall|x: int, y: int| on_line(rest, x, y) implies on_line(pts, x, y) by {
            let j = choose|j: int|
                0 <= j < rest.len() && (#[trigger] rest[j]).0 == x && rest[j].1 == y;
            assert(pts[j] == rest[j]);
        }
        assert forall|x: int, y: int|
            0 <= x < w && 0 <= y < h && on_line(pts, x, y) implies m[
            #[trigger] crate::life::texel_index(w, x, y)] == 255 && m[crate::life::texel_index(
            w,
            x,
            y,
        ) + 1] == 255 && m[crate::life::texel_index(w, x, y) + 2] == 255 && m[
        crate::life::texel_index(w, x, y) + 3] == 255 by {
            crate::life::lemma_texel_index_bound(w, h, x, y);
            if x == p.0 && y == p.1 {
                // the last point: its texel was just overwritten
                assert(m[crate::life::texel_index(w, x, y)] == 255);
            } else {
                // an earlier point: its texel is already live and disjoint
                // from the last point's texel
                let j = choose|j: int|
                    0 <= j < pts.len() && (#[trigger] pts[j]).0 == x && pts[j].1 == y;
                assert(j < pts.len() - 1);
                assert(rest[j] == pts[j]);
                assert(on_line(rest, x, y));
                if inb {
                    crate::life::lemma_texel_index_decompose(w, x, y, 0);
                    crate::life::lemma_texel_index_decompose(w, p.0, p.1, 0);
                    assert(p.1 * w + p.0 != y * w + x);
                }
            }
        }
        assert forall|i: int|
            0 <= i < data.len() && !on_line(pts, (i / 4) % w, (i / 4) / w) implies #[trigger] m[i]
            == data[i] by {
            let ix = (i / 4) % w;
            let iy = (i / 4) / w;
            crate::life::lemma_byte_index_cell_bounds(w, h, i);
            assert(!on_line(rest, ix, iy));
            assert(mr[i] == data[i]);
            if inb {
                // the last point's texel belongs to a traversed cell, so it
                // is not this byte
                crate::life::lemma_texel_index_decompose(w, p.0, p.1, 0);
                if p.1 * w + p.0 == i / 4 {
                    assert(ix == p.0 && iy == p.1);
                    assert(pts[pts.len() - 1] == p);
                    assert(on_line(pts, ix, iy));
                }
                assert(i / 4 != p.1 * w + p.0);
                crate::life::lemma_byte_outside_texel(i, p.1 * w + p.0);
            }
        }
    }
}

/// One transition of the stepping loop, in terms of the remaining distances
/// `u` and `v`: at least one axis advances, an exhausted axis never
/// advances, the error identity is maintained, and the remaining total
/// strictly shrinks.
pub proof fn lemma_bresenham_step(dx: int, b: int, u: int, v: int, err: int)
    by (nonlinear_arith)
    requires
        0 <= u <= dx,
        0 <= v <= b,
        u + v > 0,
        err == dx * (1 - v) - b * (1 - u),
    ensures
        2 * err >= -b || 2 * err <= dx,
        2 * err >= -b ==> u >= 1,
        2 * err <= dx ==> v >= 1,
        ({
            let nu = if 2 * err >= -b {
                u - 1
            } else {
                u
            };
            let nv = if 2 * err <= dx {
                v - 1
            } else {
                v
            };
            let nerr = err + (if 2 * err >= -b {
                -b
            } else {
                0
            }) + (if 2 * err <= dx {
                dx
            } else {
                0
            });
            0 <= nu <= dx && 0 <= nv <= b && nerr == dx * (1 - nv) - b * (1 - nu) && nu + nv < u + v
        }),
{
}

/// Arithmetic of a unit sign factor.
pub proof fn lemma_sign_unit(s: int, t: int)
    by (nonlinear_arith)
    requires
        s == 1 || s == -1,
    ensures
        s * t == 0 <==> t == 0,
        s == 1 ==> s * t == t,
        s == -1 ==> s * t == -t,
        s * (t - s) == s * t - 1,
{
}

/// The error term stays well within a machine word pair while the distances
/// fit in 32 bits.
pub proof fn lemma_err_bound(dx: int, b: int, u: int, v: int, err: int)
    by (nonlinear_arith)
    requires
        0 <= u <= dx,
        0 <= v <= b,
        dx <= 0x100000000,
        b <= 0x100000000,
        err == dx * (1 - v) - b * (1 - u),
    ensures
        -0x40000000000000000 <= err <= 0x40000000000000000,
{
}

} // verus!
