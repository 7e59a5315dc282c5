//! Cells crossed by a straight stroke between two grid cells (Bresenham).

use vstd::prelude::*;

verus! {

/// Distance along one axis.
pub open spec fn span(from: int, to: int) -> int {
    if from <= to { to - from } else { from - to }
}

/// How far `c` has moved from `from` towards `to`, along one axis.
pub open spec fn progress(from: int, to: int, c: int) -> int {
    if from < to { c - from } else { from - c }
}

/// The longer of the two spans of the stroke.
pub open spec fn major_span(x0: int, y0: int, x1: int, y1: int) -> int {
    if span(x0, x1) >= span(y0, y1) { span(x0, x1) } else { span(y0, y1) }
}

/// Cell `c` lies in the stroke's box, and its minor-axis position is within
/// half a cell of the ideal line through the two end cells:
/// `2 * |b * dx - a * dy| <= max(dx, dy)`; where two cells are exactly half
/// a cell away, it is the one that has moved less along the minor axis.
pub open spec fn near_line(x0: int, y0: int, x1: int, y1: int, c: (i32, i32)) -> bool {
    let dx = span(x0, x1);
    let dy = span(y0, y1);
    let a = progress(x0, x1, c.0 as int);
    let b = progress(y0, y1, c.1 as int);
    &&& 0 <= a <= dx
    &&& 0 <= b <= dy
    &&& rounded(dx, dy, b * dx - a * dy)
}

/// The deviation `e = b * dx - a * dy` of a cell from the ideal line is at
/// most half a cell, and a tie goes to the cell behind the line on the minor
/// axis (`2e = -dx` when `x` is the longer axis, `2e = dy` when `y` is).
pub open spec fn rounded(dx: int, dy: int, e: int) -> bool {
    if dx >= dy {
        &&& -dx <= 2 * e <= dx
        &&& dx > 0 ==> 2 * e != dx
    } else {
        -dy < 2 * e <= dy
    }
}

/// Cell `c` is `k` cells from the start along the stroke's longer axis.
pub open spec fn major_progress(x0: int, y0: int, x1: int, y1: int, c: (i32, i32), k: int) -> bool {
    if span(x0, x1) >= span(y0, y1) {
        progress(x0, x1, c.0 as int) == k
    } else {
        progress(y0, y1, c.1 as int) == k
    }
}

/// Going from `p` to `q` moves each coordinate by at most one cell, towards
/// the stroke's end, and moves at least one of them.
pub open spec fn unit_step(x0: int, y0: int, x1: int, y1: int, p: (i32, i32), q: (i32, i32)) -> bool {
    let ax = progress(x0, x1, q.0 as int) - progress(x0, x1, p.0 as int);
    let ay = progress(y0, y1, q.1 as int) - progress(y0, y1, p.1 as int);
    &&& 0 <= ax <= 1
    &&& 0 <= ay <= 1
    &&& ax + ay >= 1
}

proof fn lemma_mul_step(a: int, d: int)
    ensures
        (a + 1) * d == a * d + d,
{
    assert((a + 1) * d == a * d + d) by (nonlinear_arith);
}

/// All grid cells on the stroke from `(x0, y0)` to `(x1, y1)`, both ends
/// included: one cell per step along the longer axis, each within half a
/// cell of the ideal line, moving towards the end one cell at a time.
pub fn line_cells(x0: i32, y0: i32, x1: i32, y1: i32) -> (cells: Vec<(i32, i32)>)
    ensures
        cells@.len() == major_span(x0 as int, y0 as int, x1 as int, y1 as int) + 1,
        cells@[0] == (x0, y0),
        cells@.last() == (x1, y1),
        forall|k: int|
            0 <= k < cells@.len() ==> near_line(x0 as int, y0 as int, x1 as int, y1 as int, #[trigger] cells@[k])
                && major_progress(x0 as int, y0 as int, x1 as int, y1 as int, cells@[k], k),
        forall|k: int|
            0 <= k < cells@.len() - 1 ==> unit_step(
                x0 as int,
                y0 as int,
                x1 as int,
                y1 as int,
                #[trigger] cells@[k],
                cells@[k + 1],
            ),
{
    let ghost gx0 = x0 as int;
    let ghost gy0 = y0 as int;
    let ghost gx1 = x1 as int;
    let ghost gy1 = y1 as int;
    let mut cells: Vec<(i32, i32)> = Vec::new();
    let dx: i64 = if x1 as i64 >= x0 as i64 { x1 as i64 - x0 as i64 } else { x0 as i64 - x1 as i64 };
    let dy: i64 = if y1 as i64 >= y0 as i64 { y1 as i64 - y0 as i64 } else { y0 as i64 - y1 as i64 };
    let sx: i64 = if x0 < x1 { 1 } else { -1 };
    let sy: i64 = if y0 < y1 { 1 } else { -1 };
    let mut err: i64 = dx - dy;
    let mut x: i64 = x0 as i64;
    let mut y: i64 = y0 as i64;
    let ghost m = major_span(gx0, gy0, gx1, gy1);
    let ghost mut a: int = 0;
    let ghost mut b: int = 0;
    let ghost mut d: int = 0;
    loop
        invariant_except_break
            gx0 == x0 as int,
            gy0 == y0 as int,
            gx1 == x1 as int,
            gy1 == y1 as int,
            dx == span(gx0, gx1),
            dy == span(gy0, gy1),
            m == major_span(gx0, gy0, gx1, gy1),
            sx == (if x0 < x1 { 1int } else { -1int }),
            sy == (if y0 < y1 { 1int } else { -1int }),
            0 <= a <= dx,
            0 <= b <= dy,
            x == (if x0 < x1 { gx0 + a } else { gx0 - a }),
            y == (if y0 < y1 { gy0 + b } else { gy0 - b }),
            d == b * dx - a * dy,
            err == d + dx - dy,
            rounded(dx as int, dy as int, d),
            dx == dy ==> d == 0,
            cells@.len() == (if dx >= dy { a } else { b }),
            cells@.len() > 0 ==> unit_step(gx0, gy0, gx1, gy1, cells@.last(), (x as i32, y as i32)),
            cells@.len() > 0 ==> cells@[0] == (x0, y0),
            cells@.len() == 0 ==> a == 0 && b == 0,
            forall|k: int|
                0 <= k < cells@.len() ==> near_line(gx0, gy0, gx1, gy1, #[trigger] cells@[k])
                    && major_progress(gx0, gy0, gx1, gy1, cells@[k], k),
            forall|k: int|
                0 <= k < cells@.len() - 1 ==> unit_step(
                    gx0,
                    gy0,
                    gx1,
                    gy1,
                    #[trigger] cells@[k],
                    cells@[k + 1],
                ),
        ensures
            gx0 == x0 as int,
            gy0 == y0 as int,
            gx1 == x1 as int,
            gy1 == y1 as int,
            m == major_span(gx0, gy0, gx1, gy1),
            cells@.len() == m + 1,
            cells@[0] == (x0, y0),
            cells@.last() == (x1, y1),
            forall|k: int|
                0 <= k < cells@.len() ==> near_line(gx0, gy0, gx1, gy1, #[trigger] cells@[k])
                    && major_progress(gx0, gy0, gx1, gy1, cells@[k], k),
            forall|k: int|
                0 <= k < cells@.len() - 1 ==> unit_step(
                    gx0,
                    gy0,
                    gx1,
                    gy1,
                    #[trigger] cells@[k],
                    cells@[k + 1],
                ),
        decreases (dx - a) + (dy - b),
    {
        let ghost before = cells@;
        proof {
            if x0 < x1 {
                assert(dx == gx1 - gx0);
                assert(gx0 <= x <= gx1);
            } else {
                assert(dx == gx0 - gx1);
                assert(gx1 <= x <= gx0);
            }
            if y0 < y1 {
                assert(gy0 <= y <= gy1);
            } else {
                assert(gy1 <= y <= gy0);
            }
        }
        let cell: (i32, i32) = (x as i32, y as i32);
        proof {
            assert(cell.0 as int == x && cell.1 as int == y);
            assert(progress(gx0, gx1, cell.0 as int) == a);
            assert(progress(gy0, gy1, cell.1 as int) == b);
            assert(near_line(gx0, gy0, gx1, gy1, cell));
        }
        cells.push(cell);
        proof {
            if before.len() == 0 {
                assert(cells@[0] == cell);
            }
            assert forall|k: int| 0 <= k < cells@.len() - 1 implies unit_step(
                gx0,
                gy0,
                gx1,
                gy1,
                #[trigger] cells@[k],
                cells@[k + 1],
            ) by {
                if k < before.len() - 1 {
                    assert(cells@[k] == before[k] && cells@[k + 1] == before[k + 1]);
                }
            }
            assert forall|k: int| 0 <= k < cells@.len() implies near_line(
                gx0,
                gy0,
                gx1,
                gy1,
                #[trigger] cells@[k],
            ) && major_progress(gx0, gy0, gx1, gy1, cells@[k], k) by {
                if k < before.len() {
                    assert(cells@[k] == before[k]);
                }
            }
        }
        if x == x1 as i64 && y == y1 as i64 {
            proof {
                assert(a == dx && b == dy);
            }
            break;
        }
        let e2 = 2 * err;
        let ghost a0 = a;
        let ghost b0 = b;
        let ghost d0 = d;
        let move_x = e2 > -dy;
        let move_y = e2 < dx;
        proof {
            // a coordinate that reached its end does not move again
            let gdx = dx as int;
            let gdy = dy as int;
            if a0 == gdx && b0 < gdy {
                assert(d0 <= -gdx) by (nonlinear_arith)
                    requires
                        0 <= b0 < gdy,
                        0 <= gdx,
                        a0 == gdx,
                        d0 == b0 * gdx - a0 * gdy,
                ;
                assert(!move_x);
            }
            if b0 == gdy && a0 < gdx {
                assert(d0 >= gdy) by (nonlinear_arith)
                    requires
                        0 <= a0 < gdx,
                        0 <= gdy,
                        b0 == gdy,
                        d0 == b0 * gdx - a0 * gdy,
                ;
                assert(!move_y);
            }
            assert(move_x || move_y);
            if dx > dy {
                assert(move_x);
            }
            if dy > dx {
                assert(move_y);
            }
            if dx == dy {
                assert(move_x && move_y);
            }
        }
        if move_x {
            err = err - dy;
            x = x + sx;
            proof {
                lemma_mul_step(a, dy as int);
                a = a + 1;
                d = d - dy;
            }
        }
        if move_y {
            err = err + dx;
            y = y + sy;
            proof {
                lemma_mul_step(b, dx as int);
                b = b + 1;
                d = d + dx;
            }
        }
        proof {
            assert(unit_step(gx0, gy0, gx1, gy1, cells@.last(), (x as i32, y as i32)));
        }
    }
    cells
}

} // verus!
