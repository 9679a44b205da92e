use vstd::prelude::*;

verus! {

pub open spec fn abs_i(a: int) -> int {
    if a < 0 {
        -a
    } else {
        a
    }
}

pub open spec fn max_i(a: int, b: int) -> int {
    if a < b {
        b
    } else {
        a
    }
}

pub open spec fn min_i(a: int, b: int) -> int {
    if a < b {
        a
    } else {
        b
    }
}

/// Chebyshev (king-move) distance between two cells.
pub open spec fn cheb_dist(ax: int, ay: int, bx: int, yb: int) -> int {
    max_i(abs_i(ax - bx), abs_i(ay - yb))
}

/// The two cells are distinct and adjacent, diagonals included.
pub open spec fn king_step(ax: int, ay: int, bx: int, yb: int) -> bool {
    cheb_dist(ax, ay, bx, yb) == 1
}

/// Distinct in-row cells have distinct row-major indices (row width 80).
pub proof fn lemma_xy_idx_inj(x1: int, y1: int, x2: int, y2: int)
    requires
        0 <= x1 < 80,
        0 <= x2 < 80,
        y1 * 80 + x1 == y2 * 80 + x2,
    ensures
        x1 == x2,
        y1 == y2,
{
}

/// The Chebyshev distance obeys the triangle inequality.
pub proof fn lemma_cheb_triangle(ax: int, ay: int, bx: int, yb: int, cx: int, cy: int)
    ensures
        cheb_dist(ax, ay, cx, cy) <= cheb_dist(ax, ay, bx, yb) + cheb_dist(bx, yb, cx, cy),
{
}

} // verus!
