use vstd::prelude::*;

use crate::components::Point;
use crate::game_map::{GameMap, TileType};
use crate::geometry::{cheb_dist, king_step, lemma_cheb_triangle};

verus! {

// A cell is visible from an origin when some king-move path of minimal
// (Chebyshev-geodesic) length connects them and every cell strictly between
// the endpoints is transparent. The definition is symmetric in the two
// endpoints yb construction, which is what makes the field of view symmetric.

/// `p` is a king-move path of minimal length from `(ax, ay)` to `(bx, yb)`.
pub open spec fn is_path_between(p: Seq<(int, int)>, ax: int, ay: int, bx: int, yb: int) -> bool {
    &&& p.len() == cheb_dist(ax, ay, bx, yb) + 1
    &&& p[0] == (ax, ay)
    &&& p[p.len() - 1] == (bx, yb)
    &&& forall|i: int|
        #![trigger p[i]]
        0 <= i < p.len() - 1 ==> king_step(p[i].0, p[i].1, p[i + 1].0, p[i + 1].1)
}

/// Every cell of `p` strictly between its endpoints is transparent.
pub open spec fn interior_clear(m: GameMap, p: Seq<(int, int)>) -> bool {
    forall|i: int| #![trigger p[i]] 0 < i < p.len() - 1 ==> m.is_transparent(p[i].0, p[i].1)
}

/// There is an unobstructed line of sight between the two cells.
pub open spec fn line_of_sight(m: GameMap, ax: int, ay: int, bx: int, yb: int) -> bool {
    exists|p: Seq<(int, int)>|
        #![trigger is_path_between(p, ax, ay, bx, yb)]
        is_path_between(p, ax, ay, bx, yb) && interior_clear(m, p)
}

/// The cell `(x, y)` belongs to the field of view of radius `radius` at
/// `(ox, oy)`: it is within range and in line of sight.
pub open spec fn in_fov(m: GameMap, ox: int, oy: int, radius: int, x: int, y: int) -> bool {
    cheb_dist(ox, oy, x, y) <= radius && line_of_sight(m, ox, oy, x, y)
}

/// The candidate predecessor relation of the visibility recursion: `(px, py)`
/// is one king step before `(cx, cy)` on some minimal path from the origin,
/// and sight passes through it.
pub open spec fn fov_pred(
    m: GameMap,
    ox: int,
    oy: int,
    d: int,
    cx: int,
    cy: int,
    px: int,
    py: int,
) -> bool {
    &&& cheb_dist(ox, oy, px, py) == d - 1
    &&& king_step(px, py, cx, cy)
    &&& ((px == ox && py == oy) || m.is_transparent(px, py))
    &&& line_of_sight(m, ox, oy, px, py)
}

/// A cell always has line of sight to itself.
pub proof fn lemma_los_refl(m: GameMap, ax: int, ay: int)
    ensures
        line_of_sight(m, ax, ay, ax, ay),
{
    let p: Seq<(int, int)> = seq![(ax, ay)];
    assert(p[0] == (ax, ay));
    assert(is_path_between(p, ax, ay, ax, ay));
    assert(interior_clear(m, p));
}

/// Along a king-move chain, the distance between two cells is at most the
/// number of steps between them.
proof fn lemma_chain_bound(p: Seq<(int, int)>, j: int, k: int)
    requires
        0 <= j <= k < p.len(),
        forall|i: int|
            #![trigger p[i]]
            0 <= i < p.len() - 1 ==> king_step(p[i].0, p[i].1, p[i + 1].0, p[i + 1].1),
    ensures
        cheb_dist(p[j].0, p[j].1, p[k].0, p[k].1) <= k - j,
    decreases k - j,
{
    if j < k {
        lemma_chain_bound(p, j, k - 1);
        lemma_cheb_triangle(p[j].0, p[j].1, p[k - 1].0, p[k - 1].1, p[k].0, p[k].1);
    }
}

/// On a minimal path every cell sits at exactly its index's distance from the
/// start and the complementary distance from the end.
proof fn lemma_path_distances(p: Seq<(int, int)>, ax: int, ay: int, bx: int, yb: int, i: int)
    requires
        is_path_between(p, ax, ay, bx, yb),
        0 <= i < p.len(),
    ensures
        cheb_dist(ax, ay, p[i].0, p[i].1) == i,
        cheb_dist(p[i].0, p[i].1, bx, yb) == p.len() - 1 - i,
{
    let n = p.len() - 1;
    lemma_chain_bound(p, 0, i);
    lemma_chain_bound(p, i, n);
    lemma_cheb_triangle(ax, ay, p[i].0, p[i].1, bx, yb);
}

/// Line of sight is symmetric: reversing a minimal clear path yields a
/// minimal clear path in the other direction.
pub proof fn lemma_los_symmetric(m: GameMap, ax: int, ay: int, bx: int, yb: int)
    ensures
        line_of_sight(m, ax, ay, bx, yb) <==> line_of_sight(m, bx, yb, ax, ay),
{
    if line_of_sight(m, ax, ay, bx, yb) {
        lemma_los_one_way(m, ax, ay, bx, yb);
    }
    if line_of_sight(m, bx, yb, ax, ay) {
        lemma_los_one_way(m, bx, yb, ax, ay);
    }
}

proof fn lemma_los_one_way(m: GameMap, ax: int, ay: int, bx: int, yb: int)
    requires
        line_of_sight(m, ax, ay, bx, yb),
    ensures
        line_of_sight(m, bx, yb, ax, ay),
{
    let p = choose|p: Seq<(int, int)>|
        #![trigger is_path_between(p, ax, ay, bx, yb)]
        is_path_between(p, ax, ay, bx, yb) && interior_clear(m, p);
    let n = p.len() - 1;
    let q: Seq<(int, int)> = Seq::new(p.len(), |i: int| p[n - i]);
    assert(cheb_dist(bx, yb, ax, ay) == cheb_dist(ax, ay, bx, yb));
    assert(q[0] == (bx, yb));
    assert(q[q.len() - 1] == (ax, ay));
    assert forall|i: int| #![trigger q[i]] 0 <= i < q.len() - 1 implies king_step(
        q[i].0,
        q[i].1,
        q[i + 1].0,
        q[i + 1].1,
    ) by {
        assert(q[i] == p[n - i]);
        assert(q[i + 1] == p[n - i - 1]);
        assert(king_step(p[n - i - 1].0, p[n - i - 1].1, p[n - i].0, p[n - i].1));
    }
    assert(is_path_between(q, bx, yb, ax, ay));
    assert forall|i: int| #![trigger q[i]] 0 < i < q.len() - 1 implies m.is_transparent(q[i].0, q[i].1) by {
        assert(q[i] == p[n - i]);
        assert(0 < n - i < p.len() - 1);
    }
    assert(interior_clear(m, q));
}

/// The visibility recursion: a cell at distance `d >= 1` from the origin is
/// in line of sight exactly when some predecessor one step closer is.
#[verifier::rlimit(80)]
#[verifier::spinoff_prover]
pub proof fn lemma_los_step(m: GameMap, ox: int, oy: int, cx: int, cy: int)
    requires
        cheb_dist(ox, oy, cx, cy) >= 1,
    ensures
        line_of_sight(m, ox, oy, cx, cy) <==> exists|px: int, py: int|
            #![trigger fov_pred(m, ox, oy, cheb_dist(ox, oy, cx, cy), cx, cy, px, py)]
            fov_pred(m, ox, oy, cheb_dist(ox, oy, cx, cy), cx, cy, px, py),
{
    let d = cheb_dist(ox, oy, cx, cy);
    if line_of_sight(m, ox, oy, cx, cy) {
        let p = choose|p: Seq<(int, int)>|
            #![trigger is_path_between(p, ox, oy, cx, cy)]
            is_path_between(p, ox, oy, cx, cy) && interior_clear(m, p);
        let prev = p[d - 1];
        lemma_path_distances(p, ox, oy, cx, cy, d - 1);
        let q = p.subrange(0, d);
        assert(q[0] == (ox, oy));
        assert(q[q.len() - 1] == prev);
        assert forall|i: int| #![trigger q[i]] 0 <= i < q.len() - 1 implies king_step(
            q[i].0,
            q[i].1,
            q[i + 1].0,
            q[i + 1].1,
        ) by {
            assert(q[i] == p[i]);
            assert(q[i + 1] == p[i + 1]);
        }
        assert(is_path_between(q, ox, oy, prev.0, prev.1));
        assert forall|i: int| #![trigger q[i]] 0 < i < q.len() - 1 implies m.is_transparent(q[i].0, q[i].1) by {
            assert(q[i] == p[i]);
        }
        assert(interior_clear(m, q));
        assert(line_of_sight(m, ox, oy, prev.0, prev.1));
        if d == 1 {
            assert(prev == p[0]);
            assert(prev.0 == ox && prev.1 == oy);
        } else {
            assert(0 < d - 1 < p.len() - 1);
            assert(m.is_transparent(prev.0, prev.1));
        }
        assert(king_step(p[d - 1].0, p[d - 1].1, p[d].0, p[d].1));
        assert(p[d] == (cx, cy));
        assert(fov_pred(m, ox, oy, d, cx, cy, prev.0, prev.1));
    }
    if exists|px: int, py: int|
        #![trigger fov_pred(m, ox, oy, d, cx, cy, px, py)]
        fov_pred(m, ox, oy, d, cx, cy, px, py) {
        let (px, py) = choose|px: int, py: int|
            #![trigger fov_pred(m, ox, oy, d, cx, cy, px, py)]
            fov_pred(m, ox, oy, d, cx, cy, px, py);
        let q = choose|q: Seq<(int, int)>|
            #![trigger is_path_between(q, ox, oy, px, py)]
            is_path_between(q, ox, oy, px, py) && interior_clear(m, q);
        let p = q.push((cx, cy));
        assert(p.len() == d + 1);
        assert(p[0] == q[0]);
        assert(p[p.len() - 1] == (cx, cy));
        assert forall|i: int| #![trigger p[i]] 0 <= i < p.len() - 1 implies king_step(
            p[i].0,
            p[i].1,
            p[i + 1].0,
            p[i + 1].1,
        ) by {
            if i < q.len() - 1 {
                assert(p[i] == q[i]);
                assert(p[i + 1] == q[i + 1]);
            } else {
                assert(p[i] == q[q.len() - 1]);
                assert(p[i] == (px, py));
                assert(p[i + 1] == (cx, cy));
            }
        }
        assert(is_path_between(p, ox, oy, cx, cy));
        assert forall|i: int| #![trigger p[i]] 0 < i < p.len() - 1 implies m.is_transparent(p[i].0, p[i].1) by {
            if i < q.len() - 1 {
                assert(p[i] == q[i]);
            } else {
                assert(p[i] == q[q.len() - 1]);
                assert(p[i] == (px, py));
                if px == ox && py == oy {
                    assert(cheb_dist(ox, oy, px, py) == 0);
                    assert(d == 1);
                    assert(false);
                }
            }
        }
        assert(interior_clear(m, p));
        assert(line_of_sight(m, ox, oy, cx, cy));
    }
}

/// At radius zero the field of view is exactly the origin.
pub proof fn lemma_fov_range_zero(m: GameMap, ox: int, oy: int)
    ensures
        forall|x: int, y: int| #[trigger] in_fov(m, ox, oy, 0, x, y) <==> (x == ox && y == oy),
{
    assert forall|x: int, y: int| #[trigger] in_fov(m, ox, oy, 0, x, y) <==> (x == ox && y == oy) by {
        if x == ox && y == oy {
            lemma_los_refl(m, ox, oy);
        }
    }
}

/// Field-of-view symmetry: two cells within range of each other see each
/// other or fail to, together.
pub proof fn lemma_fov_symmetric(m: GameMap, ax: int, ay: int, bx: int, yb: int, radius: int)
    ensures
        in_fov(m, ax, ay, radius, bx, yb) <==> in_fov(m, bx, yb, radius, ax, ay),
{
    lemma_los_symmetric(m, ax, ay, bx, yb);
}

/// Membership in a pushed sequence.
proof fn lemma_push_contains<A>(s: Seq<A>, v: A)
    ensures
        forall|q: A|
            #![trigger s.push(v).contains(q)]
            s.push(v).contains(q) <==> s.contains(q) || q == v,
{
    assert forall|q: A| #[trigger] s.push(v).contains(q) implies s.contains(q) || q == v by {
        let i = choose|i: int| 0 <= i < s.push(v).len() && s.push(v)[i] == q;
        if i < s.len() {
            assert(s[i] == q);
        }
    }
    assert forall|q: A| s.contains(q) || q == v implies #[trigger] s.push(v).contains(q) by {
        if s.contains(q) {
            let i = choose|i: int| 0 <= i < s.len() && s[i] == q;
            assert(s.push(v)[i] == q);
        } else {
            assert(s.push(v)[s.len() as int] == q);
        }
    }
}

/// The scratch-square index of a cell, rows of width `2 * radius + 1`.
pub open spec fn cell_idx(ox: int, oy: int, radius: int, x: int, y: int) -> int {
    (y - (oy - radius)) * (2 * radius + 1) + (x - (ox - radius))
}

proof fn lemma_grid_bound(a: int, b: int, n: int)
    by (nonlinear_arith)
    requires
        0 <= a < n,
        0 <= b < n,
        n <= 2001,
    ensures
        0 <= a * n + b < n * n,
        n * n <= 2001 * 2001,
{
}

proof fn lemma_grid_inj(a1: int, b1: int, a2: int, b2: int, n: int)
    by (nonlinear_arith)
    requires
        0 <= b1 < n,
        0 <= b2 < n,
        a1 * n + b1 == a2 * n + b2,
    ensures
        a1 == a2,
        b1 == b2,
{
}

/// Chebyshev distance, executable.
fn cheb_exec(ax: i32, ay: i32, bx: i32, yb: i32) -> (r: i32)
    requires
        -10000 <= ax <= 10000,
        -10000 <= ay <= 10000,
        -10000 <= bx <= 10000,
        -10000 <= yb <= 10000,
    ensures
        r == cheb_dist(ax as int, ay as int, bx as int, yb as int),
{
    let mut dx = ax - bx;
    if dx < 0 {
        dx = bx - ax;
    }
    let mut dy = ay - yb;
    if dy < 0 {
        dy = yb - ay;
    }
    if dx > dy {
        dx
    } else {
        dy
    }
}

/// Whether the cell is in bounds and transparent, executable.
fn transparent_at(map: &GameMap, x: i32, y: i32) -> (b: bool)
    requires
        map.wf(),
    ensures
        b == map.is_transparent(x as int, y as int),
{
    if x >= 0 && x < map.width && y >= 0 && y < map.height {
        let idx = map.xy_idx(x, y);
        map.tiles[idx] == TileType::Floor
    } else {
        false
    }
}

/// The set of cells visible from `start` within `radius`, under the
/// symmetric minimal-clear-path rule. Cells outside the grid can appear in
/// the result (as opaque edges); callers filter as they need.
pub fn field_of_view(start: Point, radius: i32, map: &GameMap) -> (r: Vec<Point>)
    requires
        map.wf(),
        0 <= start.x < 80,
        0 <= start.y < 50,
        0 <= radius <= 1000,
    ensures
        forall|p: Point|
            #![trigger r@.contains(p)]
            r@.contains(p) <==> in_fov(*map, start.x as int, start.y as int, radius as int, p.x as int, p.y as int),
{
    let ox = start.x;
    let oy = start.y;
    let n: usize = (2 * radius + 1) as usize;
    proof {
        lemma_grid_bound(0, 0, n as int);
    }
    let mut reach: Vec<bool> = filled_reach(n * n);
    proof {
        lemma_grid_bound(radius as int, radius as int, n as int);
    }
    reach.set((radius as usize) * n + (radius as usize), true);
    let mut out: Vec<Point> = Vec::new();
    out.push(start);
    proof {
        lemma_los_refl(*map, ox as int, oy as int);
        assert forall|x: int, y: int|
            cheb_dist(ox as int, oy as int, x, y) <= radius implies
            #[trigger] reach@[cell_idx(ox as int, oy as int, radius as int, x, y)] == (cheb_dist(
            ox as int, oy as int, x, y) < 1 && line_of_sight(*map, ox as int, oy as int, x, y)) by {
            lemma_grid_bound(y - (oy - radius), x - (ox - radius), n as int);
            if cell_idx(ox as int, oy as int, radius as int, x, y) == (radius as int) * (n as int)
                + radius as int {
                lemma_grid_inj(
                    y - (oy - radius),
                    x - (ox - radius),
                    radius as int,
                    radius as int,
                    n as int,
                );
            }
        }
        assert forall|p: Point| #[trigger] out@.contains(p) implies (cheb_dist(
            ox as int, oy as int, p.x as int, p.y as int) < 1 && line_of_sight(
            *map, ox as int, oy as int, p.x as int, p.y as int)) by {
            let i = choose|i: int| 0 <= i < out@.len() && out@[i] == p;
            assert(p == start);
        }
        assert forall|p: Point|
            cheb_dist(ox as int, oy as int, p.x as int, p.y as int) < 1 && line_of_sight(
            *map, ox as int, oy as int, p.x as int, p.y as int) implies #[trigger] out@.contains(p)
            by {
            assert(p.x == ox && p.y == oy);
            assert(p == start);
            assert(out@[0] == p);
        }
    }
    let mut d: i32 = 1;
    while d <= radius
        invariant
            map.wf(),
            0 <= ox < 80,
            0 <= oy < 50,
            0 <= radius <= 1000,
            1 <= d <= radius + 1,
            n == 2 * radius + 1,
            reach@.len() == n * n,
            forall|x: int, y: int|
                cheb_dist(ox as int, oy as int, x, y) <= radius
                    ==> #[trigger] reach@[cell_idx(ox as int, oy as int, radius as int, x, y)]
                    == (cheb_dist(ox as int, oy as int, x, y) < d && line_of_sight(
                    *map, ox as int, oy as int, x, y)),
            forall|p: Point|
                #![trigger out@.contains(p)]
                out@.contains(p) <==> (cheb_dist(ox as int, oy as int, p.x as int, p.y as int) < d
                    && line_of_sight(*map, ox as int, oy as int, p.x as int, p.y as int)),
        decreases radius + 1 - d,
    {
        let mut yy = oy - d;
        while yy <= oy + d
            invariant
                map.wf(),
                0 <= ox < 80,
                0 <= oy < 50,
                0 <= radius <= 1000,
                1 <= d <= radius,
                oy - d <= yy <= oy + d + 1,
                n == 2 * radius + 1,
                reach@.len() == n * n,
                forall|x: int, y: int|
                    cheb_dist(ox as int, oy as int, x, y) <= radius
                        ==> #[trigger] reach@[cell_idx(ox as int, oy as int, radius as int, x, y)]
                        == ((cheb_dist(ox as int, oy as int, x, y) < d || (cheb_dist(
                        ox as int, oy as int, x, y) == d && y < yy)) && line_of_sight(
                        *map, ox as int, oy as int, x, y)),
                forall|p: Point|
                    #![trigger out@.contains(p)]
                    out@.contains(p) <==> ((cheb_dist(ox as int, oy as int, p.x as int, p.y as int)
                        < d || (cheb_dist(ox as int, oy as int, p.x as int, p.y as int) == d
                        && p.y < yy)) && line_of_sight(
                        *map, ox as int, oy as int, p.x as int, p.y as int)),
            decreases oy + d + 1 - yy,
        {
            let mut xx = ox - d;
            while xx <= ox + d
                invariant
                    map.wf(),
                    0 <= ox < 80,
                    0 <= oy < 50,
                    0 <= radius <= 1000,
                    1 <= d <= radius,
                    oy - d <= yy <= oy + d,
                    ox - d <= xx <= ox + d + 1,
                    n == 2 * radius + 1,
                    reach@.len() == n * n,
                    forall|x: int, y: int|
                        cheb_dist(ox as int, oy as int, x, y) <= radius
                            ==> #[trigger] reach@[cell_idx(ox as int, oy as int, radius as int, x, y)]
                            == ((cheb_dist(ox as int, oy as int, x, y) < d || (cheb_dist(
                            ox as int, oy as int, x, y) == d && (y < yy || (y == yy && x < xx))))
                            && line_of_sight(*map, ox as int, oy as int, x, y)),
                    forall|p: Point|
                        #![trigger out@.contains(p)]
                        out@.contains(p) <==> ((cheb_dist(
                            ox as int, oy as int, p.x as int, p.y as int) < d || (cheb_dist(
                            ox as int, oy as int, p.x as int, p.y as int) == d && (p.y < yy || (
                        p.y == yy && p.x < xx)))) && line_of_sight(
                            *map, ox as int, oy as int, p.x as int, p.y as int)),
                decreases ox + d + 1 - xx,
            {
                let cd = cheb_exec(ox, oy, xx, yy);
                if cd == d {
                    let mut vis = false;
                    let mut ddy: i32 = -1;
                    while ddy <= 1
                        invariant
                            map.wf(),
                            0 <= ox < 80,
                            0 <= oy < 50,
                            0 <= radius <= 1000,
                            1 <= d <= radius,
                            oy - d <= yy <= oy + d,
                            ox - d <= xx <= ox + d,
                            cheb_dist(ox as int, oy as int, xx as int, yy as int) == d,
                            -1 <= ddy <= 2,
                            n == 2 * radius + 1,
                            reach@.len() == n * n,
                            forall|x: int, y: int|
                                cheb_dist(ox as int, oy as int, x, y) <= radius
                                    ==> #[trigger] reach@[cell_idx(
                                    ox as int, oy as int, radius as int, x, y)] == ((cheb_dist(
                                    ox as int, oy as int, x, y) < d || (cheb_dist(
                                    ox as int, oy as int, x, y) == d && (y < yy || (y == yy && x
                                    < xx)))) && line_of_sight(*map, ox as int, oy as int, x, y)),
                            vis ==> exists|px: int, py: int|
                                #![trigger fov_pred(*map, ox as int, oy as int, d as int, xx as int, yy as int, px, py)]
                                fov_pred(*map, ox as int, oy as int, d as int, xx as int, yy as int, px, py),
                            !vis ==> forall|px: int, py: int|
                                xx - 1 <= px <= xx + 1 && yy - 1 <= py <= yy + 1 && py - yy < ddy
                                    ==> !#[trigger] fov_pred(
                                    *map, ox as int, oy as int, d as int, xx as int, yy as int, px, py),
                        decreases 2 - ddy,
                    {
                        let mut ddx: i32 = -1;
                        while ddx <= 1
                            invariant
                                map.wf(),
                                0 <= ox < 80,
                                0 <= oy < 50,
                                0 <= radius <= 1000,
                                1 <= d <= radius,
                                oy - d <= yy <= oy + d,
                                ox - d <= xx <= ox + d,
                                cheb_dist(ox as int, oy as int, xx as int, yy as int) == d,
                                -1 <= ddy <= 1,
                                -1 <= ddx <= 2,
                                n == 2 * radius + 1,
                                reach@.len() == n * n,
                                forall|x: int, y: int|
                                    cheb_dist(ox as int, oy as int, x, y) <= radius
                                        ==> #[trigger] reach@[cell_idx(
                                        ox as int, oy as int, radius as int, x, y)] == ((cheb_dist(
                                        ox as int, oy as int, x, y) < d || (cheb_dist(
                                        ox as int, oy as int, x, y) == d && (y < yy || (y == yy
                                        && x < xx)))) && line_of_sight(
                                        *map, ox as int, oy as int, x, y)),
                                vis ==> exists|px: int, py: int|
                                    #![trigger fov_pred(*map, ox as int, oy as int, d as int, xx as int, yy as int, px, py)]
                                    fov_pred(*map, ox as int, oy as int, d as int, xx as int, yy as int, px, py),
                                !vis ==> forall|px: int, py: int|
                                    xx - 1 <= px <= xx + 1 && yy - 1 <= py <= yy + 1 && (py - yy
                                        < ddy || (py - yy == ddy && px - xx < ddx))
                                        ==> !#[trigger] fov_pred(
                                        *map, ox as int, oy as int, d as int, xx as int, yy as int, px, py),
                            decreases 2 - ddx,
                        {
                            if !(ddx == 0 && ddy == 0) {
                                let px = xx + ddx;
                                let py = yy + ddy;
                                let pcd = cheb_exec(ox, oy, px, py);
                                let mut here = false;
                                if pcd == d - 1 {
                                    proof {
                                        lemma_grid_bound(
                                            py - (oy - radius),
                                            px - (ox - radius),
                                            n as int,
                                        );
                                    }
                                    let pidx = ((py - (oy - radius)) as usize) * n + ((px - (ox
                                        - radius)) as usize);
                                    proof {
                                        assert(pidx == cell_idx(
                                            ox as int, oy as int, radius as int, px as int,
                                            py as int,
                                        ));
                                    }
                                    if reach[pidx] {
                                        if d == 1 || transparent_at(map, px, py) {
                                            here = true;
                                        }
                                    }
                                }
                                proof {
                                    if here {
                                        assert(king_step(px as int, py as int, xx as int, yy as int));
                                        assert(fov_pred(
                                            *map, ox as int, oy as int, d as int, xx as int,
                                            yy as int, px as int, py as int,
                                        ));
                                    } else {
                                        assert(!fov_pred(
                                            *map, ox as int, oy as int, d as int, xx as int,
                                            yy as int, px as int, py as int,
                                        ));
                                    }
                                }
                                if here {
                                    vis = true;
                                }
                            }
                            proof {
                                if !vis {
                                    assert forall|px: int, py: int|
                                        xx - 1 <= px <= xx + 1 && yy - 1 <= py <= yy + 1 && (py
                                            - yy < ddy || (py - yy == ddy && px - xx < ddx + 1))
                                        implies !#[trigger] fov_pred(
                                        *map, ox as int, oy as int, d as int, xx as int, yy as int,
                                        px, py) by {
                                        if ddx == 0 && ddy == 0 && px == xx && py == yy {
                                            assert(!king_step(px, py, xx as int, yy as int));
                                        }
                                    }
                                }
                            }
                            ddx += 1;
                        }
                        ddy += 1;
                    }
                    proof {
                        lemma_los_step(*map, ox as int, oy as int, xx as int, yy as int);
                        if !vis {
                            assert forall|px: int, py: int| !#[trigger] fov_pred(
                                *map, ox as int, oy as int, d as int, xx as int, yy as int, px, py,
                            ) by {
                                if fov_pred(
                                    *map, ox as int, oy as int, d as int, xx as int, yy as int, px,
                                    py,
                                ) {
                                    assert(king_step(px, py, xx as int, yy as int));
                                    assert(xx - 1 <= px <= xx + 1 && yy - 1 <= py <= yy + 1);
                                }
                            }
                        }
                        assert(vis == line_of_sight(*map, ox as int, oy as int, xx as int, yy as int));
                    }
                    let ghost pre_reach = reach@;
                    let ghost pre_out = out@;
                    if vis {
                        proof {
                            lemma_grid_bound(yy - (oy - radius), xx - (ox - radius), n as int);
                        }
                        let cidx = ((yy - (oy - radius)) as usize) * n + ((xx - (ox - radius))
                            as usize);
                        reach.set(cidx, true);
                        out.push(Point { x: xx, y: yy });
                        proof {
                            lemma_push_contains(pre_out, Point { x: xx, y: yy });
                        }
                    }
                    proof {
                        assert forall|x: int, y: int|
                            cheb_dist(ox as int, oy as int, x, y) <= radius implies
                            #[trigger] reach@[cell_idx(ox as int, oy as int, radius as int, x, y)]
                            == ((cheb_dist(ox as int, oy as int, x, y) < d || (cheb_dist(
                            ox as int, oy as int, x, y) == d && (y < yy || (y == yy && x < xx
                            + 1)))) && line_of_sight(*map, ox as int, oy as int, x, y)) by {
                            lemma_grid_bound(y - (oy - radius), x - (ox - radius), n as int);
                            if cell_idx(ox as int, oy as int, radius as int, x, y) == cell_idx(
                                ox as int, oy as int, radius as int, xx as int, yy as int) {
                                lemma_grid_inj(
                                    y - (oy - radius),
                                    x - (ox - radius),
                                    yy - (oy - radius),
                                    xx - (ox - radius),
                                    n as int,
                                );
                            } else {
                                assert(reach@[cell_idx(ox as int, oy as int, radius as int, x, y)]
                                    == pre_reach[cell_idx(ox as int, oy as int, radius as int, x, y)]);
                            }
                        }
                    }
                }
                xx += 1;
            }
            yy += 1;
        }
        d += 1;
    }
    out
}

/// A zeroed scratch vector for the reachability square.
fn filled_reach(n: usize) -> (v: Vec<bool>)
    ensures
        v@.len() == n,
        forall|i: int| 0 <= i < n ==> !v@[i],
{
    let mut v: Vec<bool> = Vec::new();
    let mut i: usize = 0;
    while i < n
        invariant
            i <= n,
            v@.len() == i,
            forall|k: int| 0 <= k < i ==> !v@[k],
        decreases n - i,
    {
        v.push(false);
        i += 1;
    }
    v
}

} // verus!
