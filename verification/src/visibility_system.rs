use vstd::prelude::*;

use crate::components::{Point, Viewshed};
use crate::fov::{field_of_view, in_fov, interior_clear, is_path_between, line_of_sight};
use crate::game_map::{idx_of, room_ok, GameMap, TileType};
use crate::geometry::lemma_xy_idx_inj;
use crate::world::World;

verus! {

/// Line of sight depends only on the tiles and dimensions of a map, never on
/// its masks or room list.
pub proof fn lemma_los_same_tiles(m1: GameMap, m2: GameMap, ax: int, ay: int, bx: int, yb: int)
    requires
        m1.tiles == m2.tiles,
        m1.width == m2.width,
        m1.height == m2.height,
    ensures
        line_of_sight(m1, ax, ay, bx, yb) == line_of_sight(m2, ax, ay, bx, yb),
{
    if line_of_sight(m1, ax, ay, bx, yb) {
        let p = choose|p: Seq<(int, int)>|
            #![trigger is_path_between(p, ax, ay, bx, yb)]
            is_path_between(p, ax, ay, bx, yb) && interior_clear(m1, p);
        assert forall|i: int| #![trigger p[i]] 0 < i < p.len() - 1 implies m2.is_transparent(
            p[i].0,
            p[i].1,
        ) by {
            assert(m1.is_transparent(p[i].0, p[i].1));
        }
        assert(interior_clear(m2, p));
    }
    if line_of_sight(m2, ax, ay, bx, yb) {
        let p = choose|p: Seq<(int, int)>|
            #![trigger is_path_between(p, ax, ay, bx, yb)]
            is_path_between(p, ax, ay, bx, yb) && interior_clear(m2, p);
        assert forall|i: int| #![trigger p[i]] 0 < i < p.len() - 1 implies m1.is_transparent(
            p[i].0,
            p[i].1,
        ) by {
            assert(m2.is_transparent(p[i].0, p[i].1));
        }
        assert(interior_clear(m1, p));
    }
}

/// The refreshed viewshed caches exactly the in-bounds cells of the entity's
/// field of view, and is no longer dirty.
pub open spec fn viewshed_refreshed(
    m: GameMap,
    px: int,
    py: int,
    vs_old: Viewshed,
    vs_new: Viewshed,
) -> bool {
    &&& vs_new.range == vs_old.range
    &&& !vs_new.dirty
    &&& forall|q: Point|
        #![trigger vs_new.visible_tiles@.contains(q)]
        vs_new.visible_tiles@.contains(q) <==> (m.in_bounds(q.x as int, q.y as int) && in_fov(
            m,
            px,
            py,
            vs_old.range as int,
            q.x as int,
            q.y as int,
        ))
}

/// How one pass leaves entity `i`'s viewshed: refreshed if it was dirty and
/// the entity has a position, untouched otherwise.
pub open spec fn entity_vis_ok(w1: World, w2: World, i: int) -> bool {
    if w1.viewsheds@[i] is Some && w1.positions@[i] is Some {
        if w1.viewsheds@[i]->0.dirty {
            w2.viewsheds@[i] is Some && viewshed_refreshed(
                w1.map,
                w1.positions@[i]->0.x as int,
                w1.positions@[i]->0.y as int,
                w1.viewsheds@[i]->0,
                w2.viewsheds@[i]->0,
            )
        } else {
            w2.viewsheds@[i] == w1.viewsheds@[i]
        }
    } else {
        w2.viewsheds@[i] == w1.viewsheds@[i]
    }
}

/// The player entity's viewshed was marked dirty.
pub open spec fn player_was_dirty(w: World) -> bool {
    w.viewsheds@[w.player_id()] is Some && w.viewsheds@[w.player_id()]->0.dirty
}

/// How a pass over the first `upto` entities leaves the global masks: if the
/// player was among them and dirty, the masks mirror the player's field of
/// view; otherwise they are untouched.
pub open spec fn masks_after(w1: World, w2: World, upto: int) -> bool {
    if 0 <= w1.player_id() < upto && player_was_dirty(w1) {
        let px = w1.positions@[w1.player_id()]->0.x as int;
        let py = w1.positions@[w1.player_id()]->0.y as int;
        let r = w1.viewsheds@[w1.player_id()]->0.range as int;
        &&& w2.map.visible_tiles@.len() == 4000
        &&& w2.map.revealed_tiles@.len() == 4000
        &&& forall|x: int, y: int|
            0 <= x < 80 && 0 <= y < 50 ==> #[trigger] w2.map.visible_tiles@[idx_of(x, y)]
                == in_fov(w1.map, px, py, r, x, y)
        &&& forall|x: int, y: int|
            0 <= x < 80 && 0 <= y < 50 ==> #[trigger] w2.map.revealed_tiles@[idx_of(x, y)] == (
            w1.map.revealed_tiles@[idx_of(x, y)] || in_fov(w1.map, px, py, r, x, y))
    } else {
        &&& w2.map.visible_tiles == w1.map.visible_tiles
        &&& w2.map.revealed_tiles == w1.map.revealed_tiles
    }
}

/// How one whole pass of the visibility system leaves the global masks.
pub open spec fn masks_updated(w1: World, w2: World) -> bool {
    masks_after(w1, w2, w1.num_entities())
}

/// No viewshed of an entity that also has a position is dirty.
pub open spec fn all_clean(w: World) -> bool {
    forall|i: int|
        0 <= i < w.num_entities() && (#[trigger] w.viewsheds@[i]) is Some && w.positions@[i] is Some
            ==> !w.viewsheds@[i]->0.dirty
}

/// Everything one pass of the visibility system guarantees, as a relation
/// between the world before and after.
pub open spec fn vis_run_rel(w1: World, w2: World) -> bool {
    &&& (forall|i: int| 0 <= i < w1.num_entities() ==> #[trigger] entity_vis_ok(w1, w2, i))
    &&& masks_updated(w1, w2)
    &&& all_clean(w2)
    &&& (all_clean(w1) ==> w2 == w1)
}

/// Running the visibility system twice in succession with no intervening
/// state change is a no-op after the first pass: the first pass leaves every
/// joined viewshed clean, and a pass over a clean world changes nothing.
pub proof fn lemma_visibility_idempotent(w1: World, w2: World, w3: World)
    requires
        vis_run_rel(w1, w2),
        vis_run_rel(w2, w3),
    ensures
        w3 == w2,
{
}

/// Every in-bounds flat index decomposes into a unique cell.
proof fn lemma_flat_decompose(i: int)
    requires
        0 <= i < 4000,
    ensures
        exists|x: int, y: int|
            #![trigger idx_of(x, y)]
            0 <= x < 80 && 0 <= y < 50 && i == idx_of(x, y),
{
    assert(0 <= i % 80 < 80);
    assert(0 <= i / 80 < 50);
    assert(i == idx_of(i % 80, i / 80));
}

/// Refreshes each dirty viewshed from the map; when the player's viewshed is
/// refreshed, projects it into the map's revealed and visible masks.
pub struct VisibilitySystem {}

impl VisibilitySystem {
    pub fn run(&mut self, ecs: &mut World)
        requires
            old(ecs).wf(),
        ensures
            final(ecs).wf(),
            final(ecs).positions == old(ecs).positions,
            final(ecs).renderables == old(ecs).renderables,
            final(ecs).players == old(ecs).players,
            final(ecs).monsters == old(ecs).monsters,
            final(ecs).names == old(ecs).names,
            final(ecs).player_pos == old(ecs).player_pos,
            final(ecs).log == old(ecs).log,
            final(ecs).map.width == old(ecs).map.width,
            final(ecs).map.height == old(ecs).map.height,
            final(ecs).map.tiles == old(ecs).map.tiles,
            final(ecs).map.rooms == old(ecs).map.rooms,
            final(ecs).viewsheds@.len() == old(ecs).viewsheds@.len(),
            forall|i: int|
                0 <= i < old(ecs).num_entities() ==> #[trigger] entity_vis_ok(
                    *old(ecs),
                    *final(ecs),
                    i,
                ),
            masks_updated(*old(ecs), *final(ecs)),
            all_clean(*final(ecs)),
            all_clean(*old(ecs)) ==> *final(ecs) == *old(ecs),
            vis_run_rel(*old(ecs), *final(ecs)),
    {
        let ghost w1 = *ecs;
        let n = ecs.viewsheds.len();
        proof {
            assert(w1.is_player(w1.player_id()));
        }
        let mut i: usize = 0;
        while i < n
            invariant
                w1.wf(),
                n == w1.viewsheds@.len(),
                n == w1.num_entities(),
                i <= n,
                ecs.positions == w1.positions,
                ecs.renderables == w1.renderables,
                ecs.players == w1.players,
                ecs.monsters == w1.monsters,
                ecs.names == w1.names,
                ecs.player_pos == w1.player_pos,
                ecs.log == w1.log,
                ecs.map.width == w1.map.width,
                ecs.map.height == w1.map.height,
                ecs.map.tiles == w1.map.tiles,
                ecs.map.rooms == w1.map.rooms,
                ecs.map.wf(),
                ecs.viewsheds@.len() == n,
                forall|j: int| 0 <= j < i ==> #[trigger] entity_vis_ok(w1, *ecs, j),
                forall|j: int| i <= j < n ==> ecs.viewsheds@[j] == w1.viewsheds@[j],
                masks_after(w1, *ecs, i as int),
                all_clean(w1) ==> *ecs == w1,
            decreases n - i,
        {
            let mut joined = false;
            let mut dirty = false;
            let mut range: i32 = 0;
            let mut px: i32 = 0;
            let mut py: i32 = 0;
            match (&ecs.viewsheds[i], &ecs.positions[i]) {
                (Some(vs), Some(pos)) => {
                    joined = true;
                    dirty = vs.dirty;
                    range = vs.range;
                    px = pos.x;
                    py = pos.y;
                },
                _ => {},
            }
            if joined && dirty {
                let ghost pre = *ecs;
                let fov_raw = field_of_view(Point { x: px, y: py }, range, &ecs.map);
                // keep only the in-bounds cells
                let mut filtered: Vec<Point> = Vec::new();
                let mut k: usize = 0;
                while k < fov_raw.len()
                    invariant
                        ecs.map.wf(),
                        k <= fov_raw@.len(),
                        forall|q: Point|
                            #![trigger filtered@.contains(q)]
                            filtered@.contains(q) <==> (ecs.map.in_bounds(q.x as int, q.y as int)
                                && (exists|u: int|
                                0 <= u < k && #[trigger] fov_raw@[u] == q)),
                    decreases fov_raw@.len() - k,
                {
                    let ghost pre_f = filtered@;
                    let p = fov_raw[k];
                    if p.x >= 0 && p.x < ecs.map.width && p.y >= 0 && p.y < ecs.map.height {
                        filtered.push(p);
                    }
                    proof {
                        assert forall|q: Point| #[trigger] filtered@.contains(q) implies (
                        ecs.map.in_bounds(q.x as int, q.y as int) && (exists|u: int|
                            0 <= u < k + 1 && #[trigger] fov_raw@[u] == q)) by {
                            if pre_f.contains(q) {
                                let u = choose|u: int| 0 <= u < k && fov_raw@[u] == q;
                                assert(fov_raw@[u] == q);
                            } else {
                                let w = choose|w: int|
                                    0 <= w < filtered@.len() && filtered@[w] == q;
                                assert(filtered@[filtered@.len() - 1] == p);
                                assert(q == p);
                                assert(fov_raw@[k as int] == q);
                            }
                        }
                        assert forall|q: Point|
                            ecs.map.in_bounds(q.x as int, q.y as int) && (exists|u: int|
                                0 <= u < k + 1 && #[trigger] fov_raw@[u] == q) implies #[trigger] filtered@.contains(
                            q) by {
                            let u = choose|u: int| 0 <= u < k + 1 && fov_raw@[u] == q;
                            if u < k {
                                assert(pre_f.contains(q));
                                let w = choose|w: int| 0 <= w < pre_f.len() && pre_f[w] == q;
                                assert(filtered@[w] == q);
                            } else {
                                assert(q == p);
                                assert(filtered@[filtered@.len() - 1] == q);
                            }
                        }
                    }
                    k += 1;
                }
                proof {
                    assert forall|q: Point| #[trigger] filtered@.contains(q) <==> (
                    w1.map.in_bounds(q.x as int, q.y as int) && in_fov(
                        w1.map,
                        px as int,
                        py as int,
                        range as int,
                        q.x as int,
                        q.y as int,
                    )) by {
                        lemma_los_same_tiles(
                            ecs.map,
                            w1.map,
                            px as int,
                            py as int,
                            q.x as int,
                            q.y as int,
                        );
                        if fov_raw@.contains(q) {
                        }
                    }
                }
                if ecs.players[i] {
                    proof {
                        assert(w1.is_player(i as int));
                        assert(i as int == w1.player_id());
                    }
                    // project the player's view into the global masks:
                    // clear the visible mask, then mark every cached cell
                    let ghost base_rev = ecs.map.revealed_tiles@;
                    let mut t: usize = 0;
                    let total = ecs.map.visible_tiles.len();
                    while t < total
                        invariant
                            ecs.positions == w1.positions,
                            ecs.renderables == w1.renderables,
                            ecs.players == w1.players,
                            ecs.monsters == w1.monsters,
                            ecs.names == w1.names,
                            ecs.player_pos == w1.player_pos,
                            ecs.log == w1.log,
                            ecs.viewsheds == pre.viewsheds,
                            total == ecs.map.visible_tiles@.len(),
                            t <= total,
                            ecs.map.wf(),
                            ecs.map.width == w1.map.width,
                            ecs.map.height == w1.map.height,
                            ecs.map.tiles == w1.map.tiles,
                            ecs.map.rooms == w1.map.rooms,
                            ecs.map.revealed_tiles@ == base_rev,
                            forall|u: int| 0 <= u < t ==> !(#[trigger] ecs.map.visible_tiles@[u]),
                        decreases total - t,
                    {
                        let ghost mpre = ecs.map;
                        ecs.map.visible_tiles.set(t, false);
                        proof {
                            assert(ecs.map.masks_ok()) by {
                                assert forall|c: int|
                                    0 <= c < 4000 && #[trigger] ecs.map.visible_tiles@[c]
                                    implies ecs.map.revealed_tiles@[c] by {
                                    assert(mpre.visible_tiles@[c]);
                                }
                            }
                            assert(ecs.map.border_walls()) by {
                                assert forall|bx: int, yb: int|
                                    ecs.map.in_bounds(bx, yb) && (bx == 0 || bx == 79 || yb == 0
                                        || yb == 49) implies #[trigger] ecs.map.tile_at(bx, yb)
                                    == TileType::Wall by {
                                    assert(mpre.tile_at(bx, yb) == TileType::Wall);
                                }
                            }
                            assert(ecs.map.rooms_wf()) by {
                                assert forall|k: int| 0 <= k < ecs.map.rooms@.len() implies room_ok(
                                    #[trigger] ecs.map.rooms@[k]) by {
                                    assert(room_ok(mpre.rooms@[k]));
                                }
                            }
                        }
                        t += 1;
                    }
                    let mut s: usize = 0;
                    while s < filtered.len()
                        invariant
                            ecs.positions == w1.positions,
                            ecs.renderables == w1.renderables,
                            ecs.players == w1.players,
                            ecs.monsters == w1.monsters,
                            ecs.names == w1.names,
                            ecs.player_pos == w1.player_pos,
                            ecs.log == w1.log,
                            ecs.viewsheds == pre.viewsheds,
                            s <= filtered@.len(),
                            ecs.map.wf(),
                            ecs.map.width == w1.map.width,
                            ecs.map.height == w1.map.height,
                            ecs.map.tiles == w1.map.tiles,
                            ecs.map.rooms == w1.map.rooms,
                            ecs.map.visible_tiles@.len() == 4000,
                            ecs.map.revealed_tiles@.len() == 4000,
                            base_rev.len() == 4000,
                            forall|q: Point|
                                #![trigger filtered@.contains(q)]
                                filtered@.contains(q) <==> (w1.map.in_bounds(
                                    q.x as int,
                                    q.y as int,
                                ) && in_fov(
                                    w1.map,
                                    px as int,
                                    py as int,
                                    range as int,
                                    q.x as int,
                                    q.y as int,
                                )),
                            forall|x: int, y: int|
                                0 <= x < 80 && 0 <= y < 50
                                    ==> #[trigger] ecs.map.visible_tiles@[idx_of(x, y)] == (
                                exists|u: int|
                                    0 <= u < s && (#[trigger] filtered@[u]).x == x && filtered@[u].y
                                        == y),
                            forall|x: int, y: int|
                                0 <= x < 80 && 0 <= y < 50
                                    ==> #[trigger] ecs.map.revealed_tiles@[idx_of(x, y)] == (
                                base_rev[idx_of(x, y)] || (exists|u: int|
                                    0 <= u < s && (#[trigger] filtered@[u]).x == x && filtered@[u].y
                                        == y)),
                        decreases filtered@.len() - s,
                    {
                        let ghost pre_vis = ecs.map.visible_tiles@;
                        let ghost pre_rev = ecs.map.revealed_tiles@;
                        let p = filtered[s];
                        proof {
                            assert(filtered@.contains(filtered@[s as int]));
                        }
                        let ghost mpre2 = ecs.map;
                        let idx = ecs.map.xy_idx(p.x, p.y);
                        ecs.map.revealed_tiles.set(idx, true);
                        ecs.map.visible_tiles.set(idx, true);
                        proof {
                            assert forall|x: int, y: int| 0 <= x < 80 && 0 <= y < 50 implies
                                #[trigger] ecs.map.visible_tiles@[idx_of(x, y)] == (exists|u: int|
                                0 <= u < s + 1 && (#[trigger] filtered@[u]).x == x
                                    && filtered@[u].y == y) by {
                                if idx_of(x, y) == idx {
                                    lemma_xy_idx_inj(x, y, p.x as int, p.y as int);
                                    assert(filtered@[s as int].x == x && filtered@[s as int].y
                                        == y);
                                } else {
                                    assert(ecs.map.visible_tiles@[idx_of(x, y)] == pre_vis[idx_of(
                                        x,
                                        y,
                                    )]);
                                    if exists|u: int|
                                        0 <= u < s + 1 && (#[trigger] filtered@[u]).x == x
                                            && filtered@[u].y == y {
                                        let u = choose|u: int|
                                            0 <= u < s + 1 && (#[trigger] filtered@[u]).x == x
                                                && filtered@[u].y == y;
                                        assert(u < s);
                                    }
                                }
                            }
                            assert forall|x: int, y: int| 0 <= x < 80 && 0 <= y < 50 implies
                                #[trigger] ecs.map.revealed_tiles@[idx_of(x, y)] == (base_rev[
                            idx_of(x, y)] || (exists|u: int|
                                0 <= u < s + 1 && (#[trigger] filtered@[u]).x == x
                                    && filtered@[u].y == y)) by {
                                if idx_of(x, y) == idx {
                                    lemma_xy_idx_inj(x, y, p.x as int, p.y as int);
                                    assert(filtered@[s as int].x == x && filtered@[s as int].y
                                        == y);
                                } else {
                                    assert(ecs.map.revealed_tiles@[idx_of(x, y)] == pre_rev[idx_of(
                                        x,
                                        y,
                                    )]);
                                    if exists|u: int|
                                        0 <= u < s + 1 && (#[trigger] filtered@[u]).x == x
                                            && filtered@[u].y == y {
                                        let u = choose|u: int|
                                            0 <= u < s + 1 && (#[trigger] filtered@[u]).x == x
                                                && filtered@[u].y == y;
                                        assert(u < s);
                                    }
                                }
                            }
                        }
                        proof {
                            assert(ecs.map.masks_ok()) by {
                                assert forall|c: int|
                                    0 <= c < 4000 && #[trigger] ecs.map.visible_tiles@[c]
                                    implies ecs.map.revealed_tiles@[c] by {
                                    if c != idx {
                                        assert(ecs.map.visible_tiles@[c] == pre_vis[c]);
                                        assert(ecs.map.revealed_tiles@[c] == pre_rev[c]);
                                        assert(mpre2.visible_tiles@[c]);
                                    }
                                }
                            }
                            assert(ecs.map.border_walls()) by {
                                assert forall|bx: int, yb: int|
                                    ecs.map.in_bounds(bx, yb) && (bx == 0 || bx == 79 || yb == 0
                                        || yb == 49) implies #[trigger] ecs.map.tile_at(bx, yb)
                                    == TileType::Wall by {
                                    assert(mpre2.tile_at(bx, yb) == TileType::Wall);
                                }
                            }
                            assert(ecs.map.rooms_wf()) by {
                                assert forall|k: int| 0 <= k < ecs.map.rooms@.len() implies room_ok(
                                    #[trigger] ecs.map.rooms@[k]) by {
                                    assert(room_ok(mpre2.rooms@[k]));
                                }
                            }
                        }
                        s += 1;
                    }
                    proof {
                        assert forall|x: int, y: int| 0 <= x < 80 && 0 <= y < 50 implies
                            #[trigger] ecs.map.visible_tiles@[idx_of(x, y)] == in_fov(
                            w1.map,
                            px as int,
                            py as int,
                            range as int,
                            x,
                            y,
                        ) by {
                            if exists|u: int|
                                0 <= u < filtered@.len() && (#[trigger] filtered@[u]).x == x
                                    && filtered@[u].y == y {
                                let u = choose|u: int|
                                    0 <= u < filtered@.len() && (#[trigger] filtered@[u]).x == x
                                        && filtered@[u].y == y;
                                assert(filtered@[u] == (Point { x: x as i32, y: y as i32 }));
                                assert(filtered@.contains(Point { x: x as i32, y: y as i32 }));
                            } else {
                                if in_fov(w1.map, px as int, py as int, range as int, x, y) {
                                    assert(filtered@.contains(Point { x: x as i32, y: y as i32 }));
                                    let u = choose|u: int|
                                        0 <= u < filtered@.len() && filtered@[u] == (Point {
                                            x: x as i32,
                                            y: y as i32,
                                        });
                                    assert(filtered@[u].x == x && filtered@[u].y == y);
                                }
                            }
                        }
                        assert forall|x: int, y: int| 0 <= x < 80 && 0 <= y < 50 implies
                            #[trigger] ecs.map.revealed_tiles@[idx_of(x, y)] == (
                        w1.map.revealed_tiles@[idx_of(x, y)] || in_fov(
                            w1.map,
                            px as int,
                            py as int,
                            range as int,
                            x,
                            y,
                        )) by {
                            if exists|u: int|
                                0 <= u < filtered@.len() && (#[trigger] filtered@[u]).x == x
                                    && filtered@[u].y == y {
                                let u = choose|u: int|
                                    0 <= u < filtered@.len() && (#[trigger] filtered@[u]).x == x
                                        && filtered@[u].y == y;
                                assert(filtered@[u] == (Point { x: x as i32, y: y as i32 }));
                                assert(filtered@.contains(Point { x: x as i32, y: y as i32 }));
                            } else {
                                if in_fov(w1.map, px as int, py as int, range as int, x, y) {
                                    assert(filtered@.contains(Point { x: x as i32, y: y as i32 }));
                                    let u = choose|u: int|
                                        0 <= u < filtered@.len() && filtered@[u] == (Point {
                                            x: x as i32,
                                            y: y as i32,
                                        });
                                    assert(filtered@[u].x == x && filtered@[u].y == y);
                                }
                            }
                        }
                        assert(ecs.map.masks_ok()) by {
                            assert forall|c: int| 0 <= c < 4000 && #[trigger] ecs.map.visible_tiles@[c]
                                implies ecs.map.revealed_tiles@[c] by {
                                lemma_flat_decompose(c);
                                let (x, y) = choose|x: int, y: int|
                                    #![trigger idx_of(x, y)]
                                    0 <= x < 80 && 0 <= y < 50 && c == idx_of(x, y);
                                assert(ecs.map.visible_tiles@[idx_of(x, y)]);
                            }
                        }
                    }
                }
                ecs.viewsheds.set(
                    i,
                    Some(Viewshed { visible_tiles: filtered, range, dirty: false }),
                );
                proof {
                    assert(viewshed_refreshed(
                        w1.map,
                        px as int,
                        py as int,
                        w1.viewsheds@[i as int]->0,
                        ecs.viewsheds@[i as int]->0,
                    ));
                    assert(entity_vis_ok(w1, *ecs, i as int));
                    assert forall|j: int| 0 <= j < i + 1 implies #[trigger] entity_vis_ok(
                        w1,
                        *ecs,
                        j,
                    ) by {
                        if j < i {
                            assert(entity_vis_ok(w1, pre, j));
                        }
                    }
                    assert(!all_clean(w1));
                }
            }
            i += 1;
        }
        proof {
            assert(masks_updated(w1, *ecs));
            assert(all_clean(*ecs)) by {
                assert forall|j: int|
                    0 <= j < ecs.num_entities() && (#[trigger] ecs.viewsheds@[j]) is Some
                        && ecs.positions@[j] is Some implies !ecs.viewsheds@[j]->0.dirty by {
                    assert(entity_vis_ok(w1, *ecs, j));
                }
            }
            assert forall|t: int| #[trigger] ecs.is_player(t) == w1.is_player(t) by {}
            assert(ecs.player_unique()) by {
                assert(ecs.is_player(w1.player_id()));
                assert forall|t1: int, t2: int|
                    ecs.is_player(t1) && ecs.is_player(t2) implies t1 == t2 by {
                    assert(w1.is_player(t1) && w1.is_player(t2));
                }
            }
            assert(ecs.player_id() == w1.player_id()) by {
                assert(ecs.is_player(w1.player_id()));
                assert(ecs.is_player(ecs.player_id()));
            }
            let ghost pid = w1.player_id();
            assert(ecs.wf()) by {
                assert(entity_vis_ok(w1, *ecs, pid));
                assert(ecs.viewsheds@[pid] is Some);
                assert(ecs.ranges_ok()) by {
                    assert forall|j: int|
                        0 <= j < ecs.num_entities() && (#[trigger] ecs.viewsheds@[j]) is Some
                        implies 0 <= ecs.viewsheds@[j]->0.range <= 1000 by {
                        assert(entity_vis_ok(w1, *ecs, j));
                        assert(w1.viewsheds@[j] is Some ==> 0 <= w1.viewsheds@[j]->0.range
                            <= 1000);
                    }
                }
                assert(ecs.positions_in_bounds()) by {
                    assert forall|j: int|
                        0 <= j < ecs.num_entities() && (#[trigger] ecs.positions@[j]) is Some
                        implies ecs.map.in_bounds(
                        ecs.positions@[j]->0.x as int,
                        ecs.positions@[j]->0.y as int,
                    ) by {
                        assert(w1.positions@[j] is Some);
                        assert(w1.map.in_bounds(
                            w1.positions@[j]->0.x as int,
                            w1.positions@[j]->0.y as int,
                        ));
                    }
                }
            }
        }
    }
}

} // verus!
