use vstd::prelude::*;

use crate::components::{Key, Point, Position, Viewshed};
use crate::game_map::TileType;
use crate::geometry::{max_i, min_i};
use crate::state::{RunState, State};
use crate::world::World;

verus! {

/// How one movement attempt by `(dx, dy)` relates the world before and
/// after: stepping into a wall changes nothing; otherwise the player's
/// position moves, clamped to the grid, the player's viewshed is marked
/// dirty, and the player-position resource follows.
pub open spec fn try_move_rel(w1: World, w2: World, dx: int, dy: int) -> bool {
    let pid = w1.player_id();
    let p = w1.positions@[pid]->0;
    let tx = p.x + dx;
    let ty = p.y + dy;
    if w1.map.tile_at(tx, ty) == TileType::Wall {
        w2 == w1
    } else {
        let nx = min_i(79, max_i(0, tx));
        let ny = min_i(49, max_i(0, ty));
        &&& w2.positions@ == w1.positions@.update(
            pid,
            Some(Position { x: nx as i32, y: ny as i32 }),
        )
        &&& w2.viewsheds@.len() == w1.viewsheds@.len()
        &&& w2.viewsheds@[pid] is Some
        &&& w2.viewsheds@[pid]->0.range == w1.viewsheds@[pid]->0.range
        &&& w2.viewsheds@[pid]->0.visible_tiles@ == w1.viewsheds@[pid]->0.visible_tiles@
        &&& w2.viewsheds@[pid]->0.dirty
        &&& (forall|j: int|
            0 <= j < w1.viewsheds@.len() && j != pid ==> w2.viewsheds@[j] == w1.viewsheds@[j])
        &&& w2.player_pos == (Point { x: nx as i32, y: ny as i32 })
        &&& w2.renderables == w1.renderables
        &&& w2.players == w1.players
        &&& w2.monsters == w1.monsters
        &&& w2.names == w1.names
        &&& w2.map == w1.map
        &&& w2.log == w1.log
    }
}

/// A move into a wall is a pure no-op on the world state.
pub proof fn lemma_wall_move_is_noop(w1: World, w2: World, dx: int, dy: int)
    requires
        try_move_rel(w1, w2, dx, dy),
        w1.map.tile_at(
            w1.positions@[w1.player_id()]->0.x + dx,
            w1.positions@[w1.player_id()]->0.y + dy,
        ) == TileType::Wall,
    ensures
        w2 == w1,
{
}

/// A move clamps to the grid rather than wrapping: afterwards the player's
/// position still lies in the 80 x 50 grid.
pub proof fn lemma_move_stays_in_grid(w1: World, w2: World, dx: int, dy: int)
    requires
        w1.wf(),
        try_move_rel(w1, w2, dx, dy),
    ensures
        0 <= w2.positions@[w1.player_id()]->0.x <= 79,
        0 <= w2.positions@[w1.player_id()]->0.y <= 49,
{
    assert(w1.is_player(w1.player_id()));
    assert((w1.positions@[w1.player_id()]) is Some);
    assert(w1.map.in_bounds(
        w1.positions@[w1.player_id()]->0.x as int,
        w1.positions@[w1.player_id()]->0.y as int,
    ));
}

/// Copies a vector of points.
fn copy_points(v: &Vec<Point>) -> (r: Vec<Point>)
    ensures
        r@ == v@,
{
    let mut r: Vec<Point> = Vec::new();
    let mut k: usize = 0;
    while k < v.len()
        invariant
            k <= v@.len(),
            r@ == v@.subrange(0, k as int),
        decreases v@.len() - k,
    {
        r.push(v[k]);
        proof {
            assert(r@ =~= v@.subrange(0, k as int + 1));
        }
        k += 1;
    }
    proof {
        assert(r@ =~= v@);
    }
    r
}

/// Attempts to move the player one step; walls block, the grid clamps, and
/// a successful move marks the player's viewshed dirty and updates the
/// player-position resource.
pub fn try_move_player(delta_x: i32, delta_y: i32, ecs: &mut World)
    requires
        old(ecs).wf(),
        -1 <= delta_x <= 1,
        -1 <= delta_y <= 1,
    ensures
        final(ecs).wf(),
        try_move_rel(*old(ecs), *final(ecs), delta_x as int, delta_y as int),
{
    let ghost w1 = *ecs;
    proof {
        assert(w1.is_player(w1.player_id()));
    }
    let n = ecs.players.len();
    let mut i: usize = 0;
    let mut pi: usize = 0;
    let mut found = false;
    while i < n
        invariant
            w1.wf(),
            *ecs == w1,
            n == w1.players@.len(),
            n == w1.num_entities(),
            i <= n,
            found ==> pi < n && w1.is_player(pi as int),
            !found ==> forall|j: int| 0 <= j < i ==> !w1.is_player(j),
        decreases n - i,
    {
        if ecs.players[i] {
            found = true;
            pi = i;
        }
        i += 1;
    }
    proof {
        assert(found);
        assert(pi as int == w1.player_id());
    }
    let pos = ecs.positions[pi].unwrap();
    proof {
        assert(w1.map.tile_at(pos.x as int, pos.y as int) != TileType::Wall);
        assert(1 <= pos.x <= 78 && 1 <= pos.y <= 48) by {
            if pos.x == 0 || pos.x == 79 || pos.y == 0 || pos.y == 49 {
                assert(w1.map.tile_at(pos.x as int, pos.y as int) == TileType::Wall);
            }
        }
    }
    let tx = pos.x + delta_x;
    let ty = pos.y + delta_y;
    let dest_idx = ecs.map.xy_idx(tx, ty);
    if ecs.map.tiles[dest_idx] != TileType::Wall {
        let nx = if tx < 0 {
            0
        } else if tx > 79 {
            79
        } else {
            tx
        };
        let ny = if ty < 0 {
            0
        } else if ty > 49 {
            49
        } else {
            ty
        };
        ecs.positions.set(pi, Some(Position { x: nx, y: ny }));
        let mut vr: i32 = 0;
        let mut vtiles: Vec<Point> = Vec::new();
        match &ecs.viewsheds[pi] {
            Some(vs) => {
                vr = vs.range;
                vtiles = copy_points(&vs.visible_tiles);
            },
            None => {},
        }
        ecs.viewsheds.set(pi, Some(Viewshed { visible_tiles: vtiles, range: vr, dirty: true }));
        ecs.player_pos = Point { x: nx, y: ny };
        proof {
            assert forall|t: int| #[trigger] ecs.is_player(t) == w1.is_player(t) by {}
            assert(ecs.player_unique()) by {
                assert(ecs.is_player(w1.player_id()));
                assert forall|t1: int, t2: int|
                    ecs.is_player(t1) && ecs.is_player(t2) implies t1 == t2 by {
                    assert(w1.is_player(t1) && w1.is_player(t2));
                }
            }
            assert(ecs.player_id() == w1.player_id()) by {
                assert(ecs.is_player(w1.player_id()));
                assert(ecs.is_player(ecs.player_id()));
            }
            assert(ecs.wf()) by {
                assert(ecs.ranges_ok()) by {
                    assert forall|j: int|
                        0 <= j < ecs.num_entities() && (#[trigger] ecs.viewsheds@[j]) is Some
                        implies 0 <= ecs.viewsheds@[j]->0.range <= 1000 by {
                        assert(w1.viewsheds@[j] is Some);
                    }
                }
                assert(ecs.positions_in_bounds()) by {
                    assert forall|j: int|
                        0 <= j < ecs.num_entities() && (#[trigger] ecs.positions@[j]) is Some
                        implies ecs.map.in_bounds(
                        ecs.positions@[j]->0.x as int,
                        ecs.positions@[j]->0.y as int,
                    ) by {
                        if j != pi as int {
                            assert(w1.positions@[j] is Some);
                            assert(w1.map.in_bounds(
                                w1.positions@[j]->0.x as int,
                                w1.positions@[j]->0.y as int,
                            ));
                        }
                    }
                }
            }
            assert(try_move_rel(w1, *ecs, delta_x as int, delta_y as int));
        }
    }
}

/// Translates at most one key press into at most one single-step move.
/// Returns Running exactly when a direction key was processed.
pub fn player_input(gs: &mut State, key: Option<Key>) -> (r: RunState)
    requires
        old(gs).ecs.wf(),
    ensures
        final(gs).ecs.wf(),
        final(gs).runstate == old(gs).runstate,
        (key is None || key == Some(Key::Other)) ==> *final(gs) == *old(gs) && r
            == RunState::Paused,
        (key == Some(Key::A) || key == Some(Key::Left)) ==> try_move_rel(
            old(gs).ecs,
            final(gs).ecs,
            -1,
            0,
        ) && r == RunState::Running,
        (key == Some(Key::D) || key == Some(Key::Right)) ==> try_move_rel(
            old(gs).ecs,
            final(gs).ecs,
            1,
            0,
        ) && r == RunState::Running,
        (key == Some(Key::W) || key == Some(Key::Up)) ==> try_move_rel(
            old(gs).ecs,
            final(gs).ecs,
            0,
            -1,
        ) && r == RunState::Running,
        (key == Some(Key::S) || key == Some(Key::Down)) ==> try_move_rel(
            old(gs).ecs,
            final(gs).ecs,
            0,
            1,
        ) && r == RunState::Running,
    {
    match key {
        None => RunState::Paused,
        Some(k) => match k {
            Key::A | Key::Left => {
                try_move_player(-1, 0, &mut gs.ecs);
                RunState::Running
            },
            Key::D | Key::Right => {
                try_move_player(1, 0, &mut gs.ecs);
                RunState::Running
            },
            Key::W | Key::Up => {
                try_move_player(0, -1, &mut gs.ecs);
                RunState::Running
            },
            Key::S | Key::Down => {
                try_move_player(0, 1, &mut gs.ecs);
                RunState::Running
            },
            Key::Other => RunState::Paused,
        },
    }
}

} // verus!
