use vstd::prelude::*;

use crate::components::{Color, Name, Point, Position, Renderable, Viewshed};
use crate::game_map::{room_ok, GameMap, TileType};
use crate::rng;
use crate::state::{RunState, State};
use crate::world::World;
use vstd::string::StringExecFns;

verus! {

/// Builds the initial game state from a seed: a generated map, the player in
/// the first room's center with a dirty viewshed of range 8, and one monster
/// in the center of every other room.
pub fn init_state(seed: u64) -> (s: State)
    ensures
        s.ecs.wf(),
        s.runstate == RunState::Running,
        s.ecs.num_entities() == s.ecs.map.rooms@.len(),
        1 <= s.ecs.map.rooms@.len() <= 30,
        s.ecs.map.rooms_disjoint(),
        s.ecs.map.rooms_carved(),
        s.ecs.player_id() == 0,
        s.ecs.players@[0],
        s.ecs.positions@[0] is Some,
        s.ecs.positions@[0]->0.x == s.ecs.map.rooms@[0].spec_center().0,
        s.ecs.positions@[0]->0.y == s.ecs.map.rooms@[0].spec_center().1,
        s.ecs.player_pos.x == s.ecs.map.rooms@[0].spec_center().0,
        s.ecs.player_pos.y == s.ecs.map.rooms@[0].spec_center().1,
        s.ecs.viewsheds@[0] is Some,
        s.ecs.viewsheds@[0]->0.range == 8,
        s.ecs.viewsheds@[0]->0.dirty,
        s.ecs.viewsheds@[0]->0.visible_tiles@.len() == 0,
        forall|k: int|
            1 <= k < s.ecs.num_entities() ==> {
                &&& !s.ecs.players@[k]
                &&& s.ecs.monsters@[k]
                &&& (#[trigger] s.ecs.positions@[k]) is Some
                &&& s.ecs.positions@[k]->0.x == s.ecs.map.rooms@[k].spec_center().0
                &&& s.ecs.positions@[k]->0.y == s.ecs.map.rooms@[k].spec_center().1
                &&& s.ecs.viewsheds@[k] is Some
                &&& s.ecs.viewsheds@[k]->0.range == 8
                &&& s.ecs.viewsheds@[k]->0.dirty
                &&& s.ecs.names@[k] is Some
                &&& s.ecs.renderables@[k] is Some
            },
        !s.ecs.monsters@[0],
        s.ecs.log@.len() == 0,
{
    let mut rng_src = rng::rng_seeded(seed);
    let map = GameMap::new_map_with(&mut rng_src);
    proof {
        assert(room_ok(map.rooms@[0]));
    }
    let first = map.rooms[0];
    let (px, py) = first.center();
    proof {
        assert(map.rooms@[0].interior_contains(px as int, py as int));
        assert(map.tile_at(px as int, py as int) == TileType::Floor);
    }
    let rooms_len = map.rooms.len();
    let mut w = World {
        positions: Vec::new(),
        renderables: Vec::new(),
        players: Vec::new(),
        monsters: Vec::new(),
        names: Vec::new(),
        viewsheds: Vec::new(),
        map,
        player_pos: Point { x: px, y: py },
        log: Vec::new(),
    };
    w.positions.push(Some(Position { x: px, y: py }));
    w.renderables.push(
        Some(
            Renderable {
                glyph: 2,
                fg: Color { r: 255, g: 255, b: 0 },
                bg: Color { r: 0, g: 0, b: 0 },
            },
        ),
    );
    w.players.push(true);
    w.monsters.push(false);
    w.names.push(Some(Name { name: String::from_str("Venturer") }));
    w.viewsheds.push(Some(Viewshed { visible_tiles: Vec::new(), range: 8, dirty: true }));
    let mut k: usize = 1;
    while k < rooms_len
        invariant
            w.map.wf(),
            w.map.rooms_disjoint(),
            w.map.rooms_carved(),
            rooms_len == w.map.rooms@.len(),
            1 <= rooms_len <= 30,
            1 <= k <= rooms_len,
            w.positions@.len() == k,
            w.renderables@.len() == k,
            w.players@.len() == k,
            w.monsters@.len() == k,
            w.names@.len() == k,
            w.viewsheds@.len() == k,
            w.players@[0],
            !w.monsters@[0],
            w.positions@[0] is Some,
            w.positions@[0]->0.x == w.map.rooms@[0].spec_center().0,
            w.positions@[0]->0.y == w.map.rooms@[0].spec_center().1,
            w.positions@[0]->0.x == px,
            w.positions@[0]->0.y == py,
            w.player_pos.x == px,
            w.player_pos.y == py,
            w.map.tile_at(px as int, py as int) == TileType::Floor,
            w.viewsheds@[0] is Some,
            w.viewsheds@[0]->0.range == 8,
            w.viewsheds@[0]->0.dirty,
            w.viewsheds@[0]->0.visible_tiles@.len() == 0,
            w.names@[0] is Some,
            w.renderables@[0] is Some,
            forall|j: int|
                1 <= j < k ==> {
                    &&& !w.players@[j]
                    &&& w.monsters@[j]
                    &&& (#[trigger] w.positions@[j]) is Some
                    &&& w.positions@[j]->0.x == w.map.rooms@[j].spec_center().0
                    &&& w.positions@[j]->0.y == w.map.rooms@[j].spec_center().1
                    &&& w.viewsheds@[j] is Some
                    &&& w.viewsheds@[j]->0.range == 8
                    &&& w.viewsheds@[j]->0.dirty
                    &&& w.names@[j] is Some
                    &&& w.renderables@[j] is Some
                },
            forall|j: int|
                0 <= j < k && (#[trigger] w.positions@[j]) is Some ==> w.map.in_bounds(
                    w.positions@[j]->0.x as int,
                    w.positions@[j]->0.y as int,
                ),
            w.log@.len() == 0,
        decreases rooms_len - k,
    {
        proof {
            assert(room_ok(w.map.rooms@[k as int]));
        }
        let room = w.map.rooms[k];
        let (mx, my) = room.center();
        let roll = rng::rng_range(&mut rng_src, 0, 4);
        let mut glyph: u16 = 66;
        let mut fg = Color { r: 100, g: 149, b: 237 };
        let mut base = String::from_str("Bard");
        if roll == 1 {
            glyph = 103;
            fg = Color { r: 144, g: 238, b: 144 };
            base = String::from_str("goblin");
        } else if roll == 2 {
            glyph = 111;
            fg = Color { r: 0, g: 100, b: 0 };
            base = String::from_str("orc");
        } else if roll == 3 {
            glyph = 115;
            fg = Color { r: 0, g: 128, b: 0 };
            base = String::from_str("snake");
        }
        let index_text = (k - 1).to_string();
        base.append(" #");
        base.append(index_text.as_str());
        w.positions.push(Some(Position { x: mx, y: my }));
        w.renderables.push(Some(Renderable { glyph, fg, bg: Color { r: 0, g: 0, b: 0 } }));
        w.players.push(false);
        w.monsters.push(true);
        w.names.push(Some(Name { name: base }));
        w.viewsheds.push(Some(Viewshed { visible_tiles: Vec::new(), range: 8, dirty: true }));
        k += 1;
    }
    proof {
        assert(w.is_player(0));
        assert(w.player_unique()) by {
            assert forall|t1: int, t2: int|
                w.is_player(t1) && w.is_player(t2) implies t1 == t2 by {
                if t1 != 0 {
                    assert((w.positions@[t1]) is Some);
                    assert(!w.players@[t1]);
                }
                if t2 != 0 {
                    assert((w.positions@[t2]) is Some);
                    assert(!w.players@[t2]);
                }
            }
        }
        assert(w.player_id() == 0) by {
            assert(w.is_player(w.player_id()));
            if w.player_id() != 0 {
                assert((w.positions@[w.player_id()]) is Some);
                assert(!w.players@[w.player_id()]);
            }
        }
        assert(w.ranges_ok()) by {
            assert forall|j: int|
                0 <= j < w.num_entities() && (#[trigger] w.viewsheds@[j]) is Some
                implies 0 <= w.viewsheds@[j]->0.range <= 1000 by {
                if j >= 1 {
                    assert((w.positions@[j]) is Some);
                }
            }
        }
        assert(w.wf());
    }
    State { ecs: w, runstate: RunState::Running }
}

} // verus!
