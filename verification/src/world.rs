use vstd::prelude::*;

use crate::components::{Name, Point, Position, Renderable, Viewshed};
use crate::game_map::{GameMap, TileType};

verus! {

/// The component-oriented world: one dense storage per component kind, all
/// indexed by entity id, plus the global map, player-position resource and
/// the message log.
pub struct World {
    pub positions: Vec<Option<Position>>,
    pub renderables: Vec<Option<Renderable>>,
    pub players: Vec<bool>,
    pub monsters: Vec<bool>,
    pub names: Vec<Option<Name>>,
    pub viewsheds: Vec<Option<Viewshed>>,
    pub map: GameMap,
    pub player_pos: Point,
    pub log: Vec<String>,
}

impl World {
    pub open spec fn num_entities(self) -> int {
        self.positions@.len() as int
    }

    /// Entity `i` carries the Player marker.
    pub open spec fn is_player(self, i: int) -> bool {
        0 <= i < self.num_entities() && self.players@[i]
    }

    /// Exactly one entity carries the Player marker.
    pub open spec fn player_unique(self) -> bool {
        &&& exists|i: int| #[trigger] self.is_player(i)
        &&& forall|i: int, j: int| self.is_player(i) && self.is_player(j) ==> i == j
    }

    /// The id of the unique player entity.
    pub open spec fn player_id(self) -> int {
        choose|i: int| self.is_player(i)
    }

    /// All component storages cover the same entities.
    pub open spec fn storages_consistent(self) -> bool {
        &&& self.renderables@.len() == self.num_entities()
        &&& self.players@.len() == self.num_entities()
        &&& self.monsters@.len() == self.num_entities()
        &&& self.names@.len() == self.num_entities()
        &&& self.viewsheds@.len() == self.num_entities()
    }

    /// Every stored position is inside the grid.
    pub open spec fn positions_in_bounds(self) -> bool {
        forall|i: int|
            0 <= i < self.num_entities() && (#[trigger] self.positions@[i]) is Some
                ==> self.map.in_bounds(
                self.positions@[i]->0.x as int,
                self.positions@[i]->0.y as int,
            )
    }

    /// Every stored viewshed has a machine-representable range.
    pub open spec fn ranges_ok(self) -> bool {
        forall|i: int|
            0 <= i < self.num_entities() && (#[trigger] self.viewsheds@[i]) is Some
                ==> 0 <= self.viewsheds@[i]->0.range <= 1000
    }

    pub open spec fn player_state_ok(self) -> bool {
        &&& self.positions@[self.player_id()] is Some
        &&& self.viewsheds@[self.player_id()] is Some
        &&& self.player_pos.x == self.positions@[self.player_id()]->0.x
        &&& self.player_pos.y == self.positions@[self.player_id()]->0.y
        &&& self.map.tile_at(self.player_pos.x as int, self.player_pos.y as int) != TileType::Wall
    }

    pub open spec fn wf(self) -> bool {
        &&& self.map.wf()
        &&& self.storages_consistent()
        &&& self.player_unique()
        &&& self.positions_in_bounds()
        &&& self.ranges_ok()
        &&& self.player_state_ok()
    }
}

} // verus!
