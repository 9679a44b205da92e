use vstd::prelude::*;

use crate::components::Key;
use crate::monster_ai_system::{insult_log, log_views, MonsterAI};
use crate::player::{player_input, try_move_rel};
use crate::visibility_system::{all_clean, entity_vis_ok, masks_updated, VisibilitySystem};
use crate::world::World;

verus! {

/// The turn handshake: Paused awaits input, Running lets the world act.
#[derive(PartialEq, Eq, Structural, Clone, Copy, Debug)]
pub enum RunState {
    Paused,
    Running,
}

/// The whole game state: the world and the turn handshake.
pub struct State {
    pub ecs: World,
    pub runstate: RunState,
}

/// How one full system pass (monster AI, then visibility) relates the world
/// before and after.
pub open spec fn systems_rel(w1: World, w2: World) -> bool {
    &&& w2.positions == w1.positions
    &&& w2.renderables == w1.renderables
    &&& w2.players == w1.players
    &&& w2.monsters == w1.monsters
    &&& w2.names == w1.names
    &&& w2.player_pos == w1.player_pos
    &&& w2.map.width == w1.map.width
    &&& w2.map.height == w1.map.height
    &&& w2.map.tiles == w1.map.tiles
    &&& w2.map.rooms == w1.map.rooms
    &&& w2.viewsheds@.len() == w1.viewsheds@.len()
    &&& (forall|i: int| 0 <= i < w1.num_entities() ==> #[trigger] entity_vis_ok(w1, w2, i))
    &&& masks_updated(w1, w2)
    &&& all_clean(w2)
    &&& log_views(w2.log@) == log_views(w1.log@) + insult_log(w1, w1.num_entities())
}

impl State {
    /// Runs the monster AI, then the visibility system, once.
    pub fn run_systems(&mut self)
        requires
            old(self).ecs.wf(),
        ensures
            final(self).ecs.wf(),
            final(self).runstate == old(self).runstate,
            systems_rel(old(self).ecs, final(self).ecs),
    {
        let ghost w1 = self.ecs;
        let mut mob = MonsterAI {};
        mob.run(&mut self.ecs);
        let ghost wm = self.ecs;
        let mut vis = VisibilitySystem {};
        vis.run(&mut self.ecs);
        proof {
            let w3 = self.ecs;
            assert forall|i: int| 0 <= i < w1.num_entities() implies #[trigger] entity_vis_ok(
                w1,
                w3,
                i,
            ) by {
                assert(entity_vis_ok(wm, w3, i));
            }
            assert forall|t: int| #[trigger] wm.is_player(t) == w1.is_player(t) by {}
            assert(wm.player_id() == w1.player_id()) by {
                assert(w1.is_player(w1.player_id()));
                assert(wm.is_player(wm.player_id()));
            }
            assert(masks_updated(w1, w3)) by {
                assert(masks_updated(wm, w3));
            }
            assert(log_views(w3.log@) == log_views(w1.log@) + insult_log(w1, w1.num_entities()))
                by {
                assert(log_views(wm.log@) == log_views(w1.log@) + insult_log(
                    w1,
                    w1.num_entities(),
                ));
            }
        }
    }

    /// One frame of the turn scheduler: when Running, the systems run once
    /// and the state returns to Paused; when Paused, one key press is
    /// translated into at most one move.
    pub fn tick(&mut self, key: Option<Key>)
        requires
            old(self).ecs.wf(),
        ensures
            final(self).ecs.wf(),
            old(self).runstate == RunState::Running ==> systems_rel(
                old(self).ecs,
                final(self).ecs,
            ) && final(self).runstate == RunState::Paused,
            old(self).runstate == RunState::Paused && (key is None || key == Some(Key::Other))
                ==> final(self).ecs == old(self).ecs && final(self).runstate == RunState::Paused,
            old(self).runstate == RunState::Paused && (key == Some(Key::A) || key == Some(
                Key::Left,
            )) ==> try_move_rel(old(self).ecs, final(self).ecs, -1, 0) && final(self).runstate
                == RunState::Running,
            old(self).runstate == RunState::Paused && (key == Some(Key::D) || key == Some(
                Key::Right,
            )) ==> try_move_rel(old(self).ecs, final(self).ecs, 1, 0) && final(self).runstate
                == RunState::Running,
            old(self).runstate == RunState::Paused && (key == Some(Key::W) || key == Some(
                Key::Up,
            )) ==> try_move_rel(old(self).ecs, final(self).ecs, 0, -1) && final(self).runstate
                == RunState::Running,
            old(self).runstate == RunState::Paused && (key == Some(Key::S) || key == Some(
                Key::Down,
            )) ==> try_move_rel(old(self).ecs, final(self).ecs, 0, 1) && final(self).runstate
                == RunState::Running,
    {
        if self.runstate == RunState::Running {
            self.run_systems();
            self.runstate = RunState::Paused;
        } else {
            let rs = player_input(self, key);
            self.runstate = rs;
        }
    }
}

} // verus!
