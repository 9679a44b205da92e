use vstd::prelude::*;

use crate::components::Point;
use crate::world::World;
use vstd::string::StringExecFns;

verus! {

/// The notice a perceiving monster emits, as a sequence of characters.
pub open spec fn shout_view(name: Seq<char>) -> Seq<char> {
    name + " shouts insults"@
}

/// Monster `i` perceives the player: it carries the Monster marker, a
/// viewshed whose cache holds the player's cell, and a name to shout with.
pub open spec fn perceives(w: World, i: int) -> bool {
    &&& 0 <= i < w.num_entities()
    &&& w.monsters@[i]
    &&& w.viewsheds@[i] is Some
    &&& w.names@[i] is Some
    &&& w.viewsheds@[i]->0.visible_tiles@.contains(
        Point { x: w.player_pos.x, y: w.player_pos.y },
    )
}

/// The notices emitted by the first `upto` entities, in entity order.
pub open spec fn insult_log(w: World, upto: int) -> Seq<Seq<char>>
    decreases upto,
{
    if upto <= 0 {
        Seq::empty()
    } else if perceives(w, upto - 1) {
        insult_log(w, upto - 1).push(shout_view(w.names@[upto - 1]->0.name@))
    } else {
        insult_log(w, upto - 1)
    }
}

/// The log as character sequences.
pub open spec fn log_views(l: Seq<String>) -> Seq<Seq<char>> {
    l.map_values(|s: String| s@)
}

/// Builds the notice string for one monster.
fn shout_line(name: &String) -> (r: String)
    ensures
        r@ == shout_view(name@),
{
    let mut s = name.clone();
    s.append(" shouts insults");
    s
}

/// Whether the vector holds the given point.
pub fn contains_point(v: &Vec<Point>, p: Point) -> (r: bool)
    ensures
        r == v@.contains(p),
{
    let mut k: usize = 0;
    let mut found = false;
    while k < v.len()
        invariant
            k <= v@.len(),
            found == exists|u: int| 0 <= u < k && v@[u] == p,
        decreases v@.len() - k,
    {
        if v[k].x == p.x && v[k].y == p.y {
            proof {
                assert(v@[k as int] == p);
            }
            found = true;
        }
        k += 1;
    }
    found
}

/// For every monster whose viewshed holds the player's cell, appends a
/// log-level notice. Moves nothing.
pub struct MonsterAI {}

impl MonsterAI {
    pub fn run(&mut self, ecs: &mut World)
        requires
            old(ecs).wf(),
        ensures
            final(ecs).wf(),
            final(ecs).positions == old(ecs).positions,
            final(ecs).renderables == old(ecs).renderables,
            final(ecs).players == old(ecs).players,
            final(ecs).monsters == old(ecs).monsters,
            final(ecs).names == old(ecs).names,
            final(ecs).viewsheds == old(ecs).viewsheds,
            final(ecs).player_pos == old(ecs).player_pos,
            final(ecs).map == old(ecs).map,
            log_views(final(ecs).log@) == log_views(old(ecs).log@) + insult_log(
                *old(ecs),
                old(ecs).num_entities(),
            ),
    {
        let ghost w1 = *ecs;
        let n = ecs.monsters.len();
        let ppos = Point { x: ecs.player_pos.x, y: ecs.player_pos.y };
        let mut i: usize = 0;
        while i < n
            invariant
                w1.wf(),
                n == w1.monsters@.len(),
                n == w1.num_entities(),
                i <= n,
                ecs.positions == w1.positions,
                ecs.renderables == w1.renderables,
                ecs.players == w1.players,
                ecs.monsters == w1.monsters,
                ecs.names == w1.names,
                ecs.viewsheds == w1.viewsheds,
                ecs.player_pos == w1.player_pos,
                ecs.map == w1.map,
                ppos.x == w1.player_pos.x,
                ppos.y == w1.player_pos.y,
                log_views(ecs.log@) == log_views(w1.log@) + insult_log(w1, i as int),
            decreases n - i,
        {
            let ghost pre_log = ecs.log@;
            if ecs.monsters[i] {
                match (&ecs.viewsheds[i], &ecs.names[i]) {
                    (Some(vs), Some(nm)) => {
                        if contains_point(&vs.visible_tiles, ppos) {
                            let line = shout_line(&nm.name);
                            ecs.log.push(line);
                            proof {
                                assert(perceives(w1, i as int));
                                assert(ecs.log@ == pre_log.push(line));
                                let shout = shout_view(w1.names@[i as int]->0.name@);
                                assert(insult_log(w1, i as int + 1) == insult_log(
                                    w1,
                                    i as int,
                                ).push(shout));
                                assert(line@ == shout);
                                let rhs = log_views(w1.log@) + insult_log(w1, i as int + 1);
                                assert(log_views(pre_log) == log_views(w1.log@) + insult_log(
                                    w1,
                                    i as int,
                                ));
                                assert(log_views(pre_log).len() == pre_log.len());
                                assert(log_views(ecs.log@).len() == ecs.log@.len());
                                assert(insult_log(w1, i as int + 1).len() == insult_log(
                                    w1,
                                    i as int,
                                ).len() + 1);
                                assert(log_views(ecs.log@).len() == rhs.len());
                                assert forall|j: int| 0 <= j < ecs.log@.len() implies #[trigger]
                                    log_views(ecs.log@)[j] == rhs[j] by {
                                    if j < pre_log.len() {
                                        assert(log_views(pre_log)[j] == (log_views(w1.log@)
                                            + insult_log(w1, i as int))[j]);
                                    } else {
                                        assert(log_views(ecs.log@)[j] == line@);
                                    }
                                }
                                assert(log_views(ecs.log@) =~= rhs);
                            }
                        } else {
                            proof {
                                assert(!perceives(w1, i as int));
                            }
                        }
                    },
                    _ => {
                        proof {
                            assert(!perceives(w1, i as int));
                        }
                    },
                }
            } else {
                proof {
                    assert(!perceives(w1, i as int));
                }
            }
            i += 1;
        }
        proof {
            assert forall|t: int| #[trigger] ecs.is_player(t) == w1.is_player(t) by {}
            assert(ecs.player_unique()) by {
                assert(w1.is_player(w1.player_id()));
                assert(ecs.is_player(w1.player_id()));
                assert forall|t1: int, t2: int|
                    ecs.is_player(t1) && ecs.is_player(t2) implies t1 == t2 by {
                    assert(w1.is_player(t1) && w1.is_player(t2));
                }
            }
            assert(ecs.player_id() == w1.player_id()) by {
                assert(ecs.is_player(w1.player_id()));
                assert(ecs.is_player(ecs.player_id()));
            }
            assert(ecs.wf()) by {
                assert(ecs.ranges_ok()) by {
                    assert forall|j: int|
                        0 <= j < ecs.num_entities() && (#[trigger] ecs.viewsheds@[j]) is Some
                        implies 0 <= ecs.viewsheds@[j]->0.range <= 1000 by {
                        assert(w1.viewsheds@[j] is Some);
                    }
                }
                assert(ecs.positions_in_bounds()) by {
                    assert forall|j: int|
                        0 <= j < ecs.num_entities() && (#[trigger] ecs.positions@[j]) is Some
                        implies ecs.map.in_bounds(
                        ecs.positions@[j]->0.x as int,
                        ecs.positions@[j]->0.y as int,
                    ) by {
                        assert(w1.positions@[j] is Some);
                        assert(w1.map.in_bounds(
                            w1.positions@[j]->0.x as int,
                            w1.positions@[j]->0.y as int,
                        ));
                    }
                }
            }
        }
    }
}

} // verus!
