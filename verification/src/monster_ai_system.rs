//! Monster decision-making. Each monster that sees the player either
//! attacks (when adjacent) or pursues one step along a path from the
//! pathing service. The decision and the state changes live here; the
//! front end runs the loop and supplies the path.

use vstd::prelude::*;

use crate::components::Entity;
use crate::components::Position;
use crate::components::RunState;
use crate::components::Viewshed;
use crate::components::WantsToMelee;
use crate::map::GameMap;
use crate::map::tile_idx;
use crate::world::World;

verus! {

/// What one monster does with its turn.
#[derive(Clone, Copy, PartialEq, Eq, Structural, Debug)]
pub enum MonsterAction {
    /// No action: the player is out of sight.
    Wait,
    /// Attack the player in melee.
    Melee,
    /// Ask the pathing service for a route and step along it.
    Pursue { from: usize, to: usize },
}

/// Whether two tiles are within melee reach: the squared distance is
/// at most two, exactly when the straight-line distance is below one
/// and a half.
pub open spec fn spec_adjacent(a: Position, b: Position) -> bool {
    (a.x - b.x) * (a.x - b.x) + (a.y - b.y) * (a.y - b.y) <= 2
}

/// The monsters that act this turn, in entity order: every entity
/// with the monster tag, a viewshed, and a position — but only during
/// the monster turn phase.
pub open spec fn acting_monsters(w: World, runstate: RunState, k: int) -> Seq<Entity>
    decreases k,
{
    if runstate != RunState::MonsterTurn || k <= 0 {
        Seq::empty()
    } else {
        let prefix = acting_monsters(w, runstate, k - 1);
        if w.monsters@[k - 1] is Some && w.viewsheds@[k - 1] is Some && w.positions@[k - 1]
            is Some {
            prefix.push(Entity((k - 1) as usize))
        } else {
            prefix
        }
    }
}

/// Lists the monsters that act this turn; outside the monster turn
/// phase the list is empty and no intent storage is touched.
#[verifier::loop_isolation(false)]
pub fn monsters_to_act(ecs: &World, runstate: RunState) -> (r: Vec<Entity>)
    requires
        ecs.wf(),
    ensures
        r@ == acting_monsters(*ecs, runstate, ecs.spec_entities() as int),
        forall|k: int| 0 <= k < r@.len() ==> (#[trigger] r@[k]).0 < ecs.spec_entities(),
{
    let mut r: Vec<Entity> = Vec::new();
    if !matches!(runstate, RunState::MonsterTurn) {
        proof {
            assert(r@ =~= acting_monsters(*ecs, runstate, ecs.spec_entities() as int));
        }
        return r;
    }
    let n = ecs.entity_count();
    let mut i: usize = 0;
    while i < n
        invariant
            runstate == RunState::MonsterTurn,
            i <= n,
            r@ == acting_monsters(*ecs, runstate, i as int),
            forall|k: int| 0 <= k < r@.len() ==> (#[trigger] r@[k]).0 < ecs.spec_entities(),
        decreases n - i,
    {
        let e = Entity(i);
        if ecs.monsters.contains(e) && ecs.viewsheds.contains(e) && ecs.positions.contains(e) {
            r.push(e);
        }
        i = i + 1;
        proof {
            assert(Entity((i - 1) as usize) == e);
        }
    }
    r
}

/// The choice a monster makes: wait unless the player's tile is in
/// its view; melee when adjacent; otherwise pursue from its tile to
/// the player's tile.
pub open spec fn spec_monster_choice(
    w: World,
    m: GameMap,
    player_pos: Position,
    e: Entity,
) -> MonsterAction {
    if !(w.monsters@[e.0 as int] is Some && w.viewsheds@[e.0 as int] is Some
        && w.positions@[e.0 as int] is Some) {
        MonsterAction::Wait
    } else {
        let pos = w.positions@[e.0 as int]->Some_0;
        let player_idx = tile_idx(m.width as int, player_pos.x as int, player_pos.y as int);
        if !w.viewsheds@[e.0 as int]->Some_0.visible_tiles@.contains(player_idx as usize) {
            MonsterAction::Wait
        } else if spec_adjacent(pos, player_pos) {
            MonsterAction::Melee
        } else {
            MonsterAction::Pursue {
                from: tile_idx(m.width as int, pos.x as int, pos.y as int) as usize,
                to: player_idx as usize,
            }
        }
    }
}

pub struct MonsterAI {}

impl MonsterAI {
    /// Decides one monster's turn. Relies only on the monster's own
    /// viewshed; a monster that does not see the player waits, with no
    /// pursuit memory.
    #[verifier::loop_isolation(false)]
    pub fn choice(ecs: &World, map: &GameMap, player_pos: Position, e: Entity) -> (a: MonsterAction)
        requires
            ecs.wf(),
            map.wf(),
            e.0 < ecs.spec_entities(),
            map.in_bounds(player_pos.x as int, player_pos.y as int),
            ecs.positions@[e.0 as int] is Some ==> map.in_bounds(
                ecs.positions@[e.0 as int]->Some_0.x as int,
                ecs.positions@[e.0 as int]->Some_0.y as int,
            ),
        ensures
            a == spec_monster_choice(*ecs, *map, player_pos, e),
    {
        if !(ecs.monsters.contains(e) && ecs.viewsheds.contains(e) && ecs.positions.contains(e)) {
            return MonsterAction::Wait;
        }
        let pos = match ecs.positions.get(e) {
            Some(p) => *p,
            None => Position { x: 0, y: 0 },
        };
        let player_idx = map.xy_idx(player_pos.x, player_pos.y);
        let sees_player = match ecs.viewsheds.get(e) {
            Some(v) => {
                let nt = v.visible_tiles.len();
                let mut k: usize = 0;
                let mut found = false;
                while k < nt
                    invariant
                        k <= nt,
                        nt == v.visible_tiles@.len(),
                        found == v.visible_tiles@.take(k as int).contains(player_idx),
                    decreases nt - k,
                {
                    if v.visible_tiles[k] == player_idx {
                        found = true;
                    }
                    k = k + 1;
                    proof {
                        assert(v.visible_tiles@.take(k as int) =~= v.visible_tiles@.take(
                            k - 1,
                        ).push(v.visible_tiles@[k - 1]));
                        if v.visible_tiles@[k - 1] == player_idx {
                            assert(v.visible_tiles@.take(k as int)[k - 1] == player_idx);
                            assert(v.visible_tiles@.take(k as int).contains(player_idx));
                        } else {
                            assert forall|q: int|
                                0 <= q < k && v.visible_tiles@.take(k as int)[q] == player_idx
                                implies q < k - 1 by {
                                if q == k - 1 {
                                    assert(v.visible_tiles@.take(k as int)[q] != player_idx);
                                }
                            }
                            assert(v.visible_tiles@.take(k as int).contains(player_idx) == v
                                .visible_tiles@.take(k - 1).contains(player_idx));
                        }
                    }
                }
                proof {
                    assert(v.visible_tiles@.take(nt as int) =~= v.visible_tiles@);
                }
                found
            },
            None => false,
        };
        if !sees_player {
            return MonsterAction::Wait;
        }
        let dx = (pos.x as i64) - (player_pos.x as i64);
        let dy = (pos.y as i64) - (player_pos.y as i64);
        proof {
            assert(dx * dx <= 0x3FFF_FFFF_0000_0001 && dx * dx >= 0) by (nonlinear_arith)
                requires
                    -0x7FFF_FFFF <= dx <= 0x7FFF_FFFF,
            ;
            assert(dy * dy <= 0x3FFF_FFFF_0000_0001 && dy * dy >= 0) by (nonlinear_arith)
                requires
                    -0x7FFF_FFFF <= dy <= 0x7FFF_FFFF,
            ;
        }
        if dx * dx + dy * dy <= 2 {
            MonsterAction::Melee
        } else {
            let from = map.xy_idx(pos.x, pos.y);
            MonsterAction::Pursue { from, to: player_idx }
        }
    }

    /// Posts the melee intent of a monster adjacent to the player.
    pub fn apply_melee(ecs: &mut World, e: Entity, player_entity: Entity)
        requires
            old(ecs).wf(),
            e.0 < old(ecs).spec_entities(),
        ensures
            final(ecs).wf(),
            *final(ecs) == (World { wants_melee: final(ecs).wants_melee, ..*old(ecs) }),
            final(ecs).wants_melee@ == old(ecs).wants_melee@.update(
                e.0 as int,
                Some(WantsToMelee { target: player_entity }),
            ),
    {
        ecs.wants_melee.insert(e, WantsToMelee { target: player_entity });
    }

    /// Moves a pursuing monster one step: its old tile stops blocking,
    /// the new one starts, and its viewshed turns dirty — so monsters
    /// moved in the same pass never overlap and a monster does not
    /// block the tile it just left.
    pub fn apply_move(ecs: &mut World, map: &mut GameMap, e: Entity, step: usize)
        requires
            old(ecs).wf(),
            old(map).wf(),
            e.0 < old(ecs).spec_entities(),
            step < old(map).tiles@.len(),
            old(ecs).positions@[e.0 as int] is Some,
            old(ecs).viewsheds@[e.0 as int] is Some,
            old(map).in_bounds(
                old(ecs).positions@[e.0 as int]->Some_0.x as int,
                old(ecs).positions@[e.0 as int]->Some_0.y as int,
            ),
        ensures
            final(ecs).wf(),
            final(map).wf(),
            *final(ecs) == (World {
                positions: final(ecs).positions,
                viewsheds: final(ecs).viewsheds,
                ..*old(ecs)
            }),
            *final(map) == (GameMap { blocked: final(map).blocked, ..*old(map) }),
            final(ecs).positions@ == old(ecs).positions@.update(
                e.0 as int,
                Some(
                    Position {
                        x: (step as int % old(map).width as int) as i32,
                        y: (step as int / old(map).width as int) as i32,
                    },
                ),
            ),
            final(map).blocked@ == old(map).blocked@.update(
                tile_idx(
                    old(map).width as int,
                    old(ecs).positions@[e.0 as int]->Some_0.x as int,
                    old(ecs).positions@[e.0 as int]->Some_0.y as int,
                ),
                false,
            ).update(step as int, true),
            final(ecs).viewsheds@.len() == old(ecs).viewsheds@.len(),
            forall|k: int|
                0 <= k < final(ecs).viewsheds@.len() && k != e.0 ==> final(ecs).viewsheds@[k] == old(
                    ecs,
                ).viewsheds@[k],
            final(ecs).viewsheds@[e.0 as int] is Some,
            final(ecs).viewsheds@[e.0 as int]->Some_0.dirty == true,
            final(ecs).viewsheds@[e.0 as int]->Some_0.range == old(
                ecs,
            ).viewsheds@[e.0 as int]->Some_0.range,
            final(ecs).viewsheds@[e.0 as int]->Some_0.visible_tiles@ == old(
                ecs,
            ).viewsheds@[e.0 as int]->Some_0.visible_tiles@,
    {
        let pos = match ecs.positions.get(e) {
            Some(p) => *p,
            None => Position { x: 0, y: 0 },
        };
        let old_idx = map.xy_idx(pos.x, pos.y);
        map.blocked[old_idx] = false;
        let w = map.width as usize;
        proof {
            let wv = map.width as int;
            let hv = map.height as int;
            assert((step as int) < wv * hv);
            assert((step as int) / wv < hv && (step as int) % wv < wv && (step as int) % wv >= 0
                && (step as int) / wv >= 0) by (nonlinear_arith)
                requires
                    0 < wv,
                    0 < hv,
                    (step as int) < wv * hv,
            ;
        }
        let new_x = (step % w) as i32;
        let new_y = (step / w) as i32;
        ecs.positions.insert(e, Position { x: new_x, y: new_y });
        map.blocked[step] = true;
        match ecs.viewsheds.take(e) {
            Some(v) => {
                ecs.viewsheds.insert(e, Viewshed { dirty: true, ..v });
            },
            None => {},
        }
    }
}

} // verus!
