//! Player movement: one step in a chosen direction, attacking instead
//! when something with combat statistics stands in the way. Keyboard
//! handling lives in the front end; only the resulting direction comes
//! here.

use vstd::prelude::*;

use crate::components::Entity;
use crate::components::Position;
use crate::components::Viewshed;
use crate::components::WantsToMelee;
use crate::map::GameMap;
use crate::map::tile_idx;
use crate::world::World;

verus! {

/// The first entity on the destination tile that has combat
/// statistics, scanning the occupant list in order.
pub open spec fn first_combat_target(w: World, content: Seq<Entity>, k: int) -> Option<Entity>
    decreases k,
{
    if k <= 0 {
        None
    } else {
        match first_combat_target(w, content, k - 1) {
            Some(t) => Some(t),
            None => {
                if w.combat_stats@[content[k - 1].0 as int] is Some {
                    Some(content[k - 1])
                } else {
                    None
                }
            },
        }
    }
}

/// How one player step relates the world and shared position after
/// the call (`w1`, `pp1`) to those before it (`w0`, `pp0`): attack the
/// first occupant with combat statistics, else move onto an unblocked
/// tile, else do nothing; a step off the map does nothing.
pub open spec fn move_outcome(
    w0: World,
    m: GameMap,
    player: Entity,
    pp0: Position,
    delta_x: int,
    delta_y: int,
    w1: World,
    pp1: Position,
) -> bool {
    let pos = w0.positions@[player.0 as int]->Some_0;
    let dx = pos.x + delta_x;
    let dy = pos.y + delta_y;
    let didx = tile_idx(m.width as int, dx, dy);
    if !m.in_bounds(dx, dy) {
        w1 == w0 && pp1 == pp0
    } else {
        let content = m.tile_content@[didx]@;
        match first_combat_target(w0, content, content.len() as int) {
            Some(t) => {
                &&& w1 == (World { wants_melee: w1.wants_melee, ..w0 })
                &&& w1.wants_melee@ == w0.wants_melee@.update(
                    player.0 as int,
                    Some(WantsToMelee { target: t }),
                )
                &&& pp1 == pp0
            },
            None => {
                if !m.blocked@[didx] {
                    &&& w1 == (World { positions: w1.positions, viewsheds: w1.viewsheds, ..w0 })
                    &&& w1.positions@ == w0.positions@.update(
                        player.0 as int,
                        Some(Position { x: dx as i32, y: dy as i32 }),
                    )
                    &&& w1.viewsheds@.len() == w0.viewsheds@.len()
                    &&& w1.viewsheds@[player.0 as int] is Some
                    &&& w1.viewsheds@[player.0 as int]->Some_0.dirty == true
                    &&& w1.viewsheds@[player.0 as int]->Some_0.range == w0.viewsheds@[
                    player.0 as int]->Some_0.range
                    &&& w1.viewsheds@[player.0 as int]->Some_0.visible_tiles@ == w0.viewsheds@[
                    player.0 as int]->Some_0.visible_tiles@
                    &&& (forall|k: int|
                        0 <= k < w1.viewsheds@.len() && k != player.0 ==> w1.viewsheds@[k]
                            == w0.viewsheds@[k])
                    &&& pp1 == (Position { x: dx as i32, y: dy as i32 })
                } else {
                    w1 == w0 && pp1 == pp0
                }
            },
        }
    }
}

/// Tries to move the player by one step. If the destination tile
/// holds a potential target, a melee intent is posted instead of
/// moving; if it is blocked, nothing happens; otherwise the player
/// moves there, its viewshed turns dirty, and the shared player
/// position is updated. A step that would leave the map does nothing.
#[verifier::loop_isolation(false)]
pub fn try_move_player(
    ecs: &mut World,
    map: &GameMap,
    player: Entity,
    player_pos: &mut Position,
    delta_x: i32,
    delta_y: i32,
)
    requires
        old(ecs).wf(),
        map.wf(),
        -1 <= delta_x <= 1,
        -1 <= delta_y <= 1,
        player.0 < old(ecs).spec_entities(),
        old(ecs).positions@[player.0 as int] is Some,
        old(ecs).viewsheds@[player.0 as int] is Some,
        map.in_bounds(
            old(ecs).positions@[player.0 as int]->Some_0.x as int,
            old(ecs).positions@[player.0 as int]->Some_0.y as int,
        ),
        forall|t: int, k: int|
            0 <= t < map.tile_content@.len() && 0 <= k < map.tile_content@[t]@.len() ==> (
            #[trigger] map.tile_content@[t]@[k]).0 < old(ecs).spec_entities(),
    ensures
        final(ecs).wf(),
        move_outcome(
            *old(ecs),
            *map,
            player,
            *old(player_pos),
            delta_x as int,
            delta_y as int,
            *final(ecs),
            *final(player_pos),
        ),
{
    let pos = match ecs.positions.get(player) {
        Some(p) => *p,
        None => Position { x: 0, y: 0 },
    };
    let dx = pos.x + delta_x;
    let dy = pos.y + delta_y;
    if dx < 0 || dx >= map.width || dy < 0 || dy >= map.height {
        return ;
    }
    let didx = map.xy_idx(dx, dy);
    let content = &map.tile_content[didx];
    let nc = content.len();
    let mut k: usize = 0;
    while k < nc
        invariant
            ecs.wf(),
            *ecs == *old(ecs),
            k <= nc,
            nc == content@.len(),
            first_combat_target(*old(ecs), content@, k as int) is None,
        decreases nc - k,
    {
        let candidate = content[k];
        if ecs.combat_stats.contains(candidate) {
            ecs.wants_melee.insert(player, WantsToMelee { target: candidate });
            proof {
                assert(first_combat_target(*old(ecs), content@, k + 1) == Some(candidate));
                lemma_first_target_extends(*old(ecs), content@, k + 1, content@.len() as int);
            }
            return ;
        }
        k = k + 1;
        proof {
            assert(!(old(ecs).combat_stats@[content@[k - 1].0 as int] is Some));
            assert(first_combat_target(*old(ecs), content@, k as int) is None);
        }
    }
    if !map.blocked[didx] {
        ecs.positions.insert(player, Position { x: dx, y: dy });
        match ecs.viewsheds.take(player) {
            Some(v) => {
                ecs.viewsheds.insert(player, Viewshed { dirty: true, ..v });
            },
            None => {},
        }
        player_pos.x = dx;
        player_pos.y = dy;
    }
}

/// Once a combat target is found among the first `k` occupants, it is
/// the target for the whole list.
proof fn lemma_first_target_extends(w: World, content: Seq<Entity>, k: int, n: int)
    requires
        0 <= k <= n,
        first_combat_target(w, content, k) is Some,
    ensures
        first_combat_target(w, content, n) == first_combat_target(w, content, k),
    decreases n - k,
{
    if k < n {
        lemma_first_target_extends(w, content, k + 1, n);
    }
}

} // verus!
