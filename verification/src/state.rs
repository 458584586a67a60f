//! The turn scheduler's state: the shared resources each stage reads,
//! and the turn-phase transitions. The pipeline stages themselves run
//! in the fixed order visibility, monster decisions, map indexing,
//! melee, pickup, use, drop, unequip, damage — then the sync point,
//! and reaping once per full turn.

use vstd::prelude::*;

use crate::components::Entity;
use crate::components::Position;
use crate::components::RunState;
use crate::components::WantsToDropItem;
use crate::components::WantsToUseItem;
use crate::gamelog::GameLog;
use crate::map::GameMap;
use crate::world::World;

verus! {

/// Everything one game session owns: the world, the map, the log,
/// the turn phase, and the player's identity and location.
pub struct State {
    pub ecs: World,
    pub map: GameMap,
    pub log: GameLog,
    pub run_state: RunState,
    pub player_entity: Entity,
    pub player_pos: Position,
}

/// Whether the full system pipeline runs in this phase: only the
/// pre-run pass and the two turn phases advance the simulation.
pub fn pipeline_should_run(rs: RunState) -> (r: bool)
    ensures
        r == (rs == RunState::PreRun || rs == RunState::PlayerTurn || rs == RunState::MonsterTurn),
{
    match rs {
        RunState::PreRun => true,
        RunState::PlayerTurn => true,
        RunState::MonsterTurn => true,
        _ => false,
    }
}

/// The phase that follows a completed pipeline pass: the pre-run pass
/// and the monster turn yield to input; the player turn hands over to
/// the monsters. Phases that run no pipeline keep their state, and
/// the terminal state is never left.
pub fn run_state_after_pipeline(rs: RunState) -> (r: RunState)
    ensures
        rs == RunState::PreRun ==> r == RunState::AwaitingInput,
        rs == RunState::PlayerTurn ==> r == RunState::MonsterTurn,
        rs == RunState::MonsterTurn ==> r == RunState::AwaitingInput,
        rs != RunState::PreRun && rs != RunState::PlayerTurn && rs != RunState::MonsterTurn ==> r
            == rs,
{
    match rs {
        RunState::PreRun => RunState::AwaitingInput,
        RunState::PlayerTurn => RunState::MonsterTurn,
        RunState::MonsterTurn => RunState::AwaitingInput,
        other => other,
    }
}

/// Confirms an inventory selection: posts the use intent on the
/// player and moves to the player's turn.
pub fn confirm_use(ecs: &mut World, player: Entity, item: Entity) -> (r: RunState)
    requires
        old(ecs).wf(),
        player.0 < old(ecs).spec_entities(),
    ensures
        final(ecs).wf(),
        *final(ecs) == (World { wants_use: final(ecs).wants_use, ..*old(ecs) }),
        final(ecs).wants_use@ == old(ecs).wants_use@.update(
            player.0 as int,
            Some(WantsToUseItem { item, target: None }),
        ),
        r == RunState::PlayerTurn,
{
    ecs.wants_use.insert(player, WantsToUseItem { item, target: None });
    RunState::PlayerTurn
}

/// Confirms a drop selection: posts the drop intent on the player and
/// moves to the player's turn.
pub fn confirm_drop(ecs: &mut World, player: Entity, item: Entity) -> (r: RunState)
    requires
        old(ecs).wf(),
        player.0 < old(ecs).spec_entities(),
    ensures
        final(ecs).wf(),
        *final(ecs) == (World { wants_drop: final(ecs).wants_drop, ..*old(ecs) }),
        final(ecs).wants_drop@ == old(ecs).wants_drop@.update(
            player.0 as int,
            Some(WantsToDropItem { item }),
        ),
        r == RunState::PlayerTurn,
{
    ecs.wants_drop.insert(player, WantsToDropItem { item });
    RunState::PlayerTurn
}

} // verus!
