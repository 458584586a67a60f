//! Turn-based dungeon-crawl simulation core: an entity/component world,
//! a dungeon map, and the fixed pipeline of resolution systems that
//! advance the simulation one turn at a time.

use vstd::prelude::*;

pub mod components;
pub mod damage_system;
pub mod gamelog;
pub mod inventory_system;
pub mod laws;
pub mod map;
pub mod map_indexing_system;
pub mod melee_combat_system;
pub mod monster_ai_system;
pub mod player;
mod rng;
pub mod spawner;
pub mod state;
pub mod storage;
pub mod visibility_system;
pub mod world;

pub use components::Entity;

verus! {

/// Melee damage dealt for a given effective power and defense:
/// `max(0, power - defense)`.
pub open spec fn spec_melee_damage(power: int, defense: int) -> int {
    if power - defense > 0 {
        power - defense
    } else {
        0
    }
}

} // verus!
