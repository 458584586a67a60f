//! The component data model: entities, the components that can be
//! attached to them, and the transient intent components.
//!
//! Tags (`Player`, `Monster`, `BlocksTile`, `Item`, `Consumable`) carry no
//! data: discrimination is by presence or absence of the component.
//! Intent components (`WantsToMelee` and the item intents) record a
//! requested action for one turn; the system that resolves an intent kind
//! clears its whole storage at the end of its run.

use vstd::prelude::*;

verus! {

/// An opaque entity identifier. Entities carry no data of their own;
/// existence is defined by having components attached in a `World`.
#[derive(Clone, Copy, PartialEq, Eq, Structural, Debug, Hash)]
pub struct Entity(pub usize);

/// A tile coordinate; also the component of every entity that occupies
/// the map.
#[derive(Clone, Copy, PartialEq, Eq, Structural, Debug)]
pub struct Position {
    pub x: i32,
    pub y: i32,
}

/// An 8-bit-per-channel color, as the render front end expects it.
#[derive(Clone, Copy, PartialEq, Eq, Structural, Debug)]
pub struct Color {
    pub r: u8,
    pub g: u8,
    pub b: u8,
}

/// How to draw an entity: a code-page-437 glyph, colors, and a draw
/// order (lower values are drawn last, on top).
#[derive(Clone, Copy, PartialEq, Eq, Structural, Debug)]
pub struct Renderable {
    pub glyph: u8,
    pub fg: Color,
    pub bg: Color,
    pub render_order: i32,
}

/// Tag: the player entity.
#[derive(Clone, Copy, PartialEq, Eq, Structural, Debug)]
pub struct Player {}

/// Tag: a hostile creature driven by the monster AI.
#[derive(Clone, Copy, PartialEq, Eq, Structural, Debug)]
pub struct Monster {}

/// Tag: this entity makes the tile it stands on impassable.
#[derive(Clone, Copy, PartialEq, Eq, Structural, Debug)]
pub struct BlocksTile {}

/// Tag: this entity is an item.
#[derive(Clone, Copy, PartialEq, Eq, Structural, Debug)]
pub struct Item {}

/// Tag: this item is destroyed after one use.
#[derive(Clone, Copy, PartialEq, Eq, Structural, Debug)]
pub struct Consumable {}

/// A display name.
pub struct Name {
    pub name: String,
}

/// Health and melee statistics. `hp` may transiently drop below zero
/// between damage application and reaping.
#[derive(Clone, Copy, PartialEq, Eq, Structural, Debug)]
pub struct CombatStats {
    pub max_hp: i32,
    pub hp: i32,
    pub defense: i32,
    pub power: i32,
}

/// A per-entity damage accumulator: every damage source of the current
/// turn appends to `amount`; the damage system sums and clears it.
pub struct SufferDamage {
    pub amount: Vec<i32>,
}

/// A cached visibility query result. `visible_tiles` holds map tile
/// indices; it is stale whenever `dirty` is true, and any move of the
/// owning entity must set `dirty`.
pub struct Viewshed {
    pub visible_tiles: Vec<usize>,
    pub range: i32,
    pub dirty: bool,
}

/// Effect descriptor: using this item heals the target, clamped to its
/// `max_hp`.
#[derive(Clone, Copy, PartialEq, Eq, Structural, Debug)]
pub struct ProvidesHealing {
    pub heal_amount: i32,
}

/// Effect descriptor: using this item appends `damage` to each target's
/// accumulator.
#[derive(Clone, Copy, PartialEq, Eq, Structural, Debug)]
pub struct InflictsDamage {
    pub damage: i32,
}

/// The targeting range of an item that is thrown or fired.
#[derive(Clone, Copy, PartialEq, Eq, Structural, Debug)]
pub struct Ranged {
    pub range: i32,
}

/// Effect descriptor: the item affects a blast region of this radius
/// around the target point rather than one tile.
#[derive(Clone, Copy, PartialEq, Eq, Structural, Debug)]
pub struct AreaOfEffect {
    pub radius: i32,
}

/// Confusion, either as an item's effect descriptor or as the status it
/// attaches to a target.
#[derive(Clone, Copy, PartialEq, Eq, Structural, Debug)]
pub struct Confusion {
    pub turns: i32,
}

/// A slot that equippable items occupy.
#[derive(Clone, Copy, PartialEq, Eq, Structural, Debug)]
pub enum EquipmentSlot {
    Melee,
    Shield,
}

/// Effect descriptor: the item can be equipped into `slot`.
#[derive(Clone, Copy, PartialEq, Eq, Structural, Debug)]
pub struct Equippable {
    pub slot: EquipmentSlot,
}

/// Back-reference from an equipped item to the entity wearing it.
#[derive(Clone, Copy, PartialEq, Eq, Structural, Debug)]
pub struct Equipped {
    pub owner: Entity,
    pub slot: EquipmentSlot,
}

/// Back-reference from a carried item to the entity carrying it.
#[derive(Clone, Copy, PartialEq, Eq, Structural, Debug)]
pub struct InBackpack {
    pub owner: Entity,
}

/// Bonus to effective melee power while the item is equipped.
#[derive(Clone, Copy, PartialEq, Eq, Structural, Debug)]
pub struct MeleePowerBonus {
    pub power: i32,
}

/// Bonus to effective defense while the item is equipped.
#[derive(Clone, Copy, PartialEq, Eq, Structural, Debug)]
pub struct DefenseBonus {
    pub defense: i32,
}

/// Intent: attack `target` in melee this turn.
#[derive(Clone, Copy, PartialEq, Eq, Structural, Debug)]
pub struct WantsToMelee {
    pub target: Entity,
}

/// Intent: pick `item` up off the map.
#[derive(Clone, Copy, PartialEq, Eq, Structural, Debug)]
pub struct WantsToPickupItem {
    pub collected_by: Entity,
    pub item: Entity,
}

/// Intent: use `item`, aimed at `target` if the item needs a target
/// point.
#[derive(Clone, Copy, PartialEq, Eq, Structural, Debug)]
pub struct WantsToUseItem {
    pub item: Entity,
    pub target: Option<Position>,
}

/// Intent: drop `item` at the acting entity's position.
#[derive(Clone, Copy, PartialEq, Eq, Structural, Debug)]
pub struct WantsToDropItem {
    pub item: Entity,
}

/// Intent: move `item` from an equipment slot back into the backpack.
#[derive(Clone, Copy, PartialEq, Eq, Structural, Debug)]
pub struct WantsToUnequipItem {
    pub item: Entity,
}

/// The overall turn phase. `PreRun` and the two turn states run the
/// full system pipeline once; the others never do. `GameOver` is
/// terminal.
#[derive(Clone, Copy, PartialEq, Eq, Structural, Debug)]
pub enum RunState {
    AwaitingInput,
    PreRun,
    PlayerTurn,
    MonsterTurn,
    ShowInventory,
    ShowDropItem,
    GameOver,
}

} // verus!
