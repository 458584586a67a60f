//! The world store: every component storage, entity creation, and the
//! deferred-deletion discipline.
//!
//! Structural removal of an entity is never applied mid-pipeline: it is
//! queued by `delete_entity` and applied atomically by `maintain`, the
//! sync point that runs between system passes. An entity queued for
//! deletion therefore stays queryable until the next sync.

use vstd::prelude::*;

use crate::components::AreaOfEffect;
use crate::components::BlocksTile;
use crate::components::CombatStats;
use crate::components::Confusion;
use crate::components::Consumable;
use crate::components::DefenseBonus;
use crate::components::Entity;
use crate::components::Equippable;
use crate::components::Equipped;
use crate::components::InBackpack;
use crate::components::InflictsDamage;
use crate::components::Item;
use crate::components::MeleePowerBonus;
use crate::components::Monster;
use crate::components::Name;
use crate::components::Player;
use crate::components::Position;
use crate::components::ProvidesHealing;
use crate::components::Ranged;
use crate::components::Renderable;
use crate::components::SufferDamage;
use crate::components::Viewshed;
use crate::components::WantsToDropItem;
use crate::components::WantsToMelee;
use crate::components::WantsToPickupItem;
use crate::components::WantsToUnequipItem;
use crate::components::WantsToUseItem;
use crate::storage::Storage;

verus! {

/// Whether the deletion queue `dead` names entity index `i`.
pub open spec fn is_queued_dead(dead: Seq<Entity>, i: int) -> bool {
    exists|k: int| 0 <= k < dead.len() && dead[k].0 == i
}

/// The world: one storage per component kind, all of the same length,
/// plus the queue of entities awaiting deletion at the next sync point.
pub struct World {
    pub positions: Storage<Position>,
    pub renderables: Storage<Renderable>,
    pub players: Storage<Player>,
    pub monsters: Storage<Monster>,
    pub blockers: Storage<BlocksTile>,
    pub items: Storage<Item>,
    pub consumables: Storage<Consumable>,
    pub names: Storage<Name>,
    pub viewsheds: Storage<Viewshed>,
    pub combat_stats: Storage<CombatStats>,
    pub suffer_damage: Storage<SufferDamage>,
    pub provides_healing: Storage<ProvidesHealing>,
    pub inflicts_damage: Storage<InflictsDamage>,
    pub ranged: Storage<Ranged>,
    pub aoe: Storage<AreaOfEffect>,
    pub confusion: Storage<Confusion>,
    pub equippables: Storage<Equippable>,
    pub equipped: Storage<Equipped>,
    pub backpacks: Storage<InBackpack>,
    pub melee_bonuses: Storage<MeleePowerBonus>,
    pub defense_bonuses: Storage<DefenseBonus>,
    pub wants_melee: Storage<WantsToMelee>,
    pub wants_pickup: Storage<WantsToPickupItem>,
    pub wants_use: Storage<WantsToUseItem>,
    pub wants_drop: Storage<WantsToDropItem>,
    pub wants_unequip: Storage<WantsToUnequipItem>,
    pub pending_deletes: Vec<Entity>,
    pub entities: usize,
}

impl World {
    /// How many entities have ever been created.
    pub open spec fn spec_entities(&self) -> nat {
        self.entities as nat
    }

    /// Well-formedness: every storage has one slot per created entity.
    pub open spec fn wf(&self) -> bool {
        &&& self.positions@.len() == self.spec_entities()
        &&& self.renderables@.len() == self.spec_entities()
        &&& self.players@.len() == self.spec_entities()
        &&& self.monsters@.len() == self.spec_entities()
        &&& self.blockers@.len() == self.spec_entities()
        &&& self.items@.len() == self.spec_entities()
        &&& self.consumables@.len() == self.spec_entities()
        &&& self.names@.len() == self.spec_entities()
        &&& self.viewsheds@.len() == self.spec_entities()
        &&& self.combat_stats@.len() == self.spec_entities()
        &&& self.suffer_damage@.len() == self.spec_entities()
        &&& self.provides_healing@.len() == self.spec_entities()
        &&& self.inflicts_damage@.len() == self.spec_entities()
        &&& self.ranged@.len() == self.spec_entities()
        &&& self.aoe@.len() == self.spec_entities()
        &&& self.confusion@.len() == self.spec_entities()
        &&& self.equippables@.len() == self.spec_entities()
        &&& self.equipped@.len() == self.spec_entities()
        &&& self.backpacks@.len() == self.spec_entities()
        &&& self.melee_bonuses@.len() == self.spec_entities()
        &&& self.defense_bonuses@.len() == self.spec_entities()
        &&& self.wants_melee@.len() == self.spec_entities()
        &&& self.wants_pickup@.len() == self.spec_entities()
        &&& self.wants_use@.len() == self.spec_entities()
        &&& self.wants_drop@.len() == self.spec_entities()
        &&& self.wants_unequip@.len() == self.spec_entities()
    }

    /// An empty world with no entities.
    pub fn new() -> (w: World)
        ensures
            w.wf(),
            w.spec_entities() == 0,
            w.pending_deletes@.len() == 0,
    {
        World {
            positions: Storage::new(),
            renderables: Storage::new(),
            players: Storage::new(),
            monsters: Storage::new(),
            blockers: Storage::new(),
            items: Storage::new(),
            consumables: Storage::new(),
            names: Storage::new(),
            viewsheds: Storage::new(),
            combat_stats: Storage::new(),
            suffer_damage: Storage::new(),
            provides_healing: Storage::new(),
            inflicts_damage: Storage::new(),
            ranged: Storage::new(),
            aoe: Storage::new(),
            confusion: Storage::new(),
            equippables: Storage::new(),
            equipped: Storage::new(),
            backpacks: Storage::new(),
            melee_bonuses: Storage::new(),
            defense_bonuses: Storage::new(),
            wants_melee: Storage::new(),
            wants_pickup: Storage::new(),
            wants_use: Storage::new(),
            wants_drop: Storage::new(),
            wants_unequip: Storage::new(),
            pending_deletes: Vec::new(),
            entities: 0,
        }
    }

    pub fn entity_count(&self) -> (n: usize)
        ensures
            n == self.spec_entities(),
    {
        self.entities
    }

    /// Creates a fresh entity with no components; its identifier is the
    /// next unused index.
    pub fn create_entity(&mut self) -> (e: Entity)
        requires
            old(self).wf(),
            old(self).spec_entities() < usize::MAX,
        ensures
            final(self).wf(),
            e.0 == old(self).spec_entities(),
            final(self).spec_entities() == old(self).spec_entities() + 1,
            final(self).positions@ == old(self).positions@.push(None),
            final(self).renderables@ == old(self).renderables@.push(None),
            final(self).players@ == old(self).players@.push(None),
            final(self).monsters@ == old(self).monsters@.push(None),
            final(self).blockers@ == old(self).blockers@.push(None),
            final(self).items@ == old(self).items@.push(None),
            final(self).consumables@ == old(self).consumables@.push(None),
            final(self).names@ == old(self).names@.push(None),
            final(self).viewsheds@ == old(self).viewsheds@.push(None),
            final(self).combat_stats@ == old(self).combat_stats@.push(None),
            final(self).suffer_damage@ == old(self).suffer_damage@.push(None),
            final(self).provides_healing@ == old(self).provides_healing@.push(None),
            final(self).inflicts_damage@ == old(self).inflicts_damage@.push(None),
            final(self).ranged@ == old(self).ranged@.push(None),
            final(self).aoe@ == old(self).aoe@.push(None),
            final(self).confusion@ == old(self).confusion@.push(None),
            final(self).equippables@ == old(self).equippables@.push(None),
            final(self).equipped@ == old(self).equipped@.push(None),
            final(self).backpacks@ == old(self).backpacks@.push(None),
            final(self).melee_bonuses@ == old(self).melee_bonuses@.push(None),
            final(self).defense_bonuses@ == old(self).defense_bonuses@.push(None),
            final(self).wants_melee@ == old(self).wants_melee@.push(None),
            final(self).wants_pickup@ == old(self).wants_pickup@.push(None),
            final(self).wants_use@ == old(self).wants_use@.push(None),
            final(self).wants_drop@ == old(self).wants_drop@.push(None),
            final(self).wants_unequip@ == old(self).wants_unequip@.push(None),
            final(self).pending_deletes@ == old(self).pending_deletes@,
    {
        let e = Entity(self.entities);
        self.positions.grow();
        self.renderables.grow();
        self.players.grow();
        self.monsters.grow();
        self.blockers.grow();
        self.items.grow();
        self.consumables.grow();
        self.names.grow();
        self.viewsheds.grow();
        self.combat_stats.grow();
        self.suffer_damage.grow();
        self.provides_healing.grow();
        self.inflicts_damage.grow();
        self.ranged.grow();
        self.aoe.grow();
        self.confusion.grow();
        self.equippables.grow();
        self.equipped.grow();
        self.backpacks.grow();
        self.melee_bonuses.grow();
        self.defense_bonuses.grow();
        self.wants_melee.grow();
        self.wants_pickup.grow();
        self.wants_use.grow();
        self.wants_drop.grow();
        self.wants_unequip.grow();
        self.entities = self.entities + 1;
        e
    }

    /// Queues `e` for deletion at the next sync point; nothing is
    /// detached yet, so `e` stays queryable until `maintain` runs.
    pub fn delete_entity(&mut self, e: Entity)
        ensures
            *final(self) == (World {
                pending_deletes: final(self).pending_deletes,
                ..*old(self)
            }),
            final(self).pending_deletes@ == old(self).pending_deletes@.push(e),
    {
        self.pending_deletes.push(e);
    }

    /// The sync point: applies every queued deletion by detaching all
    /// components of the queued entities, then empties the queue.
    pub fn maintain(&mut self)
        requires
            old(self).wf(),
        ensures
            final(self).wf(),
            final(self).spec_entities() == old(self).spec_entities(),
            final(self).pending_deletes@.len() == 0,
            purged(final(self).positions@, old(self).positions@, old(self).pending_deletes@),
            purged(final(self).renderables@, old(self).renderables@, old(self).pending_deletes@),
            purged(final(self).players@, old(self).players@, old(self).pending_deletes@),
            purged(final(self).monsters@, old(self).monsters@, old(self).pending_deletes@),
            purged(final(self).blockers@, old(self).blockers@, old(self).pending_deletes@),
            purged(final(self).items@, old(self).items@, old(self).pending_deletes@),
            purged(final(self).consumables@, old(self).consumables@, old(self).pending_deletes@),
            purged(final(self).names@, old(self).names@, old(self).pending_deletes@),
            purged(final(self).viewsheds@, old(self).viewsheds@, old(self).pending_deletes@),
            purged(final(self).combat_stats@, old(self).combat_stats@, old(self).pending_deletes@),
            purged(final(self).suffer_damage@, old(self).suffer_damage@, old(self).pending_deletes@),
            purged(
                final(self).provides_healing@,
                old(self).provides_healing@,
                old(self).pending_deletes@,
            ),
            purged(
                final(self).inflicts_damage@,
                old(self).inflicts_damage@,
                old(self).pending_deletes@,
            ),
            purged(final(self).ranged@, old(self).ranged@, old(self).pending_deletes@),
            purged(final(self).aoe@, old(self).aoe@, old(self).pending_deletes@),
            purged(final(self).confusion@, old(self).confusion@, old(self).pending_deletes@),
            purged(final(self).equippables@, old(self).equippables@, old(self).pending_deletes@),
            purged(final(self).equipped@, old(self).equipped@, old(self).pending_deletes@),
            purged(final(self).backpacks@, old(self).backpacks@, old(self).pending_deletes@),
            purged(final(self).melee_bonuses@, old(self).melee_bonuses@, old(self).pending_deletes@),
            purged(
                final(self).defense_bonuses@,
                old(self).defense_bonuses@,
                old(self).pending_deletes@,
            ),
            purged(final(self).wants_melee@, old(self).wants_melee@, old(self).pending_deletes@),
            purged(final(self).wants_pickup@, old(self).wants_pickup@, old(self).pending_deletes@),
            purged(final(self).wants_use@, old(self).wants_use@, old(self).pending_deletes@),
            purged(final(self).wants_drop@, old(self).wants_drop@, old(self).pending_deletes@),
            purged(final(self).wants_unequip@, old(self).wants_unequip@, old(self).pending_deletes@),
    {
        let mut dead: Vec<Entity> = Vec::new();
        core::mem::swap(&mut dead, &mut self.pending_deletes);
        purge(&mut self.positions, &dead);
        purge(&mut self.renderables, &dead);
        purge(&mut self.players, &dead);
        purge(&mut self.monsters, &dead);
        purge(&mut self.blockers, &dead);
        purge(&mut self.items, &dead);
        purge(&mut self.consumables, &dead);
        purge(&mut self.names, &dead);
        purge(&mut self.viewsheds, &dead);
        purge(&mut self.combat_stats, &dead);
        purge(&mut self.suffer_damage, &dead);
        purge(&mut self.provides_healing, &dead);
        purge(&mut self.inflicts_damage, &dead);
        purge(&mut self.ranged, &dead);
        purge(&mut self.aoe, &dead);
        purge(&mut self.confusion, &dead);
        purge(&mut self.equippables, &dead);
        purge(&mut self.equipped, &dead);
        purge(&mut self.backpacks, &dead);
        purge(&mut self.melee_bonuses, &dead);
        purge(&mut self.defense_bonuses, &dead);
        purge(&mut self.wants_melee, &dead);
        purge(&mut self.wants_pickup, &dead);
        purge(&mut self.wants_use, &dead);
        purge(&mut self.wants_drop, &dead);
        purge(&mut self.wants_unequip, &dead);
    }
}

/// Relates a storage after a sync point to the one before it: slots of
/// queued entities are emptied, all others are untouched.
pub open spec fn purged<T>(now: Seq<Option<T>>, before: Seq<Option<T>>, dead: Seq<Entity>) -> bool {
    &&& now.len() == before.len()
    &&& forall|i: int|
        0 <= i < now.len() ==> now[i] == if is_queued_dead(dead, i) {
            None::<T>
        } else {
            before[i]
        }
}

/// Whether the deletion queue names entity index `i`.
fn queue_names(dead: &Vec<Entity>, i: usize) -> (r: bool)
    ensures
        r == is_queued_dead(dead@, i as int),
{
    let n = dead.len();
    let mut k: usize = 0;
    while k < n
        invariant
            n == dead@.len(),
            k <= n,
            forall|j: int| 0 <= j < k ==> dead@[j].0 != i,
        decreases n - k,
    {
        if dead[k].0 == i {
            return true;
        }
        k = k + 1;
    }
    false
}

/// Empties the slot of every entity named by the deletion queue.
fn purge<T>(s: &mut Storage<T>, dead: &Vec<Entity>)
    ensures
        purged(final(s)@, old(s)@, dead@),
{
    let ghost before = s@;
    let n = s.len();
    let mut i: usize = 0;
    while i < n
        invariant
            before == old(s)@,
            n == s@.len(),
            n == before.len(),
            i <= n,
            forall|j: int|
                0 <= j < i ==> s@[j] == if is_queued_dead(dead@, j) {
                    None::<T>
                } else {
                    before[j]
                },
            forall|j: int| i <= j < n ==> s@[j] == before[j],
        decreases n - i,
    {
        if queue_names(dead, i) {
            s.remove(Entity(i));
        }
        i = i + 1;
    }
}

} // verus!
