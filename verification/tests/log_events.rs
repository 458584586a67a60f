//! The event log: which events the stages append, and for whom.

use rogue_core::components::CombatStats;
use rogue_core::components::Confusion;
use rogue_core::components::InflictsDamage;
use rogue_core::components::Item;
use rogue_core::components::Name;
use rogue_core::components::Player;
use rogue_core::components::Position;
use rogue_core::components::WantsToMelee;
use rogue_core::components::WantsToPickupItem;
use rogue_core::components::WantsToUseItem;
use rogue_core::gamelog::GameLog;
use rogue_core::gamelog::LogEvent;
use rogue_core::inventory_system::ItemCollectionSystem;
use rogue_core::inventory_system::ItemUseSystem;
use rogue_core::map::GameMap;
use rogue_core::melee_combat_system::MeleeCombatSystem;
use rogue_core::world::World;
use rogue_core::Entity;

fn named(w: &mut World, name: &str) -> Entity {
    let e = w.create_entity();
    w.names.insert(
        e,
        Name {
            name: name.to_string(),
        },
    );
    e
}

#[test]
fn melee_hit_is_reported_with_names_and_amount() {
    let mut w = World::new();
    let mut log = GameLog::new();
    let attacker = named(&mut w, "Hero");
    w.combat_stats.insert(
        attacker,
        CombatStats {
            max_hp: 30,
            hp: 30,
            defense: 2,
            power: 5,
        },
    );
    let defender = named(&mut w, "Orc");
    w.combat_stats.insert(
        defender,
        CombatStats {
            max_hp: 16,
            hp: 16,
            defense: 2,
            power: 4,
        },
    );
    w.wants_melee
        .insert(attacker, WantsToMelee { target: defender });
    MeleeCombatSystem::run(&mut w, &mut log);
    assert_eq!(log.entries.len(), 1);
    match &log.entries[0] {
        LogEvent::MeleeHit {
            attacker,
            target,
            amount,
        } => {
            assert_eq!(attacker, "Hero");
            assert_eq!(target, "Orc");
            assert_eq!(*amount, 3);
        }
        other => panic!("unexpected event: {:?}", log_kind(other)),
    }
}

fn log_kind(e: &LogEvent) -> &'static str {
    match e {
        LogEvent::Death { .. } => "death",
        LogEvent::MeleeMiss { .. } => "miss",
        LogEvent::MeleeHit { .. } => "hit",
        LogEvent::PickedUp { .. } => "picked-up",
        LogEvent::Dropped { .. } => "dropped",
        LogEvent::Healed { .. } => "healed",
        LogEvent::ItemDamage { .. } => "item-damage",
        LogEvent::Confused { .. } => "confused",
        LogEvent::Unequipped { .. } => "unequipped",
        LogEvent::EquippedItem { .. } => "equipped",
        LogEvent::Note { .. } => "note",
    }
}

#[test]
fn monster_pickup_is_not_reported() {
    // Only the player's pickups reach the log.
    let mut w = World::new();
    let mut log = GameLog::new();
    let player = named(&mut w, "Player");
    w.players.insert(player, Player {});
    let monster = named(&mut w, "Goblin");
    let rock = named(&mut w, "Rock");
    w.items.insert(rock, Item {});
    w.positions.insert(rock, Position { x: 4, y: 4 });
    w.wants_pickup.insert(
        monster,
        WantsToPickupItem {
            collected_by: monster,
            item: rock,
        },
    );
    ItemCollectionSystem::run(&mut w, &mut log, player);
    assert!(log.entries.is_empty());
    assert_eq!(w.backpacks.get(rock).unwrap().owner, monster);
}

#[test]
fn confusion_is_attached_and_replaced() {
    let mut w = World::new();
    let mut log = GameLog::new();
    let mut map = GameMap::new(10, 10);
    let player = named(&mut w, "Player");
    w.players.insert(player, Player {});
    let victim = named(&mut w, "Orc");
    w.combat_stats.insert(
        victim,
        CombatStats {
            max_hp: 16,
            hp: 16,
            defense: 1,
            power: 4,
        },
    );
    w.positions.insert(victim, Position { x: 5, y: 5 });
    // The victim already suffers a short confusion; the scroll
    // replaces it with its own duration.
    w.confusion.insert(victim, Confusion { turns: 1 });

    let scroll = named(&mut w, "Confusion Scroll");
    w.items.insert(scroll, Item {});
    w.confusion.insert(scroll, Confusion { turns: 4 });
    w.inflicts_damage.insert(scroll, InflictsDamage { damage: 2 });
    w.wants_use.insert(
        player,
        WantsToUseItem {
            item: scroll,
            target: Some(Position { x: 5, y: 5 }),
        },
    );
    rogue_core::map_indexing_system::MapIndexingSystem::run(&w, &mut map);
    let blasts: Vec<Vec<(i32, i32)>> = Vec::new();
    ItemUseSystem::run(&mut w, &map, &mut log, player, &blasts);
    assert_eq!(w.confusion.get(victim).unwrap().turns, 4);
    assert_eq!(w.suffer_damage.get(victim).unwrap().amount, vec![2]);
    // The scroll is not consumable here, so it survives the sync.
    w.maintain();
    assert!(w.names.get(scroll).is_some());
}
