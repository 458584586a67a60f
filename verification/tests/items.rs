//! Item pickup, use, drop, unequip, and placement-exclusivity
//! scenarios.

use rogue_core::components::AreaOfEffect;
use rogue_core::components::CombatStats;
use rogue_core::components::Confusion;
use rogue_core::components::Consumable;
use rogue_core::components::EquipmentSlot;
use rogue_core::components::Equippable;
use rogue_core::components::InflictsDamage;
use rogue_core::components::Item;
use rogue_core::components::Name;
use rogue_core::components::Player;
use rogue_core::components::Position;
use rogue_core::components::ProvidesHealing;
use rogue_core::components::WantsToDropItem;
use rogue_core::components::WantsToPickupItem;
use rogue_core::components::WantsToUnequipItem;
use rogue_core::components::WantsToUseItem;
use rogue_core::gamelog::GameLog;
use rogue_core::inventory_system::aoe_requests;
use rogue_core::inventory_system::ItemCollectionSystem;
use rogue_core::inventory_system::ItemDropSystem;
use rogue_core::inventory_system::ItemUnequipSystem;
use rogue_core::inventory_system::ItemUseSystem;
use rogue_core::map::GameMap;
use rogue_core::map_indexing_system::MapIndexingSystem;
use rogue_core::world::World;
use rogue_core::Entity;

fn named(w: &mut World, name: &str) -> Entity {
    let e = w.create_entity();
    w.names.insert(
        e,
        Name {
            name: name.to_string(),
        },
    );
    e
}

fn no_blasts() -> Vec<Vec<(i32, i32)>> {
    Vec::new()
}

/// An item never holds more than one placement at once.
fn exclusive(w: &World, item: Entity) -> bool {
    let placements = [
        w.positions.get(item).is_some(),
        w.backpacks.get(item).is_some(),
        w.equipped.get(item).is_some(),
    ];
    placements.iter().filter(|p| **p).count() <= 1
}

#[test]
fn healing_is_clamped_to_max_hp() {
    // Heal amount 8 on 10/16 gives 16, not 18; on 16/16 stays 16.
    for (start, expect) in [(10, 16), (16, 16)] {
        let mut w = World::new();
        let mut log = GameLog::new();
        let map = GameMap::new(10, 10);
        let player = named(&mut w, "Player");
        w.players.insert(player, Player {});
        w.combat_stats.insert(
            player,
            CombatStats {
                max_hp: 16,
                hp: start,
                defense: 2,
                power: 5,
            },
        );
        let potion = named(&mut w, "Health Potion");
        w.items.insert(potion, Item {});
        w.consumables.insert(potion, Consumable {});
        w.provides_healing
            .insert(potion, ProvidesHealing { heal_amount: 8 });
        w.wants_use.insert(
            player,
            WantsToUseItem {
                item: potion,
                target: None,
            },
        );
        ItemUseSystem::run(&mut w, &map, &mut log, player, &no_blasts());
        assert_eq!(w.combat_stats.get(player).unwrap().hp, expect);
        // The consumable is queued for deletion and removed at the sync.
        w.maintain();
        assert!(w.names.get(potion).is_none());
    }
}

#[test]
fn no_target_use_heals_the_user_not_the_player() {
    // A monster drinking its own potion heals itself; the player's
    // hit points are untouched.
    let mut w = World::new();
    let mut log = GameLog::new();
    let map = GameMap::new(10, 10);
    let player = named(&mut w, "Player");
    w.players.insert(player, Player {});
    w.combat_stats.insert(
        player,
        CombatStats {
            max_hp: 16,
            hp: 10,
            defense: 2,
            power: 5,
        },
    );
    let monster = named(&mut w, "Orc");
    w.combat_stats.insert(
        monster,
        CombatStats {
            max_hp: 16,
            hp: 10,
            defense: 1,
            power: 4,
        },
    );
    let potion = named(&mut w, "Health Potion");
    w.items.insert(potion, Item {});
    w.provides_healing
        .insert(potion, ProvidesHealing { heal_amount: 8 });
    w.wants_use.insert(
        monster,
        WantsToUseItem {
            item: potion,
            target: None,
        },
    );
    ItemUseSystem::run(&mut w, &map, &mut log, player, &no_blasts());
    assert_eq!(w.combat_stats.get(monster).unwrap().hp, 16);
    assert_eq!(w.combat_stats.get(player).unwrap().hp, 10);
    // Nothing was reported: the user is not the player.
    assert!(log.entries.is_empty());
}

#[test]
fn pickup_moves_item_from_map_to_backpack() {
    let mut w = World::new();
    let mut log = GameLog::new();
    let player = named(&mut w, "Player");
    w.players.insert(player, Player {});
    let rock = named(&mut w, "Rock");
    w.items.insert(rock, Item {});
    w.positions.insert(rock, Position { x: 4, y: 4 });
    w.wants_pickup.insert(
        player,
        WantsToPickupItem {
            collected_by: player,
            item: rock,
        },
    );
    ItemCollectionSystem::run(&mut w, &mut log, player);
    assert!(w.positions.get(rock).is_none());
    assert_eq!(w.backpacks.get(rock).unwrap().owner, player);
    assert!(w.wants_pickup.get(player).is_none());
    assert!(exclusive(&w, rock));
    assert_eq!(log.entries.len(), 1);
}

#[test]
fn drop_places_item_at_dropper_position() {
    let mut w = World::new();
    let mut log = GameLog::new();
    let player = named(&mut w, "Player");
    w.players.insert(player, Player {});
    w.positions.insert(player, Position { x: 7, y: 2 });
    let rock = named(&mut w, "Rock");
    w.items.insert(rock, Item {});
    w.backpacks.insert(
        rock,
        rogue_core::components::InBackpack { owner: player },
    );
    w.wants_drop.insert(player, WantsToDropItem { item: rock });
    ItemDropSystem::run(&mut w, &mut log, player);
    assert_eq!(w.positions.get(rock).unwrap(), &Position { x: 7, y: 2 });
    assert!(w.backpacks.get(rock).is_none());
    assert!(exclusive(&w, rock));
}

#[test]
fn equip_displaces_same_slot_item() {
    // Equip A into the melee slot, then B: A ends in the backpack, B
    // is equipped, and exactly one melee-slot item stays on the player.
    let mut w = World::new();
    let mut log = GameLog::new();
    let map = GameMap::new(10, 10);
    let player = named(&mut w, "Player");
    w.players.insert(player, Player {});
    let sword_a = named(&mut w, "Sword A");
    w.items.insert(sword_a, Item {});
    w.equippables.insert(
        sword_a,
        Equippable {
            slot: EquipmentSlot::Melee,
        },
    );
    let sword_b = named(&mut w, "Sword B");
    w.items.insert(sword_b, Item {});
    w.equippables.insert(
        sword_b,
        Equippable {
            slot: EquipmentSlot::Melee,
        },
    );

    w.wants_use.insert(
        player,
        WantsToUseItem {
            item: sword_a,
            target: None,
        },
    );
    ItemUseSystem::run(&mut w, &map, &mut log, player, &no_blasts());
    assert_eq!(w.equipped.get(sword_a).unwrap().owner, player);

    w.wants_use.insert(
        player,
        WantsToUseItem {
            item: sword_b,
            target: None,
        },
    );
    ItemUseSystem::run(&mut w, &map, &mut log, player, &no_blasts());
    assert!(w.equipped.get(sword_a).is_none());
    assert_eq!(w.backpacks.get(sword_a).unwrap().owner, player);
    assert_eq!(w.equipped.get(sword_b).unwrap().owner, player);
    assert_eq!(w.equipped.get(sword_b).unwrap().slot, EquipmentSlot::Melee);
    let equipped_in_slot = (0..w.entity_count())
        .filter(|i| {
            w.equipped
                .get(Entity(*i))
                .map(|eq| eq.owner == player && eq.slot == EquipmentSlot::Melee)
                .unwrap_or(false)
        })
        .count();
    assert_eq!(equipped_in_slot, 1);
    assert!(exclusive(&w, sword_a));
    assert!(exclusive(&w, sword_b));
}

#[test]
fn unequip_returns_item_to_backpack() {
    let mut w = World::new();
    let player = named(&mut w, "Player");
    let sword = named(&mut w, "Sword");
    w.items.insert(sword, Item {});
    w.equipped.insert(
        sword,
        rogue_core::components::Equipped {
            owner: player,
            slot: EquipmentSlot::Melee,
        },
    );
    w.wants_unequip
        .insert(player, WantsToUnequipItem { item: sword });
    ItemUnequipSystem::run(&mut w);
    assert!(w.equipped.get(sword).is_none());
    assert_eq!(w.backpacks.get(sword).unwrap().owner, player);
    assert!(exclusive(&w, sword));
}

#[test]
fn aoe_scroll_hits_blast_only_and_clips_to_interior() {
    // Two monsters inside the blast take damage and confusion; one
    // outside the blast and one named by a border blast tile do not.
    let mut w = World::new();
    let mut log = GameLog::new();
    let mut map = GameMap::new(10, 10);
    let player = named(&mut w, "Player");
    w.players.insert(player, Player {});
    w.positions.insert(player, Position { x: 1, y: 1 });

    let in_blast_a = named(&mut w, "Orc A");
    w.combat_stats.insert(
        in_blast_a,
        CombatStats {
            max_hp: 16,
            hp: 16,
            defense: 1,
            power: 4,
        },
    );
    w.positions.insert(in_blast_a, Position { x: 5, y: 5 });
    let in_blast_b = named(&mut w, "Orc B");
    w.combat_stats.insert(
        in_blast_b,
        CombatStats {
            max_hp: 16,
            hp: 16,
            defense: 1,
            power: 4,
        },
    );
    w.positions.insert(in_blast_b, Position { x: 6, y: 5 });
    let outside = named(&mut w, "Far Orc");
    w.combat_stats.insert(
        outside,
        CombatStats {
            max_hp: 16,
            hp: 16,
            defense: 1,
            power: 4,
        },
    );
    w.positions.insert(outside, Position { x: 2, y: 8 });
    let on_border = named(&mut w, "Edge Orc");
    w.combat_stats.insert(
        on_border,
        CombatStats {
            max_hp: 16,
            hp: 16,
            defense: 1,
            power: 4,
        },
    );
    w.positions.insert(on_border, Position { x: 0, y: 5 });

    let scroll = named(&mut w, "Fireball Scroll");
    w.items.insert(scroll, Item {});
    w.consumables.insert(scroll, Consumable {});
    w.inflicts_damage.insert(scroll, InflictsDamage { damage: 8 });
    w.aoe.insert(scroll, AreaOfEffect { radius: 3 });
    w.confusion.insert(scroll, Confusion { turns: 4 });
    w.wants_use.insert(
        player,
        WantsToUseItem {
            item: scroll,
            target: Some(Position { x: 5, y: 5 }),
        },
    );

    MapIndexingSystem::run(&w, &mut map);
    let requests = aoe_requests(&w);
    assert_eq!(requests.len(), 1);
    assert_eq!(requests[0].0, Position { x: 5, y: 5 });
    assert_eq!(requests[0].1, 3);
    // The visibility service's raw answer: the blast tiles, including
    // one border tile that clipping must discard.
    let blasts = vec![vec![(5, 5), (6, 5), (5, 6), (0, 5)]];
    ItemUseSystem::run(&mut w, &map, &mut log, player, &blasts);

    assert_eq!(w.suffer_damage.get(in_blast_a).unwrap().amount, vec![8]);
    assert_eq!(w.suffer_damage.get(in_blast_b).unwrap().amount, vec![8]);
    assert!(w.suffer_damage.get(outside).is_none());
    assert!(w.suffer_damage.get(on_border).is_none());
    assert_eq!(w.confusion.get(in_blast_a).unwrap().turns, 4);
    assert_eq!(w.confusion.get(in_blast_b).unwrap().turns, 4);
    assert!(w.confusion.get(outside).is_none());
    assert!(w.confusion.get(on_border).is_none());
}
