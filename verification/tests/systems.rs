//! Combat, damage, and reaping scenarios.

use rogue_core::components::CombatStats;
use rogue_core::components::Name;
use rogue_core::components::Player;
use rogue_core::components::Position;
use rogue_core::components::RunState;
use rogue_core::components::SufferDamage;
use rogue_core::components::WantsToMelee;
use rogue_core::damage_system::delete_the_dead;
use rogue_core::damage_system::DamageSystem;
use rogue_core::gamelog::GameLog;
use rogue_core::map::GameMap;
use rogue_core::melee_combat_system::MeleeCombatSystem;
use rogue_core::world::World;
use rogue_core::Entity;

fn named(w: &mut World, name: &str) -> Entity {
    let e = w.create_entity();
    w.names.insert(
        e,
        Name {
            name: name.to_string(),
        },
    );
    e
}

fn stats(w: &mut World, e: Entity, max_hp: i32, hp: i32, defense: i32, power: i32) {
    w.combat_stats.insert(
        e,
        CombatStats {
            max_hp,
            hp,
            defense,
            power,
        },
    );
}

#[test]
fn melee_and_damage_resolve_one_attack() {
    // Attacker power 5 vs defender defense 2 and hp 16: 3 damage.
    let mut w = World::new();
    let mut log = GameLog::new();
    let mut map = GameMap::new(10, 10);
    let attacker = named(&mut w, "Hero");
    stats(&mut w, attacker, 30, 30, 2, 5);
    let defender = named(&mut w, "Orc");
    stats(&mut w, defender, 16, 16, 2, 4);
    w.wants_melee
        .insert(attacker, WantsToMelee { target: defender });

    MeleeCombatSystem::run(&mut w, &mut log);
    assert_eq!(w.suffer_damage.get(defender).unwrap().amount, vec![3]);
    assert!(w.wants_melee.get(attacker).is_none());

    DamageSystem::run(&mut w, &mut map);
    assert_eq!(w.combat_stats.get(defender).unwrap().hp, 13);
}

#[test]
fn melee_damage_is_monotonic_in_power() {
    let mut loss = Vec::new();
    for power in [5, 6, 9] {
        let mut w = World::new();
        let mut log = GameLog::new();
        let mut map = GameMap::new(10, 10);
        let attacker = named(&mut w, "Hero");
        stats(&mut w, attacker, 30, 30, 2, power);
        let defender = named(&mut w, "Orc");
        stats(&mut w, defender, 16, 16, 2, 4);
        w.wants_melee
            .insert(attacker, WantsToMelee { target: defender });
        MeleeCombatSystem::run(&mut w, &mut log);
        DamageSystem::run(&mut w, &mut map);
        loss.push(16 - w.combat_stats.get(defender).unwrap().hp);
    }
    assert_eq!(loss, vec![3, 4, 7]);
    assert!(loss[0] <= loss[1] && loss[1] <= loss[2]);
}

#[test]
fn zero_damage_hit_leaves_no_accumulator() {
    let mut w = World::new();
    let mut log = GameLog::new();
    let attacker = named(&mut w, "Weakling");
    stats(&mut w, attacker, 10, 10, 0, 1);
    let defender = named(&mut w, "Tank");
    stats(&mut w, defender, 16, 16, 5, 1);
    w.wants_melee
        .insert(attacker, WantsToMelee { target: defender });
    MeleeCombatSystem::run(&mut w, &mut log);
    assert!(w.suffer_damage.get(defender).is_none());
    // The miss is still reported.
    assert_eq!(log.entries.len(), 1);
}

#[test]
fn damage_stage_empties_every_accumulator() {
    let mut w = World::new();
    let mut map = GameMap::new(10, 10);
    let hurt = w.create_entity();
    stats(&mut w, hurt, 16, 16, 1, 1);
    SufferDamage::new_damage(&mut w.suffer_damage, hurt, 4);
    SufferDamage::new_damage(&mut w.suffer_damage, hurt, 5);
    let idle = w.create_entity();
    stats(&mut w, idle, 16, 16, 1, 1);
    w.suffer_damage
        .insert(idle, SufferDamage { amount: Vec::new() });

    DamageSystem::run(&mut w, &mut map);
    assert!(w.suffer_damage.get(hurt).is_none());
    assert!(w.suffer_damage.get(idle).is_none());
    assert_eq!(w.combat_stats.get(hurt).unwrap().hp, 7);
    assert_eq!(w.combat_stats.get(idle).unwrap().hp, 16);
}

#[test]
fn damage_marks_bloodstains() {
    let mut w = World::new();
    let mut map = GameMap::new(10, 10);
    let hurt = w.create_entity();
    stats(&mut w, hurt, 16, 16, 1, 1);
    w.positions.insert(hurt, Position { x: 3, y: 4 });
    SufferDamage::new_damage(&mut w.suffer_damage, hurt, 2);
    DamageSystem::run(&mut w, &mut map);
    let idx = map.xy_idx(3, 4);
    assert!(map.bloodstains[idx]);
    assert!(!map.bloodstains[map.xy_idx(1, 1)]);
}

#[test]
fn dead_monster_is_no_melee_target_and_gets_reaped() {
    // A monster reduced to zero hit points earlier this turn takes no
    // further damage from a later attacker, and reaping removes it.
    let mut w = World::new();
    let mut log = GameLog::new();
    let mut map = GameMap::new(10, 10);
    let slayer = named(&mut w, "Hero");
    stats(&mut w, slayer, 30, 30, 2, 18);
    let monster = named(&mut w, "Orc");
    stats(&mut w, monster, 16, 16, 2, 4);
    w.positions.insert(monster, Position { x: 2, y: 2 });
    w.wants_melee
        .insert(slayer, WantsToMelee { target: monster });
    MeleeCombatSystem::run(&mut w, &mut log);
    DamageSystem::run(&mut w, &mut map);
    assert_eq!(w.combat_stats.get(monster).unwrap().hp, 0);

    // A second attacker in the same turn finds a corpse: skipped.
    let late = named(&mut w, "Goblin");
    stats(&mut w, late, 16, 16, 1, 4);
    w.wants_melee.insert(late, WantsToMelee { target: monster });
    let log_len = log.entries.len();
    MeleeCombatSystem::run(&mut w, &mut log);
    assert!(w.suffer_damage.get(monster).is_none());
    assert_eq!(log.entries.len(), log_len);

    // Reaping queues the corpse and the sync point removes it.
    let mut rs = RunState::MonsterTurn;
    delete_the_dead(&mut w, &mut log, &mut rs);
    assert_eq!(rs, RunState::MonsterTurn);
    w.maintain();
    assert!(w.combat_stats.get(monster).is_none());
    assert!(w.names.get(monster).is_none());
    assert!(w.positions.get(monster).is_none());
    assert!(w.combat_stats.get(slayer).is_some());
}

#[test]
fn dead_player_ends_the_game_instead_of_dying() {
    let mut w = World::new();
    let mut log = GameLog::new();
    let player = named(&mut w, "Player");
    stats(&mut w, player, 30, 0, 2, 5);
    w.players.insert(player, Player {});
    let mut rs = RunState::MonsterTurn;
    delete_the_dead(&mut w, &mut log, &mut rs);
    assert_eq!(rs, RunState::GameOver);
    w.maintain();
    assert!(w.combat_stats.get(player).is_some());
}

#[test]
fn equipment_bonuses_change_melee_damage() {
    let mut w = World::new();
    let mut log = GameLog::new();
    let mut map = GameMap::new(10, 10);
    let attacker = named(&mut w, "Hero");
    stats(&mut w, attacker, 30, 30, 2, 5);
    let defender = named(&mut w, "Orc");
    stats(&mut w, defender, 16, 16, 2, 4);
    let sword = w.create_entity();
    w.equipped.insert(
        sword,
        rogue_core::components::Equipped {
            owner: attacker,
            slot: rogue_core::components::EquipmentSlot::Melee,
        },
    );
    w.melee_bonuses
        .insert(sword, rogue_core::components::MeleePowerBonus { power: 2 });
    let shield = w.create_entity();
    w.equipped.insert(
        shield,
        rogue_core::components::Equipped {
            owner: defender,
            slot: rogue_core::components::EquipmentSlot::Shield,
        },
    );
    w.defense_bonuses
        .insert(shield, rogue_core::components::DefenseBonus { defense: 1 });
    w.wants_melee
        .insert(attacker, WantsToMelee { target: defender });
    MeleeCombatSystem::run(&mut w, &mut log);
    DamageSystem::run(&mut w, &mut map);
    // (5 + 2) - (2 + 1) = 4 damage.
    assert_eq!(w.combat_stats.get(defender).unwrap().hp, 12);
}
