use rogue_core::components::CombatStats;
use rogue_core::world::World;

#[test]
fn world_starts_empty() {
    let mut w = World::new();
    assert_eq!(w.entity_count(), 0);
    let e = w.create_entity();
    assert_eq!(e.0, 0);
    w.combat_stats.insert(
        e,
        CombatStats { max_hp: 30, hp: 30, defense: 2, power: 5 },
    );
    assert_eq!(w.combat_stats.get(e).unwrap().hp, 30);
}
