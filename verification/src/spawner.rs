//! Initial entity placement: the player, monsters, and items, with
//! the stock component values each kind carries. Which monster or
//! item appears is decided by dice rolls.

use vstd::prelude::*;

use crate::components::BlocksTile;
use crate::components::Color;
use crate::components::CombatStats;
use crate::components::Consumable;
use crate::components::Entity;
use crate::components::InflictsDamage;
use crate::components::Item;
use crate::components::Monster;
use crate::components::Name;
use crate::components::Player;
use crate::components::Position;
use crate::components::ProvidesHealing;
use crate::components::Ranged;
use crate::components::Renderable;
use crate::components::Viewshed;
use crate::map::MAPWIDTH;
use crate::map::Rect;
use crate::rng::roll_dice;
use crate::world::World;

verus! {

/// The most monsters one room may hold.
pub const MAX_MONSTERS: i32 = 4;

/// The most items one room may hold.
pub const MAX_ITEMS: i32 = 6;

/// Every entity of `w0` keeps all its components in `w1`; `w1` may
/// only have appended new entities.
pub open spec fn world_extends(w0: World, w1: World) -> bool {
    &&& w1.spec_entities() >= w0.spec_entities()
    &&& forall|k: int|
        0 <= k < w0.spec_entities() ==> {
            &&& (#[trigger] w1.positions@[k]) == w0.positions@[k]
            &&& w1.renderables@[k] == w0.renderables@[k]
            &&& w1.players@[k] == w0.players@[k]
            &&& w1.monsters@[k] == w0.monsters@[k]
            &&& w1.blockers@[k] == w0.blockers@[k]
            &&& w1.items@[k] == w0.items@[k]
            &&& w1.consumables@[k] == w0.consumables@[k]
            &&& w1.names@[k] is Some == w0.names@[k] is Some
            &&& w1.viewsheds@[k] is Some == w0.viewsheds@[k] is Some
            &&& w1.combat_stats@[k] == w0.combat_stats@[k]
            &&& w1.suffer_damage@[k] is Some == w0.suffer_damage@[k] is Some
            &&& w1.provides_healing@[k] == w0.provides_healing@[k]
            &&& w1.inflicts_damage@[k] == w0.inflicts_damage@[k]
            &&& w1.ranged@[k] == w0.ranged@[k]
            &&& w1.aoe@[k] == w0.aoe@[k]
            &&& w1.confusion@[k] == w0.confusion@[k]
            &&& w1.equippables@[k] == w0.equippables@[k]
            &&& w1.equipped@[k] == w0.equipped@[k]
            &&& w1.backpacks@[k] == w0.backpacks@[k]
            &&& w1.melee_bonuses@[k] == w0.melee_bonuses@[k]
            &&& w1.defense_bonuses@[k] == w0.defense_bonuses@[k]
            &&& w1.wants_melee@[k] == w0.wants_melee@[k]
            &&& w1.wants_pickup@[k] == w0.wants_pickup@[k]
            &&& w1.wants_use@[k] == w0.wants_use@[k]
            &&& w1.wants_drop@[k] == w0.wants_drop@[k]
            &&& w1.wants_unequip@[k] == w0.wants_unequip@[k]
        }
    &&& w1.pending_deletes@ == w0.pending_deletes@
}

/// Spawns the player entity: position, glyph, tag, combat statistics,
/// name, and a dirty viewshed of range eight.
pub fn player(ecs: &mut World, player_x: i32, player_y: i32) -> (e: Entity)
    requires
        old(ecs).wf(),
        old(ecs).spec_entities() < usize::MAX,
    ensures
        final(ecs).wf(),
        e.0 == old(ecs).spec_entities(),
        final(ecs).spec_entities() == old(ecs).spec_entities() + 1,
        world_extends(*old(ecs), *final(ecs)),
        final(ecs).positions@[e.0 as int] == Some(Position { x: player_x, y: player_y }),
        final(ecs).renderables@[e.0 as int] == Some(
            Renderable {
                glyph: 64,
                fg: Color { r: 255, g: 255, b: 0 },
                bg: Color { r: 0, g: 0, b: 0 },
                render_order: 0,
            },
        ),
        final(ecs).players@[e.0 as int] is Some,
        final(ecs).monsters@[e.0 as int] is None,
        final(ecs).blockers@[e.0 as int] is None,
        final(ecs).items@[e.0 as int] is None,
        final(ecs).combat_stats@[e.0 as int] == Some(
            CombatStats { max_hp: 30, hp: 30, defense: 2, power: 5 },
        ),
        final(ecs).names@[e.0 as int] is Some && final(ecs).names@[e.0 as int]->Some_0.name@
            == "Player"@,
        final(ecs).viewsheds@[e.0 as int] is Some,
        final(ecs).viewsheds@[e.0 as int]->Some_0.range == 8,
        final(ecs).viewsheds@[e.0 as int]->Some_0.dirty == true,
        final(ecs).viewsheds@[e.0 as int]->Some_0.visible_tiles@.len() == 0,
        final(ecs).wants_melee@[e.0 as int] is None,
        final(ecs).suffer_damage@[e.0 as int] is None,
    {
        let e = ecs.create_entity();
        ecs.positions.insert(e, Position { x: player_x, y: player_y });
        ecs.renderables.insert(
            e,
            Renderable {
                glyph: 64,
                fg: Color { r: 255, g: 255, b: 0 },
                bg: Color { r: 0, g: 0, b: 0 },
                render_order: 0,
            },
        );
        ecs.players.insert(e, Player {});
        ecs.combat_stats.insert(e, CombatStats { max_hp: 30, hp: 30, defense: 2, power: 5 });
        ecs.names.insert(e, Name { name: "Player".to_string() });
        ecs.viewsheds.insert(e, Viewshed { visible_tiles: Vec::new(), range: 8, dirty: true });
        e
    }

/// Whether `w1` is `w0` plus one freshly spawned monster at `(x, y)`
/// with the given glyph and name: tagged, blocking, watching, with the
/// stock monster statistics.
pub open spec fn monster_spawned(
    w0: World,
    w1: World,
    x: int,
    y: int,
    glyph: u8,
    name: Seq<char>,
) -> bool {
    let e = w0.spec_entities() as int;
    &&& w1.spec_entities() == w0.spec_entities() + 1
    &&& world_extends(w0, w1)
    &&& w1.positions@[e] == Some(Position { x: x as i32, y: y as i32 })
    &&& w1.renderables@[e] == Some(
        Renderable {
            glyph,
            fg: Color { r: 255, g: 0, b: 0 },
            bg: Color { r: 0, g: 0, b: 0 },
            render_order: 1,
        },
    )
    &&& w1.monsters@[e] is Some
    &&& w1.players@[e] is None
    &&& w1.blockers@[e] is Some
    &&& w1.items@[e] is None
    &&& w1.combat_stats@[e] == Some(CombatStats { max_hp: 16, hp: 16, defense: 1, power: 4 })
    &&& w1.names@[e] is Some && w1.names@[e]->Some_0.name@ == name
    &&& w1.viewsheds@[e] is Some && w1.viewsheds@[e]->Some_0.range == 8 && w1.viewsheds@[
    e]->Some_0.dirty == true
    &&& w1.suffer_damage@[e] is None
    &&& w1.wants_melee@[e] is None
}

/// Spawns one monster with the stock monster components.
fn monster(ecs: &mut World, x: i32, y: i32, glyph: u8, name: String) -> (e: Entity)
    requires
        old(ecs).wf(),
        old(ecs).spec_entities() < usize::MAX,
    ensures
        final(ecs).wf(),
        e.0 == old(ecs).spec_entities(),
        monster_spawned(*old(ecs), *final(ecs), x as int, y as int, glyph, name@),
{
    let e = ecs.create_entity();
    ecs.positions.insert(e, Position { x, y });
    ecs.renderables.insert(
        e,
        Renderable {
            glyph,
            fg: Color { r: 255, g: 0, b: 0 },
            bg: Color { r: 0, g: 0, b: 0 },
            render_order: 1,
        },
    );
    ecs.monsters.insert(e, Monster {});
    ecs.combat_stats.insert(e, CombatStats { max_hp: 16, hp: 16, defense: 1, power: 4 });
    ecs.names.insert(e, Name { name });
    ecs.viewsheds.insert(e, Viewshed { visible_tiles: Vec::new(), range: 8, dirty: true });
    ecs.blockers.insert(e, BlocksTile {});
    e
}

/// Spawns an orc.
pub fn orc(ecs: &mut World, x: i32, y: i32)
    requires
        old(ecs).wf(),
        old(ecs).spec_entities() < usize::MAX,
    ensures
        final(ecs).wf(),
        monster_spawned(*old(ecs), *final(ecs), x as int, y as int, 111, "Orc"@),
{
    monster(ecs, x, y, 111, "Orc".to_string());
}

/// Spawns a goblin.
pub fn goblin(ecs: &mut World, x: i32, y: i32)
    requires
        old(ecs).wf(),
        old(ecs).spec_entities() < usize::MAX,
    ensures
        final(ecs).wf(),
        monster_spawned(*old(ecs), *final(ecs), x as int, y as int, 103, "Goblin"@),
{
    monster(ecs, x, y, 103, "Goblin".to_string());
}

/// Spawns a random monster: an orc or a goblin, by one die roll.
pub fn random_monster(ecs: &mut World, rng: &mut rltk::RandomNumberGenerator, x: i32, y: i32)
    requires
        old(ecs).wf(),
        old(ecs).spec_entities() < usize::MAX,
    ensures
        final(ecs).wf(),
        monster_spawned(*old(ecs), *final(ecs), x as int, y as int, 111, "Orc"@)
            || monster_spawned(*old(ecs), *final(ecs), x as int, y as int, 103, "Goblin"@),
{
    let roll = roll_dice(rng, 1, 2);
    match roll {
        1 => orc(ecs, x, y),
        _ => goblin(ecs, x, y),
    }
}

/// Whether `w1` is `w0` plus one freshly spawned item entity at
/// `(x, y)` with the given name.
pub open spec fn item_spawned(w0: World, w1: World, x: int, y: int, name: Seq<char>) -> bool {
    let e = w0.spec_entities() as int;
    &&& w1.spec_entities() == w0.spec_entities() + 1
    &&& world_extends(w0, w1)
    &&& w1.positions@[e] == Some(Position { x: x as i32, y: y as i32 })
    &&& w1.renderables@[e] is Some && w1.renderables@[e]->Some_0.render_order == 2
    &&& w1.items@[e] is Some
    &&& w1.consumables@[e] is Some
    &&& w1.monsters@[e] is None
    &&& w1.players@[e] is None
    &&& w1.blockers@[e] is None
    &&& w1.combat_stats@[e] is None
    &&& w1.names@[e] is Some && w1.names@[e]->Some_0.name@ == name
}

/// Spawns a health potion: a consumable that heals eight points.
pub fn health_potion(ecs: &mut World, x: i32, y: i32)
    requires
        old(ecs).wf(),
        old(ecs).spec_entities() < usize::MAX,
    ensures
        final(ecs).wf(),
        item_spawned(*old(ecs), *final(ecs), x as int, y as int, "Health Potion"@),
        final(ecs).renderables@[old(ecs).spec_entities() as int] == Some(
            Renderable {
                glyph: 173,
                fg: Color { r: 255, g: 0, b: 255 },
                bg: Color { r: 0, g: 0, b: 0 },
                render_order: 2,
            },
        ),
        final(ecs).provides_healing@[old(ecs).spec_entities() as int] == Some(
            ProvidesHealing { heal_amount: 8 },
        ),
        final(ecs).inflicts_damage@[old(ecs).spec_entities() as int] is None,
{
    let e = ecs.create_entity();
    ecs.positions.insert(e, Position { x, y });
    ecs.renderables.insert(
        e,
        Renderable {
            glyph: 173,
            fg: Color { r: 255, g: 0, b: 255 },
            bg: Color { r: 0, g: 0, b: 0 },
            render_order: 2,
        },
    );
    ecs.names.insert(e, Name { name: "Health Potion".to_string() });
    ecs.items.insert(e, Item {});
    ecs.consumables.insert(e, Consumable {});
    ecs.provides_healing.insert(e, ProvidesHealing { heal_amount: 8 });
}

/// Spawns a magic missile scroll: a ranged consumable that deals
/// eight damage.
pub fn magic_missile_scroll(ecs: &mut World, x: i32, y: i32)
    requires
        old(ecs).wf(),
        old(ecs).spec_entities() < usize::MAX,
    ensures
        final(ecs).wf(),
        item_spawned(*old(ecs), *final(ecs), x as int, y as int, "Magic Missile Scroll"@),
        final(ecs).renderables@[old(ecs).spec_entities() as int] == Some(
            Renderable {
                glyph: 41,
                fg: Color { r: 0, g: 255, b: 255 },
                bg: Color { r: 0, g: 0, b: 0 },
                render_order: 2,
            },
        ),
        final(ecs).inflicts_damage@[old(ecs).spec_entities() as int] == Some(
            InflictsDamage { damage: 8 },
        ),
        final(ecs).ranged@[old(ecs).spec_entities() as int] == Some(Ranged { range: 6 }),
        final(ecs).provides_healing@[old(ecs).spec_entities() as int] is None,
{
    let e = ecs.create_entity();
    ecs.positions.insert(e, Position { x, y });
    ecs.renderables.insert(
        e,
        Renderable {
            glyph: 41,
            fg: Color { r: 0, g: 255, b: 255 },
            bg: Color { r: 0, g: 0, b: 0 },
            render_order: 2,
        },
    );
    ecs.names.insert(e, Name { name: "Magic Missile Scroll".to_string() });
    ecs.items.insert(e, Item {});
    ecs.consumables.insert(e, Consumable {});
    ecs.ranged.insert(e, Ranged { range: 6 });
    ecs.inflicts_damage.insert(e, InflictsDamage { damage: 8 });
}

/// Spawns a random item: a health potion or a magic missile scroll,
/// by one die roll.
pub fn random_item(ecs: &mut World, rng: &mut rltk::RandomNumberGenerator, x: i32, y: i32)
    requires
        old(ecs).wf(),
        old(ecs).spec_entities() < usize::MAX,
    ensures
        final(ecs).wf(),
        item_spawned(*old(ecs), *final(ecs), x as int, y as int, "Health Potion"@) || item_spawned(
            *old(ecs),
            *final(ecs),
            x as int,
            y as int,
            "Magic Missile Scroll"@,
        ),
{
    let roll = roll_dice(rng, 1, 2);
    match roll {
        1 => health_potion(ecs, x, y),
        _ => magic_missile_scroll(ecs, x, y),
    }
}

/// Fills a room with stuff: a random number of monsters and items at
/// distinct random points of the room. Whatever the dice say, the
/// world is only extended, and everything new stands inside the room.
#[verifier::loop_isolation(false)]
#[verifier::rlimit(100)]
pub fn spawn_room(ecs: &mut World, rng: &mut rltk::RandomNumberGenerator, room: &Rect)
    requires
        old(ecs).wf(),
        1 <= room.x1,
        1 <= room.y1,
        room.x1 < room.x2,
        room.y1 < room.y2,
        room.x2 < MAPWIDTH as i32,
        room.y2 * (MAPWIDTH as i32) + room.x2 < usize::MAX,
        old(ecs).spec_entities() + 9 < usize::MAX,
    ensures
        final(ecs).wf(),
        world_extends(*old(ecs), *final(ecs)),
        final(ecs).spec_entities() <= old(ecs).spec_entities() + 9,
        forall|k: int|
            old(ecs).spec_entities() <= k < final(ecs).spec_entities() ==> {
                &&& (#[trigger] final(ecs).positions@[k]) is Some
                &&& room.x1 < final(ecs).positions@[k]->Some_0.x <= room.x2
                &&& room.y1 < final(ecs).positions@[k]->Some_0.y <= room.y2
            },
        monsters_in(
            *final(ecs),
            old(ecs).spec_entities() as int,
            final(ecs).spec_entities() as int,
        ) <= 3,
        items_in(
            *final(ecs),
            old(ecs).spec_entities() as int,
            final(ecs).spec_entities() as int,
        ) <= 5,
        forall|k1: int, k2: int|
            #![trigger final(ecs).monsters@[k1], final(ecs).monsters@[k2]]
            old(ecs).spec_entities() <= k1 < final(ecs).spec_entities()
                && old(ecs).spec_entities() <= k2 < final(ecs).spec_entities()
                && k1 != k2
                && final(ecs).monsters@[k1] is Some
                && final(ecs).monsters@[k2] is Some
                ==> final(ecs).positions@[k1] != final(ecs).positions@[k2],
        forall|k1: int, k2: int|
            #![trigger final(ecs).items@[k1], final(ecs).items@[k2]]
            old(ecs).spec_entities() <= k1 < final(ecs).spec_entities()
                && old(ecs).spec_entities() <= k2 < final(ecs).spec_entities()
                && k1 != k2
                && final(ecs).items@[k1] is Some
                && final(ecs).items@[k2] is Some
                ==> final(ecs).positions@[k1] != final(ecs).positions@[k2],
{
    let num_monsters = roll_dice(rng, 1, MAX_MONSTERS + 2) - 3;
    let num_items = roll_dice(rng, 1, MAX_ITEMS + 2) - 3;
    let mut monster_spawn_points: Vec<usize> = Vec::new();
    let mut item_spawn_points: Vec<usize> = Vec::new();
    let width = room.x2 - room.x1;
    let height = room.y2 - room.y1;

    let mut placed: i32 = 0;
    while placed < num_monsters
        invariant
            0 <= placed <= 3,
            num_monsters <= 3,
            monster_spawn_points@.len() <= placed,
            forall|q: int|
                0 <= q < monster_spawn_points@.len() ==> in_room_index(
                    *room,
                    #[trigger] monster_spawn_points@[q],
                ),
            forall|q1: int, q2: int|
                0 <= q1 < q2 < monster_spawn_points@.len() ==> (
                #[trigger] monster_spawn_points@[q1]) != (#[trigger] monster_spawn_points@[q2]),
        decreases num_monsters - placed,
    {
        let ghost len0 = monster_spawn_points@.len();
        let mut attempts: i32 = 0;
        let mut added = false;
        while !added && attempts < 100
            invariant
                monster_spawn_points@.len() == len0 + if added {
                    1int
                } else {
                    0int
                },
                forall|q: int|
                    0 <= q < monster_spawn_points@.len() ==> in_room_index(
                        *room,
                        #[trigger] monster_spawn_points@[q],
                    ),
                forall|q1: int, q2: int|
                    0 <= q1 < q2 < monster_spawn_points@.len() ==> (
                    #[trigger] monster_spawn_points@[q1]) != (
                    #[trigger] monster_spawn_points@[q2]),
                0 <= attempts,
            decreases 100 - attempts,
        {
            let x = (room.x1 + roll_dice(rng, 1, width)) as usize;
            let y = (room.y1 + roll_dice(rng, 1, height)) as usize;
            proof {
                assert((y as int) * (MAPWIDTH as int) + (x as int) <= (room.y2 as int) * (
                MAPWIDTH as int) + (room.x2 as int)) by (nonlinear_arith)
                    requires
                        (y as int) <= room.y2 as int,
                        (x as int) <= room.x2 as int,
                        0 < (MAPWIDTH as int),
                        0 <= (y as int),
                        0 <= (x as int),
                ;
            }
            let idx = (y * MAPWIDTH) + x;
            if !contains_usize(&monster_spawn_points, idx) {
                monster_spawn_points.push(idx);
                added = true;
                proof {
                    assert(in_room_index(*room, idx));
                }
            }
            attempts = attempts + 1;
        }
        placed = placed + 1;
    }

    let mut placed_items: i32 = 0;
    while placed_items < num_items
        invariant
            0 <= placed_items <= 5,
            num_items <= 5,
            item_spawn_points@.len() <= placed_items,
            forall|q: int|
                0 <= q < item_spawn_points@.len() ==> in_room_index(
                    *room,
                    #[trigger] item_spawn_points@[q],
                ),
            forall|q1: int, q2: int|
                0 <= q1 < q2 < item_spawn_points@.len() ==> (#[trigger] item_spawn_points@[q1])
                    != (#[trigger] item_spawn_points@[q2]),
        decreases num_items - placed_items,
    {
        let ghost len0 = item_spawn_points@.len();
        let mut attempts: i32 = 0;
        let mut added = false;
        while !added && attempts < 100
            invariant
                item_spawn_points@.len() == len0 + if added {
                    1int
                } else {
                    0int
                },
                forall|q: int|
                    0 <= q < item_spawn_points@.len() ==> in_room_index(
                        *room,
                        #[trigger] item_spawn_points@[q],
                    ),
                forall|q1: int, q2: int|
                    0 <= q1 < q2 < item_spawn_points@.len() ==> (#[trigger] item_spawn_points@[q1])
                        != (#[trigger] item_spawn_points@[q2]),
                0 <= attempts,
            decreases 100 - attempts,
        {
            let x = (room.x1 + roll_dice(rng, 1, width)) as usize;
            let y = (room.y1 + roll_dice(rng, 1, height)) as usize;
            proof {
                assert((y as int) * (MAPWIDTH as int) + (x as int) <= (room.y2 as int) * (
                MAPWIDTH as int) + (room.x2 as int)) by (nonlinear_arith)
                    requires
                        (y as int) <= room.y2 as int,
                        (x as int) <= room.x2 as int,
                        0 < (MAPWIDTH as int),
                        0 <= (y as int),
                        0 <= (x as int),
                ;
            }
            let idx = (y * MAPWIDTH) + x;
            if !contains_usize(&item_spawn_points, idx) {
                item_spawn_points.push(idx);
                added = true;
                proof {
                    assert(in_room_index(*room, idx));
                }
            }
            attempts = attempts + 1;
        }
        placed_items = placed_items + 1;
    }

    let ghost w0 = *old(ecs);
    let ghost lo = w0.spec_entities() as int;
    let nm = monster_spawn_points.len();
    let mut i: usize = 0;
    while i < nm
        invariant
            ecs.wf(),
            i <= nm,
            nm == monster_spawn_points@.len(),
            nm <= 3,
            world_extends(w0, *ecs),
            ecs.spec_entities() <= w0.spec_entities() + i,
            w0.spec_entities() + 9 < usize::MAX,
            lo == w0.spec_entities() as int,
            forall|q: int|
                0 <= q < monster_spawn_points@.len() ==> in_room_index(
                    *room,
                    #[trigger] monster_spawn_points@[q],
                ),
            forall|q1: int, q2: int|
                0 <= q1 < q2 < monster_spawn_points@.len() ==> (
                #[trigger] monster_spawn_points@[q1]) != (#[trigger] monster_spawn_points@[q2]),
            monsters_in(*ecs, lo, ecs.spec_entities() as int) <= i,
            items_in(*ecs, lo, ecs.spec_entities() as int) == 0,
            forall|k: int|
                lo <= k < ecs.spec_entities() ==> (#[trigger] ecs.items@[k]) is None,
            forall|k: int|
                lo <= k < ecs.spec_entities() ==> {
                    &&& (#[trigger] ecs.positions@[k]) is Some
                    &&& room.x1 < ecs.positions@[k]->Some_0.x <= room.x2
                    &&& room.y1 < ecs.positions@[k]->Some_0.y <= room.y2
                },
            forall|k: int|
                lo <= k < ecs.spec_entities() ==> exists|j: int|
                    0 <= j < i && (#[trigger] ecs.positions@[k]) == Some(
                        point_pos(#[trigger] monster_spawn_points@[j]),
                    ),
            forall|k1: int, k2: int|
                #![trigger ecs.positions@[k1], ecs.positions@[k2]]
                lo <= k1 < ecs.spec_entities() && lo <= k2 < ecs.spec_entities() && k1 != k2
                    ==> ecs.positions@[k1] != ecs.positions@[k2],
        decreases nm - i,
    {
        let idx = monster_spawn_points[i];
        let x = (idx % MAPWIDTH) as i32;
        let y = (idx / MAPWIDTH) as i32;
        proof {
            lemma_room_index_coords(*room, idx);
        }
        let ghost w_pre = *ecs;
        random_monster(ecs, rng, x, y);
        i = i + 1;
        proof {
            lemma_world_extends_trans(w0, w_pre, *ecs);
            let npre = w_pre.spec_entities() as int;
            assert(ecs.spec_entities() == npre + 1);
            assert forall|k: int|
                lo <= k < npre implies ecs.monsters@[k] == w_pre.monsters@[k] && ecs.items@[k]
                    == w_pre.items@[k] && ecs.positions@[k] == w_pre.positions@[k] by {
                assert(ecs.positions@[k] == w_pre.positions@[k]);
            }
            lemma_monsters_in_congruent(*ecs, w_pre, lo, npre);
            lemma_items_in_congruent(*ecs, w_pre, lo, npre);
            assert(monsters_in(*ecs, lo, npre + 1) == monsters_in(*ecs, lo, npre) + 1);
            assert(items_in(*ecs, lo, npre + 1) == items_in(*ecs, lo, npre));
            assert(x as int == (idx as int) % (MAPWIDTH as int));
            assert(y as int == (idx as int) / (MAPWIDTH as int));
            assert(ecs.positions@[npre] == Some(point_pos(monster_spawn_points@[i - 1])));
            assert forall|k: int|
                lo <= k < ecs.spec_entities() implies (#[trigger] ecs.items@[k]) is None by {
                if k < npre {
                    assert(ecs.items@[k] == w_pre.items@[k]);
                } else {
                    assert(k == npre);
                }
            }
            assert forall|k: int|
                lo <= k < ecs.spec_entities() implies {
                &&& (#[trigger] ecs.positions@[k]) is Some
                &&& room.x1 < ecs.positions@[k]->Some_0.x <= room.x2
                &&& room.y1 < ecs.positions@[k]->Some_0.y <= room.y2
            } by {
                if k < npre {
                    assert(ecs.positions@[k] == w_pre.positions@[k]);
                } else {
                    assert(k == npre);
                }
            }
            assert forall|k: int|
                lo <= k < ecs.spec_entities() implies exists|j: int|
                0 <= j < i && (#[trigger] ecs.positions@[k]) == Some(
                    point_pos(#[trigger] monster_spawn_points@[j]),
                ) by {
                if k < npre {
                    assert(ecs.positions@[k] == w_pre.positions@[k]);
                    let j0 = choose|j: int|
                        0 <= j < i - 1 && w_pre.positions@[k] == Some(
                            point_pos(#[trigger] monster_spawn_points@[j]),
                        );
                    assert(0 <= j0 < i && ecs.positions@[k] == Some(
                        point_pos(monster_spawn_points@[j0]),
                    ));
                } else {
                    assert(0 <= i - 1 < i && ecs.positions@[k] == Some(
                        point_pos(monster_spawn_points@[i - 1]),
                    ));
                }
            }
            assert forall|k1: int, k2: int|
                #![trigger ecs.positions@[k1], ecs.positions@[k2]]
                lo <= k1 < ecs.spec_entities() && lo <= k2 < ecs.spec_entities() && k1 != k2
                    implies ecs.positions@[k1] != ecs.positions@[k2] by {
                if k1 < npre && k2 < npre {
                    assert(ecs.positions@[k1] == w_pre.positions@[k1]);
                    assert(ecs.positions@[k2] == w_pre.positions@[k2]);
                } else if k1 == npre {
                    assert(ecs.positions@[k2] == w_pre.positions@[k2]);
                    let j0 = choose|j: int|
                        0 <= j < i - 1 && w_pre.positions@[k2] == Some(
                            point_pos(#[trigger] monster_spawn_points@[j]),
                        );
                    lemma_point_pos_injective(
                        *room,
                        monster_spawn_points@[j0],
                        monster_spawn_points@[i - 1],
                    );
                } else {
                    assert(k2 == npre);
                    assert(ecs.positions@[k1] == w_pre.positions@[k1]);
                    let j0 = choose|j: int|
                        0 <= j < i - 1 && w_pre.positions@[k1] == Some(
                            point_pos(#[trigger] monster_spawn_points@[j]),
                        );
                    lemma_point_pos_injective(
                        *room,
                        monster_spawn_points@[j0],
                        monster_spawn_points@[i - 1],
                    );
                }
            }
        }
    }

    let ni = item_spawn_points.len();
    let mut i2: usize = 0;
    while i2 < ni
        invariant
            ecs.wf(),
            i2 <= ni,
            ni == item_spawn_points@.len(),
            ni <= 5,
            world_extends(w0, *ecs),
            ecs.spec_entities() <= w0.spec_entities() + nm + i2,
            nm <= 3,
            w0.spec_entities() + 9 < usize::MAX,
            lo == w0.spec_entities() as int,
            forall|q: int|
                0 <= q < item_spawn_points@.len() ==> in_room_index(
                    *room,
                    #[trigger] item_spawn_points@[q],
                ),
            forall|q1: int, q2: int|
                0 <= q1 < q2 < item_spawn_points@.len() ==> (#[trigger] item_spawn_points@[q1])
                    != (#[trigger] item_spawn_points@[q2]),
            monsters_in(*ecs, lo, ecs.spec_entities() as int) <= 3,
            items_in(*ecs, lo, ecs.spec_entities() as int) <= i2,
            forall|k: int|
                lo <= k < ecs.spec_entities() ==> {
                    &&& (#[trigger] ecs.positions@[k]) is Some
                    &&& room.x1 < ecs.positions@[k]->Some_0.x <= room.x2
                    &&& room.y1 < ecs.positions@[k]->Some_0.y <= room.y2
                },
            forall|k: int|
                lo <= k < ecs.spec_entities() && (#[trigger] ecs.items@[k]) is Some
                    ==> exists|j: int|
                    0 <= j < i2 && ecs.positions@[k] == Some(
                        point_pos(#[trigger] item_spawn_points@[j]),
                    ),
            forall|k1: int, k2: int|
                #![trigger ecs.monsters@[k1], ecs.monsters@[k2]]
                lo <= k1 < ecs.spec_entities() && lo <= k2 < ecs.spec_entities() && k1 != k2
                    && ecs.monsters@[k1] is Some && ecs.monsters@[k2] is Some
                    ==> ecs.positions@[k1] != ecs.positions@[k2],
            forall|k1: int, k2: int|
                #![trigger ecs.items@[k1], ecs.items@[k2]]
                lo <= k1 < ecs.spec_entities() && lo <= k2 < ecs.spec_entities() && k1 != k2
                    && ecs.items@[k1] is Some && ecs.items@[k2] is Some ==> ecs.positions@[k1]
                    != ecs.positions@[k2],
        decreases ni - i2,
    {
        let idx = item_spawn_points[i2];
        let x = (idx % MAPWIDTH) as i32;
        let y = (idx / MAPWIDTH) as i32;
        proof {
            lemma_room_index_coords(*room, idx);
        }
        let ghost w_pre = *ecs;
        random_item(ecs, rng, x, y);
        i2 = i2 + 1;
        proof {
            lemma_world_extends_trans(w0, w_pre, *ecs);
            let npre = w_pre.spec_entities() as int;
            assert(ecs.spec_entities() == npre + 1);
            assert forall|k: int|
                lo <= k < npre implies ecs.monsters@[k] == w_pre.monsters@[k] && ecs.items@[k]
                    == w_pre.items@[k] && ecs.positions@[k] == w_pre.positions@[k] by {
                assert(ecs.positions@[k] == w_pre.positions@[k]);
            }
            lemma_monsters_in_congruent(*ecs, w_pre, lo, npre);
            lemma_items_in_congruent(*ecs, w_pre, lo, npre);
            assert(monsters_in(*ecs, lo, npre + 1) == monsters_in(*ecs, lo, npre));
            assert(items_in(*ecs, lo, npre + 1) == items_in(*ecs, lo, npre) + 1);
            assert(x as int == (idx as int) % (MAPWIDTH as int));
            assert(y as int == (idx as int) / (MAPWIDTH as int));
            assert(ecs.positions@[npre] == Some(point_pos(item_spawn_points@[i2 - 1])));
            assert forall|k: int|
                lo <= k < ecs.spec_entities() implies {
                &&& (#[trigger] ecs.positions@[k]) is Some
                &&& room.x1 < ecs.positions@[k]->Some_0.x <= room.x2
                &&& room.y1 < ecs.positions@[k]->Some_0.y <= room.y2
            } by {
                if k < npre {
                    assert(ecs.positions@[k] == w_pre.positions@[k]);
                } else {
                    assert(k == npre);
                }
            }
            assert forall|k: int|
                lo <= k < ecs.spec_entities() && (#[trigger] ecs.items@[k]) is Some
                implies exists|j: int|
                0 <= j < i2 && ecs.positions@[k] == Some(
                    point_pos(#[trigger] item_spawn_points@[j]),
                ) by {
                if k < npre {
                    assert(ecs.items@[k] == w_pre.items@[k]);
                    assert(ecs.positions@[k] == w_pre.positions@[k]);
                    let j0 = choose|j: int|
                        0 <= j < i2 - 1 && w_pre.positions@[k] == Some(
                            point_pos(#[trigger] item_spawn_points@[j]),
                        );
                    assert(0 <= j0 < i2 && ecs.positions@[k] == Some(
                        point_pos(item_spawn_points@[j0]),
                    ));
                } else {
                    assert(0 <= i2 - 1 < i2 && ecs.positions@[k] == Some(
                        point_pos(item_spawn_points@[i2 - 1]),
                    ));
                }
            }
            assert forall|k1: int, k2: int|
                #![trigger ecs.monsters@[k1], ecs.monsters@[k2]]
                lo <= k1 < ecs.spec_entities() && lo <= k2 < ecs.spec_entities() && k1 != k2
                    && ecs.monsters@[k1] is Some && ecs.monsters@[k2] is Some
                    implies ecs.positions@[k1] != ecs.positions@[k2] by {
                assert(!(ecs.monsters@[npre] is Some));
                assert(k1 < npre && k2 < npre);
                assert(ecs.monsters@[k1] == w_pre.monsters@[k1]);
                assert(ecs.monsters@[k2] == w_pre.monsters@[k2]);
                assert(ecs.positions@[k1] == w_pre.positions@[k1]);
                assert(ecs.positions@[k2] == w_pre.positions@[k2]);
            }
            assert forall|k1: int, k2: int|
                #![trigger ecs.items@[k1], ecs.items@[k2]]
                lo <= k1 < ecs.spec_entities() && lo <= k2 < ecs.spec_entities() && k1 != k2
                    && ecs.items@[k1] is Some && ecs.items@[k2] is Some
                    implies ecs.positions@[k1] != ecs.positions@[k2] by {
                if k1 < npre && k2 < npre {
                    assert(ecs.items@[k1] == w_pre.items@[k1]);
                    assert(ecs.items@[k2] == w_pre.items@[k2]);
                    assert(ecs.positions@[k1] == w_pre.positions@[k1]);
                    assert(ecs.positions@[k2] == w_pre.positions@[k2]);
                } else if k1 == npre {
                    assert(ecs.items@[k2] == w_pre.items@[k2]);
                    assert(ecs.positions@[k2] == w_pre.positions@[k2]);
                    let j0 = choose|j: int|
                        0 <= j < i2 - 1 && w_pre.positions@[k2] == Some(
                            point_pos(#[trigger] item_spawn_points@[j]),
                        );
                    lemma_point_pos_injective(
                        *room,
                        item_spawn_points@[j0],
                        item_spawn_points@[i2 - 1],
                    );
                } else {
                    assert(k2 == npre);
                    assert(ecs.items@[k1] == w_pre.items@[k1]);
                    assert(ecs.positions@[k1] == w_pre.positions@[k1]);
                    let j0 = choose|j: int|
                        0 <= j < i2 - 1 && w_pre.positions@[k1] == Some(
                            point_pos(#[trigger] item_spawn_points@[j]),
                        );
                    lemma_point_pos_injective(
                        *room,
                        item_spawn_points@[j0],
                        item_spawn_points@[i2 - 1],
                    );
                }
            }
        }
    }
}

/// Extending a world twice extends it.
pub proof fn lemma_world_extends_trans(a: World, b: World, c: World)
    requires
        world_extends(a, b),
        world_extends(b, c),
    ensures
        world_extends(a, c),
{
}

/// Whether spawn-point index `idx` encodes a tile strictly inside
/// `room` on the standard map width.
pub open spec fn in_room_index(room: Rect, idx: usize) -> bool {
    exists|x: int, y: int|
        room.x1 < x <= room.x2 && room.y1 < y <= room.y2 && idx == #[trigger] (y * (
        MAPWIDTH as int) + x)
}

/// Decodes a spawn-point index back into its coordinates.
proof fn lemma_room_index_coords(room: Rect, idx: usize)
    requires
        in_room_index(room, idx),
        1 <= room.x1,
        1 <= room.y1,
        room.x2 < MAPWIDTH as int,
    ensures
        room.x1 < (idx as int) % (MAPWIDTH as int) <= room.x2,
        room.y1 < (idx as int) / (MAPWIDTH as int) <= room.y2,
{
    let (x, y) = choose|x: int, y: int|
        room.x1 < x <= room.x2 && room.y1 < y <= room.y2 && idx == #[trigger] (y * (
        MAPWIDTH as int) + x);
    assert((y * (MAPWIDTH as int) + x) % (MAPWIDTH as int) == x && (y * (MAPWIDTH as int) + x) / (
    MAPWIDTH as int) == y) by (nonlinear_arith)
        requires
            0 <= x < MAPWIDTH as int,
            0 <= y,
    ;
}

/// How many entities in `lo..hi` carry the monster tag.
pub open spec fn monsters_in(w: World, lo: int, hi: int) -> int
    decreases hi - lo,
{
    if hi <= lo {
        0
    } else {
        monsters_in(w, lo, hi - 1) + if w.monsters@[hi - 1] is Some {
            1int
        } else {
            0int
        }
    }
}

/// How many entities in `lo..hi` carry the item tag.
pub open spec fn items_in(w: World, lo: int, hi: int) -> int
    decreases hi - lo,
{
    if hi <= lo {
        0
    } else {
        items_in(w, lo, hi - 1) + if w.items@[hi - 1] is Some {
            1int
        } else {
            0int
        }
    }
}

/// Tag counts depend only on the tag slots of the counted range.
proof fn lemma_monsters_in_congruent(w1: World, w2: World, lo: int, hi: int)
    requires
        forall|k: int| lo <= k < hi ==> w1.monsters@[k] == w2.monsters@[k],
    ensures
        monsters_in(w1, lo, hi) == monsters_in(w2, lo, hi),
    decreases hi - lo,
{
    if hi > lo {
        lemma_monsters_in_congruent(w1, w2, lo, hi - 1);
    }
}

proof fn lemma_items_in_congruent(w1: World, w2: World, lo: int, hi: int)
    requires
        forall|k: int| lo <= k < hi ==> w1.items@[k] == w2.items@[k],
    ensures
        items_in(w1, lo, hi) == items_in(w2, lo, hi),
    decreases hi - lo,
{
    if hi > lo {
        lemma_items_in_congruent(w1, w2, lo, hi - 1);
    }
}

/// The tile coordinates a spawn-point index decodes to.
pub open spec fn point_pos(idx: usize) -> Position {
    Position {
        x: ((idx as int) % (MAPWIDTH as int)) as i32,
        y: ((idx as int) / (MAPWIDTH as int)) as i32,
    }
}

/// Distinct in-room spawn-point indices decode to distinct tiles.
proof fn lemma_point_pos_injective(room: Rect, idx1: usize, idx2: usize)
    requires
        in_room_index(room, idx1),
        in_room_index(room, idx2),
        1 <= room.x1,
        1 <= room.y1,
        room.x2 < MAPWIDTH as int,
        idx1 != idx2,
    ensures
        point_pos(idx1) != point_pos(idx2),
{
    lemma_room_index_coords(room, idx1);
    lemma_room_index_coords(room, idx2);
    assert((idx1 as int) == ((idx1 as int) / (MAPWIDTH as int)) * (MAPWIDTH as int) + (idx1 as int)
        % (MAPWIDTH as int)) by (nonlinear_arith)
        requires
            0 < (MAPWIDTH as int),
            0 <= (idx1 as int),
    ;
    assert((idx2 as int) == ((idx2 as int) / (MAPWIDTH as int)) * (MAPWIDTH as int) + (idx2 as int)
        % (MAPWIDTH as int)) by (nonlinear_arith)
        requires
            0 < (MAPWIDTH as int),
            0 <= (idx2 as int),
    ;
}

/// Whether the list already holds the index.
fn contains_usize(v: &Vec<usize>, needle: usize) -> (r: bool)
    ensures
        r == v@.contains(needle),
{
    let n = v.len();
    let mut k: usize = 0;
    while k < n
        invariant
            k <= n,
            n == v@.len(),
            forall|q: int| 0 <= q < k ==> v@[q] != needle,
        decreases n - k,
    {
        if v[k] == needle {
            proof {
                assert(v@.contains(needle));
            }
            return true;
        }
        k = k + 1;
    }
    proof {
        assert(!v@.contains(needle)) by {
            if v@.contains(needle) {
                let q = choose|q: int| 0 <= q < v@.len() && v@[q] == needle;
                assert(v@[q] != needle);
            }
        }
    }
    false
}

} // verus!
