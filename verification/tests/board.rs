//! Map, indexing, visibility, monster AI, player movement, spawning,
//! and turn-phase scenarios.

use rogue_core::components::BlocksTile;
use rogue_core::components::CombatStats;
use rogue_core::components::Monster;
use rogue_core::components::Name;
use rogue_core::components::Player;
use rogue_core::components::Position;
use rogue_core::components::RunState;
use rogue_core::components::Viewshed;
use rogue_core::map::GameMap;
use rogue_core::map::TileType;
use rogue_core::map::MAPCOUNT;
use rogue_core::map::MAPHEIGHT;
use rogue_core::map::MAPWIDTH;
use rogue_core::map_indexing_system::MapIndexingSystem;
use rogue_core::monster_ai_system::monsters_to_act;
use rogue_core::monster_ai_system::MonsterAI;
use rogue_core::monster_ai_system::MonsterAction;
use rogue_core::player::try_move_player;
use rogue_core::state::pipeline_should_run;
use rogue_core::state::run_state_after_pipeline;
use rogue_core::visibility_system::visibility_requests;
use rogue_core::visibility_system::VisibilitySystem;
use rogue_core::world::World;
use rogue_core::Entity;

fn floor_map(w: i32, h: i32) -> GameMap {
    let mut map = GameMap::new(w, h);
    let mut room = rogue_core::map::Rect::new(0, 0, w - 1, h - 1);
    room.x2 = w - 2;
    room.y2 = h - 2;
    map.apply_room_to_map(&room);
    map
}

#[test]
fn map_indexing_is_idempotent() {
    // Running the rebuild twice with no position change yields the
    // same blocked and content arrays.
    let mut w = World::new();
    let blocker = w.create_entity();
    w.positions.insert(blocker, Position { x: 3, y: 3 });
    w.blockers.insert(blocker, BlocksTile {});
    let bystander = w.create_entity();
    w.positions.insert(bystander, Position { x: 4, y: 3 });

    let mut map = floor_map(10, 10);
    MapIndexingSystem::run(&w, &mut map);
    let blocked_once = map.blocked.clone();
    let content_once = map.tile_content.clone();
    MapIndexingSystem::run(&w, &mut map);
    assert_eq!(map.blocked, blocked_once);
    assert_eq!(map.tile_content, content_once);

    let idx = map.xy_idx(3, 3);
    assert!(map.blocked[idx]);
    assert_eq!(map.tile_content[idx], vec![blocker]);
    let idx2 = map.xy_idx(4, 3);
    assert!(!map.blocked[idx2]);
    assert_eq!(map.tile_content[idx2], vec![bystander]);
}

#[test]
fn generated_map_has_rooms_and_walled_border() {
    let map = rogue_core::map::GameMap::new_map_rooms_and_corridors();
    assert_eq!(map.width as usize, MAPWIDTH);
    assert_eq!(map.height as usize, MAPHEIGHT);
    assert_eq!(map.tiles.len(), MAPCOUNT);
    assert!(!map.rooms.is_empty() && map.rooms.len() <= 30);
    for x in 0..map.width {
        assert_eq!(map.tiles[(x as usize)], TileType::Wall);
        let bottom = (map.height - 1) as usize * MAPWIDTH + x as usize;
        assert_eq!(map.tiles[bottom], TileType::Wall);
    }
    // Every room's interior is carved to floor.
    for room in &map.rooms {
        let (cx, cy) = ((room.x1 + room.x2) / 2, (room.y1 + room.y2) / 2);
        let idx = (cy as usize) * MAPWIDTH + cx as usize;
        assert_eq!(map.tiles[idx], TileType::Floor);
    }
    // Consecutive rooms are joined by an L-shaped floor corridor
    // through their centers, in one of the two orientations.
    for pair in map.rooms.windows(2) {
        let (px, py) = ((pair[0].x1 + pair[0].x2) / 2, (pair[0].y1 + pair[0].y2) / 2);
        let (nx, ny) = ((pair[1].x1 + pair[1].x2) / 2, (pair[1].y1 + pair[1].y2) / 2);
        let l_first = h_leg_floor(&map, px, nx, py) && v_leg_floor(&map, py, ny, nx);
        let l_second = h_leg_floor(&map, px, nx, ny) && v_leg_floor(&map, py, ny, px);
        assert!(l_first || l_second);
    }
}

fn h_leg_floor(map: &GameMap, x1: i32, x2: i32, y: i32) -> bool {
    let (lo, hi) = (x1.min(x2), x1.max(x2));
    (lo..=hi).all(|x| map.tiles[(y as usize) * MAPWIDTH + x as usize] == TileType::Floor)
}

fn v_leg_floor(map: &GameMap, y1: i32, y2: i32, x: i32) -> bool {
    let (lo, hi) = (y1.min(y2), y1.max(y2));
    (lo..=hi).all(|y| map.tiles[(y as usize) * MAPWIDTH + x as usize] == TileType::Floor)
}

#[test]
fn visibility_apply_clips_and_reveals_for_player() {
    let mut w = World::new();
    let mut map = floor_map(10, 10);
    let player = w.create_entity();
    w.players.insert(player, Player {});
    w.positions.insert(player, Position { x: 2, y: 2 });
    w.viewsheds.insert(
        player,
        Viewshed {
            visible_tiles: Vec::new(),
            range: 8,
            dirty: true,
        },
    );
    let requests = visibility_requests(&w);
    assert_eq!(requests.len(), 1);
    assert_eq!(requests[0].0, player);
    assert_eq!(requests[0].1, Position { x: 2, y: 2 });
    assert_eq!(requests[0].2, 8);

    // The service's raw answer, with one border tile to be clipped.
    let tiles = vec![(2, 2), (3, 2), (0, 2)];
    VisibilitySystem::apply(&mut w, &mut map, player, &tiles);
    let vs = w.viewsheds.get(player).unwrap();
    assert!(!vs.dirty);
    let a = map.xy_idx(2, 2);
    let b = map.xy_idx(3, 2);
    let c = map.xy_idx(0, 2);
    assert_eq!(vs.visible_tiles, vec![a, b]);
    assert!(map.visible_tiles[a] && map.visible_tiles[b]);
    assert!(!map.visible_tiles[c]);
    assert!(map.revealed_tiles[a] && map.revealed_tiles[b]);
    assert!(!map.revealed_tiles[c]);

    // Requests disappear once the viewshed is clean.
    assert!(visibility_requests(&w).is_empty());
}

#[test]
fn monster_decisions_follow_sight_and_distance() {
    let mut w = World::new();
    let mut map = floor_map(12, 12);
    let player_pos = Position { x: 5, y: 5 };
    let monster = w.create_entity();
    w.monsters.insert(monster, Monster {});
    w.positions.insert(monster, Position { x: 6, y: 6 });
    let player_idx = map.xy_idx(player_pos.x, player_pos.y);
    w.viewsheds.insert(
        monster,
        Viewshed {
            visible_tiles: vec![player_idx],
            range: 8,
            dirty: false,
        },
    );
    // Adjacent and seeing the player: melee.
    assert_eq!(
        MonsterAI::choice(&w, &map, player_pos, monster),
        MonsterAction::Melee
    );
    // Farther away: pursue from its tile to the player's tile.
    w.positions.insert(monster, Position { x: 9, y: 6 });
    let from = map.xy_idx(9, 6);
    assert_eq!(
        MonsterAI::choice(&w, &map, player_pos, monster),
        MonsterAction::Pursue {
            from,
            to: player_idx
        }
    );
    // Not seeing the player: wait.
    w.viewsheds.insert(
        monster,
        Viewshed {
            visible_tiles: Vec::new(),
            range: 8,
            dirty: false,
        },
    );
    assert_eq!(
        MonsterAI::choice(&w, &map, player_pos, monster),
        MonsterAction::Wait
    );

    // The acting list is empty outside the monster turn.
    assert!(monsters_to_act(&w, RunState::PlayerTurn).is_empty());
    assert_eq!(monsters_to_act(&w, RunState::MonsterTurn), vec![monster]);

    // A pursuit step swaps the blocked tiles and dirties the viewshed.
    MapIndexingSystem::run(&w, &mut map);
    let dest = map.xy_idx(8, 6);
    MonsterAI::apply_move(&mut w, &mut map, monster, dest);
    assert_eq!(w.positions.get(monster).unwrap(), &Position { x: 8, y: 6 });
    assert!(!map.blocked[from]);
    assert!(map.blocked[dest]);
    assert!(w.viewsheds.get(monster).unwrap().dirty);
}

#[test]
fn player_movement_attacks_blocks_and_walks() {
    let mut w = World::new();
    let mut map = floor_map(10, 10);
    let player = w.create_entity();
    w.players.insert(player, Player {});
    w.positions.insert(player, Position { x: 2, y: 2 });
    w.viewsheds.insert(
        player,
        Viewshed {
            visible_tiles: Vec::new(),
            range: 8,
            dirty: false,
        },
    );
    let mut player_pos = Position { x: 2, y: 2 };

    // Walking into an open tile moves and dirties the viewshed.
    MapIndexingSystem::run(&w, &mut map);
    try_move_player(&mut w, &map, player, &mut player_pos, 1, 0);
    assert_eq!(w.positions.get(player).unwrap(), &Position { x: 3, y: 2 });
    assert_eq!(player_pos, Position { x: 3, y: 2 });
    assert!(w.viewsheds.get(player).unwrap().dirty);

    // Walking into something with combat statistics attacks instead.
    let orc = w.create_entity();
    w.names.insert(
        orc,
        Name {
            name: "Orc".to_string(),
        },
    );
    w.combat_stats.insert(
        orc,
        CombatStats {
            max_hp: 16,
            hp: 16,
            defense: 1,
            power: 4,
        },
    );
    w.positions.insert(orc, Position { x: 4, y: 2 });
    MapIndexingSystem::run(&w, &mut map);
    try_move_player(&mut w, &map, player, &mut player_pos, 1, 0);
    assert_eq!(w.wants_melee.get(player).unwrap().target, orc);
    assert_eq!(w.positions.get(player).unwrap(), &Position { x: 3, y: 2 });

    // Walking into a wall does nothing.
    w.wants_melee.remove(player);
    try_move_player(&mut w, &map, player, &mut player_pos, 0, -1);
    assert_eq!(w.positions.get(player).unwrap(), &Position { x: 3, y: 1 });
    try_move_player(&mut w, &map, player, &mut player_pos, 0, -1);
    assert_eq!(w.positions.get(player).unwrap(), &Position { x: 3, y: 1 });
}

#[test]
fn spawner_builds_the_stock_entities() {
    let mut w = World::new();
    let player = rogue_core::spawner::player(&mut w, 10, 12);
    assert_eq!(
        w.positions.get(player).unwrap(),
        &Position { x: 10, y: 12 }
    );
    assert_eq!(w.names.get(player).unwrap().name, "Player");
    let st = w.combat_stats.get(player).unwrap();
    assert_eq!((st.max_hp, st.hp, st.defense, st.power), (30, 30, 2, 5));
    assert!(w.players.get(player).is_some());
    assert!(w.viewsheds.get(player).unwrap().dirty);

    let before = w.entity_count();
    let mut rng = rltk::RandomNumberGenerator::new();
    rogue_core::spawner::random_monster(&mut w, &mut rng, 4, 4);
    let m = Entity(before);
    assert!(w.monsters.get(m).is_some());
    assert!(w.blockers.get(m).is_some());
    let name = &w.names.get(m).unwrap().name;
    assert!(name == "Orc" || name == "Goblin");

    let before_item = w.entity_count();
    rogue_core::spawner::random_item(&mut w, &mut rng, 5, 5);
    let it = Entity(before_item);
    assert!(w.items.get(it).is_some());
    assert!(w.consumables.get(it).is_some());
    let iname = &w.names.get(it).unwrap().name;
    assert!(iname == "Health Potion" || iname == "Magic Missile Scroll");

    let room = rogue_core::map::Rect::new(2, 2, 6, 6);
    let before_room = w.entity_count();
    rogue_core::spawner::spawn_room(&mut w, &mut rng, &room);
    let fresh: Vec<Entity> = (before_room..w.entity_count()).map(Entity).collect();
    for e in &fresh {
        let p = w.positions.get(*e).unwrap();
        assert!(room.x1 < p.x && p.x <= room.x2);
        assert!(room.y1 < p.y && p.y <= room.y2);
    }
    // Per-kind caps and distinct per-kind tiles.
    let monsters: Vec<Entity> = fresh
        .iter()
        .copied()
        .filter(|e| w.monsters.get(*e).is_some())
        .collect();
    let items: Vec<Entity> = fresh
        .iter()
        .copied()
        .filter(|e| w.items.get(*e).is_some())
        .collect();
    assert!(monsters.len() <= 3);
    assert!(items.len() <= 5);
    for group in [&monsters, &items] {
        for (a, b) in group
            .iter()
            .enumerate()
            .flat_map(|(q, a)| group.iter().skip(q + 1).map(move |b| (*a, *b)))
        {
            assert_ne!(w.positions.get(a).unwrap(), w.positions.get(b).unwrap());
        }
    }
}

#[test]
fn turn_phases_cycle_and_menus_post_intents() {
    assert!(pipeline_should_run(RunState::PreRun));
    assert!(pipeline_should_run(RunState::PlayerTurn));
    assert!(pipeline_should_run(RunState::MonsterTurn));
    assert!(!pipeline_should_run(RunState::AwaitingInput));
    assert!(!pipeline_should_run(RunState::GameOver));

    assert_eq!(
        run_state_after_pipeline(RunState::PreRun),
        RunState::AwaitingInput
    );
    assert_eq!(
        run_state_after_pipeline(RunState::PlayerTurn),
        RunState::MonsterTurn
    );
    assert_eq!(
        run_state_after_pipeline(RunState::MonsterTurn),
        RunState::AwaitingInput
    );
    assert_eq!(
        run_state_after_pipeline(RunState::GameOver),
        RunState::GameOver
    );

    let mut w = World::new();
    let player = w.create_entity();
    let item = w.create_entity();
    let rs = rogue_core::state::confirm_use(&mut w, player, item);
    assert_eq!(rs, RunState::PlayerTurn);
    assert_eq!(w.wants_use.get(player).unwrap().item, item);
    let rs2 = rogue_core::state::confirm_drop(&mut w, player, item);
    assert_eq!(rs2, RunState::PlayerTurn);
    assert_eq!(w.wants_drop.get(player).unwrap().item, item);
}
