//! The dungeon map: the tile grid and its per-tile derived state.
//!
//! A map is created once at dungeon generation and then mutated in
//! place every turn. `revealed_tiles` persists across turns (tiles the
//! player has ever seen); `visible_tiles` is recomputed from the
//! player's viewshed; `blocked` and `tile_content` are rebuilt each turn
//! by the map indexing system; `bloodstains` records tiles where damage
//! landed and is never cleared.

use vstd::prelude::*;

use crate::components::Entity;

verus! {

pub const MAPWIDTH: usize = 80;

pub const MAPHEIGHT: usize = 43;

pub const MAPCOUNT: usize = MAPWIDTH * MAPHEIGHT;

/// Terrain of one map tile.
#[derive(Clone, Copy, PartialEq, Eq, Structural, Debug)]
pub enum TileType {
    Wall,
    Floor,
}

/// An axis-aligned room, stored by its two corners.
#[derive(Clone, Copy, PartialEq, Eq, Structural, Debug)]
pub struct Rect {
    pub x1: i32,
    pub y1: i32,
    pub x2: i32,
    pub y2: i32,
}

impl Rect {
    pub fn new(x: i32, y: i32, w: i32, h: i32) -> (r: Rect)
        requires
            i32::MIN <= x + w <= i32::MAX,
            i32::MIN <= y + h <= i32::MAX,
        ensures
            r.x1 == x,
            r.y1 == y,
            r.x2 == x + w,
            r.y2 == y + h,
    {
        Rect { x1: x, y1: y, x2: x + w, y2: y + h }
    }

    /// Whether two rooms overlap (sharing an edge counts).
    pub open spec fn spec_intersect(self, other: Rect) -> bool {
        self.x1 <= other.x2 && self.x2 >= other.x1 && self.y1 <= other.y2 && self.y2 >= other.y1
    }

    pub fn intersect(&self, other: &Rect) -> (r: bool)
        ensures
            r == self.spec_intersect(*other),
    {
        self.x1 <= other.x2 && self.x2 >= other.x1 && self.y1 <= other.y2 && self.y2 >= other.y1
    }

    /// The room's center tile.
    pub fn center(&self) -> (c: (i32, i32))
        requires
            0 <= self.x1 + self.x2 <= i32::MAX,
            0 <= self.y1 + self.y2 <= i32::MAX,
        ensures
            c.0 == (self.x1 + self.x2) / 2,
            c.1 == (self.y1 + self.y2) / 2,
    {
        ((self.x1 + self.x2) / 2, (self.y1 + self.y2) / 2)
    }
}

/// The dungeon grid plus per-tile derived state.
pub struct GameMap {
    pub tiles: Vec<TileType>,
    pub rooms: Vec<Rect>,
    pub width: i32,
    pub height: i32,
    pub revealed_tiles: Vec<bool>,
    pub visible_tiles: Vec<bool>,
    pub blocked: Vec<bool>,
    pub tile_content: Vec<Vec<Entity>>,
    pub bloodstains: Vec<bool>,
}

impl GameMap {
    /// Well-formedness: positive dimensions and parallel arrays of one
    /// slot per tile.
    pub open spec fn wf(&self) -> bool {
        &&& 0 < self.width
        &&& 0 < self.height
        &&& self.width * self.height <= usize::MAX
        &&& self.tiles@.len() == self.width * self.height
        &&& self.revealed_tiles@.len() == self.tiles@.len()
        &&& self.visible_tiles@.len() == self.tiles@.len()
        &&& self.blocked@.len() == self.tiles@.len()
        &&& self.tile_content@.len() == self.tiles@.len()
        &&& self.bloodstains@.len() == self.tiles@.len()
    }

    /// The array index of tile `(x, y)`.
    pub open spec fn spec_idx(&self, x: int, y: int) -> int {
        tile_idx(self.width as int, x, y)
    }

    /// Whether `(x, y)` lies on the map at all.
    pub open spec fn in_bounds(&self, x: int, y: int) -> bool {
        0 <= x < self.width && 0 <= y < self.height
    }

    /// Whether `(x, y)` lies in the map interior, off the outermost
    /// border ring.
    pub open spec fn in_interior(&self, x: int, y: int) -> bool {
        0 < x < self.width - 1 && 0 < y < self.height - 1
    }

    /// Maps an x and y coordinate to a tile array index.
    pub fn xy_idx(&self, x: i32, y: i32) -> (idx: usize)
        requires
            self.wf(),
            self.in_bounds(x as int, y as int),
        ensures
            idx == self.spec_idx(x as int, y as int),
            idx < self.tiles@.len(),
    {
        proof {
            lemma_idx_bound(self.width as int, self.height as int, x as int, y as int);
        }
        (y as usize) * (self.width as usize) + (x as usize)
    }

    /// An all-wall, unexplored map of the given dimensions.
    pub fn new(width: i32, height: i32) -> (m: GameMap)
        requires
            0 < width,
            0 < height,
            width * height <= usize::MAX,
        ensures
            m.wf(),
            m.width == width,
            m.height == height,
            m.rooms@.len() == 0,
            forall|i: int| 0 <= i < m.tiles@.len() ==> m.tiles@[i] == TileType::Wall,
            forall|i: int| 0 <= i < m.tiles@.len() ==> m.revealed_tiles@[i] == false,
            forall|i: int| 0 <= i < m.tiles@.len() ==> m.visible_tiles@[i] == false,
            forall|i: int| 0 <= i < m.tiles@.len() ==> m.blocked@[i] == false,
            forall|i: int| 0 <= i < m.tiles@.len() ==> m.tile_content@[i]@.len() == 0,
            forall|i: int| 0 <= i < m.tiles@.len() ==> m.bloodstains@[i] == false,
    {
        let count = (width as usize) * (height as usize);
        let mut tiles: Vec<TileType> = Vec::new();
        let mut revealed: Vec<bool> = Vec::new();
        let mut visible: Vec<bool> = Vec::new();
        let mut blocked: Vec<bool> = Vec::new();
        let mut content: Vec<Vec<Entity>> = Vec::new();
        let mut blood: Vec<bool> = Vec::new();
        let mut i: usize = 0;
        while i < count
            invariant
                i <= count,
                tiles@.len() == i,
                revealed@.len() == i,
                visible@.len() == i,
                blocked@.len() == i,
                content@.len() == i,
                blood@.len() == i,
                forall|j: int| 0 <= j < i ==> tiles@[j] == TileType::Wall,
                forall|j: int| 0 <= j < i ==> revealed@[j] == false,
                forall|j: int| 0 <= j < i ==> visible@[j] == false,
                forall|j: int| 0 <= j < i ==> blocked@[j] == false,
                forall|j: int| 0 <= j < i ==> content@[j]@.len() == 0,
                forall|j: int| 0 <= j < i ==> blood@[j] == false,
            decreases count - i,
        {
            tiles.push(TileType::Wall);
            revealed.push(false);
            visible.push(false);
            blocked.push(false);
            content.push(Vec::new());
            blood.push(false);
            i = i + 1;
        }
        GameMap {
            tiles,
            rooms: Vec::new(),
            width,
            height,
            revealed_tiles: revealed,
            visible_tiles: visible,
            blocked,
            tile_content: content,
            bloodstains: blood,
        }
    }

    /// All rooms lie in the interior, are mutually disjoint, and have
    /// floor carved throughout their interiors; the border ring of the
    /// map is wall.
    pub open spec fn rooms_wf(&self) -> bool {
        &&& forall|k: int|
            0 <= k < self.rooms@.len() ==> {
                &&& 1 <= #[trigger] self.rooms@[k].x1 <= self.rooms@[k].x2 <= self.width - 2
                &&& 1 <= self.rooms@[k].y1 <= self.rooms@[k].y2 <= self.height - 2
            }
        &&& forall|k1: int, k2: int|
            0 <= k1 < self.rooms@.len() && 0 <= k2 < self.rooms@.len() && k1 != k2
                ==> !(#[trigger] self.rooms@[k1].spec_intersect(#[trigger] self.rooms@[k2]))
        &&& forall|k: int, xa: int, ya: int|
            0 <= k < self.rooms@.len() && in_room(#[trigger] self.rooms@[k], xa, ya)
                ==> self.tiles@[#[trigger] tile_idx(self.width as int, xa, ya)] == TileType::Floor
        &&& forall|xa: int, ya: int|
            self.in_bounds(xa, ya) && !self.in_interior(xa, ya)
                ==> self.tiles@[#[trigger] tile_idx(self.width as int, xa, ya)] == TileType::Wall
    }

    /// Carves one accepted room and, when it is not the first, the
    /// L-shaped tunnel joining it to the previous room, then records
    /// it: the room list grows by the new room and stays well formed
    /// and connected; only tiles and rooms change.
    #[verifier::loop_isolation(false)]
    #[verifier::rlimit(100)]
    fn place_room(map: &mut GameMap, rng: &mut rltk::RandomNumberGenerator, new_room: Rect)
        requires
            old(map).wf(),
            old(map).width <= 0x4000_0000,
            old(map).height <= 0x4000_0000,
            old(map).rooms_wf(),
            rooms_connected(*old(map)),
            1 <= new_room.x1 <= new_room.x2 <= old(map).width - 2,
            1 <= new_room.y1 <= new_room.y2 <= old(map).height - 2,
            forall|j: int|
                0 <= j < old(map).rooms@.len() ==> !new_room.spec_intersect(
                    #[trigger] old(map).rooms@[j],
                ),
        ensures
            final(map).wf(),
            final(map).width == old(map).width,
            final(map).height == old(map).height,
            *final(map) == (GameMap {
                tiles: final(map).tiles,
                rooms: final(map).rooms,
                ..*old(map)
            }),
            final(map).rooms@ == old(map).rooms@.push(new_room),
            final(map).rooms_wf(),
            rooms_connected(*final(map)),
    {
            proof {
                assert(1 <= new_room.x1 && new_room.x2 <= map.width - 2);
                assert(1 <= new_room.y1 && new_room.y2 <= map.height - 2);
            }
            let ghost rooms0 = map.rooms@;
            let ghost mp = *map;
            map.apply_room_to_map(&new_room);
            proof {
                assert forall|xa: int, ya: int|
                    map.in_bounds(xa, ya) && !map.in_interior(xa, ya) implies map.tiles@[
                #[trigger] tile_idx(map.width as int, xa, ya)] == TileType::Wall by {
                    assert(!in_room(new_room, xa, ya));
                    assert(mp.in_bounds(xa, ya) && !mp.in_interior(xa, ya));
                    assert(mp.tiles@[tile_idx(mp.width as int, xa, ya)] == TileType::Wall);
                }
                assert forall|k2: int, xa: int, ya: int|
                    0 <= k2 < map.rooms@.len() && in_room(#[trigger] map.rooms@[k2], xa, ya)
                    implies map.tiles@[#[trigger] tile_idx(map.width as int, xa, ya)]
                    == TileType::Floor by {
                    assert(mp.in_bounds(xa, ya));
                    assert(mp.tiles@[tile_idx(mp.width as int, xa, ya)] == TileType::Floor);
                }
                assert forall|xa: int, ya: int| in_room(new_room, xa, ya) implies map.tiles@[
                #[trigger] tile_idx(map.width as int, xa, ya)] == TileType::Floor by {
                    assert(mp.in_bounds(xa, ya));
                }
                assert forall|xa: int, ya: int|
                    mp.in_bounds(xa, ya) && mp.tiles@[#[trigger] tile_idx(
                        mp.width as int,
                        xa,
                        ya,
                    )] == TileType::Floor implies map.tiles@[tile_idx(
                    mp.width as int,
                    xa,
                    ya,
                )] == TileType::Floor by {}
                lemma_connected_preserved(mp, *map);
            }
            if map.rooms.len() > 0 {
                let (new_x, new_y) = new_room.center();
                let last = map.rooms.len() - 1;
                let (prev_x, prev_y) = map.rooms[last].center();
                proof {
                    assert(1 <= new_x <= map.width - 2 && 1 <= new_y <= map.height - 2);
                    assert(1 <= prev_x <= map.width - 2 && 1 <= prev_y <= map.height - 2);
                }
                if crate::rng::rng_range(rng, 0, 2) == 1 {
                    let ghost t0 = *map;
                    map.apply_horizontal_tunnel(prev_x, new_x, prev_y);
                    proof {
                        lemma_tunnel_preserves(
                            t0,
                            *map,
                            rooms0,
                            new_room,
                            prev_x as int,
                            new_x as int,
                            prev_y as int,
                            true,
                        );
                        lemma_connected_preserved(t0, *map);
                    }
                    let ghost t1 = *map;
                    map.apply_vertical_tunnel(prev_y, new_y, new_x);
                    proof {
                        lemma_tunnel_preserves(
                            t1,
                            *map,
                            rooms0,
                            new_room,
                            prev_y as int,
                            new_y as int,
                            new_x as int,
                            false,
                        );
                        lemma_connected_preserved(t1, *map);
                        assert forall|xa: int|
                            (if prev_x as int <= new_x as int {
                                prev_x as int <= xa <= new_x as int
                            } else {
                                new_x as int <= xa <= prev_x as int
                            }) implies map.tiles@[#[trigger] tile_idx(
                            map.width as int,
                            xa,
                            prev_y as int,
                        )] == TileType::Floor by {
                            assert(t0.in_bounds(xa, prev_y as int));
                            assert(in_h_tunnel(
                                prev_x as int,
                                new_x as int,
                                prev_y as int,
                                xa,
                                prev_y as int,
                            ));
                            assert(t1.tiles@[tile_idx(t1.width as int, xa, prev_y as int)]
                                == TileType::Floor);
                            assert(t1.in_bounds(xa, prev_y as int));
                        }
                        assert(h_floor(*map, prev_x as int, new_x as int, prev_y as int));
                        assert forall|ya: int|
                            (if prev_y as int <= new_y as int {
                                prev_y as int <= ya <= new_y as int
                            } else {
                                new_y as int <= ya <= prev_y as int
                            }) implies map.tiles@[#[trigger] tile_idx(
                            map.width as int,
                            new_x as int,
                            ya,
                        )] == TileType::Floor by {
                            assert(t1.in_bounds(new_x as int, ya));
                            assert(in_v_tunnel(
                                prev_y as int,
                                new_y as int,
                                new_x as int,
                                new_x as int,
                                ya,
                            ));
                        }
                        assert(v_floor(*map, prev_y as int, new_y as int, new_x as int));
                        assert(corridor_between(
                            *map,
                            room_center_x(rooms0[rooms0.len() - 1]),
                            room_center_y(rooms0[rooms0.len() - 1]),
                            room_center_x(new_room),
                            room_center_y(new_room),
                        ));
                    }
                } else {
                    let ghost t0 = *map;
                    map.apply_horizontal_tunnel(prev_x, new_x, new_y);
                    proof {
                        lemma_tunnel_preserves(
                            t0,
                            *map,
                            rooms0,
                            new_room,
                            prev_x as int,
                            new_x as int,
                            new_y as int,
                            true,
                        );
                        lemma_connected_preserved(t0, *map);
                    }
                    let ghost t1 = *map;
                    map.apply_vertical_tunnel(prev_y, new_y, prev_x);
                    proof {
                        lemma_tunnel_preserves(
                            t1,
                            *map,
                            rooms0,
                            new_room,
                            prev_y as int,
                            new_y as int,
                            prev_x as int,
                            false,
                        );
                        lemma_connected_preserved(t1, *map);
                        assert forall|xa: int|
                            (if prev_x as int <= new_x as int {
                                prev_x as int <= xa <= new_x as int
                            } else {
                                new_x as int <= xa <= prev_x as int
                            }) implies map.tiles@[#[trigger] tile_idx(
                            map.width as int,
                            xa,
                            new_y as int,
                        )] == TileType::Floor by {
                            assert(t0.in_bounds(xa, new_y as int));
                            assert(in_h_tunnel(
                                prev_x as int,
                                new_x as int,
                                new_y as int,
                                xa,
                                new_y as int,
                            ));
                            assert(t1.tiles@[tile_idx(t1.width as int, xa, new_y as int)]
                                == TileType::Floor);
                            assert(t1.in_bounds(xa, new_y as int));
                        }
                        assert(h_floor(*map, prev_x as int, new_x as int, new_y as int));
                        assert forall|ya: int|
                            (if prev_y as int <= new_y as int {
                                prev_y as int <= ya <= new_y as int
                            } else {
                                new_y as int <= ya <= prev_y as int
                            }) implies map.tiles@[#[trigger] tile_idx(
                            map.width as int,
                            prev_x as int,
                            ya,
                        )] == TileType::Floor by {
                            assert(t1.in_bounds(prev_x as int, ya));
                            assert(in_v_tunnel(
                                prev_y as int,
                                new_y as int,
                                prev_x as int,
                                prev_x as int,
                                ya,
                            ));
                        }
                        assert(v_floor(*map, prev_y as int, new_y as int, prev_x as int));
                        assert(corridor_between(
                            *map,
                            room_center_x(rooms0[rooms0.len() - 1]),
                            room_center_y(rooms0[rooms0.len() - 1]),
                            room_center_x(new_room),
                            room_center_y(new_room),
                        ));
                    }
                }
            }
            map.rooms.push(new_room);
            proof {
                assert(map.rooms@ == rooms0.push(new_room));
                assert forall|k2: int| 1 <= k2 < map.rooms@.len() implies corridor_between(
                    *map,
                    room_center_x(map.rooms@[k2 - 1]),
                    room_center_y(map.rooms@[k2 - 1]),
                    room_center_x(#[trigger] map.rooms@[k2]),
                    room_center_y(map.rooms@[k2]),
                ) by {
                    if k2 < rooms0.len() {
                        assert(map.rooms@[k2] == rooms0[k2]);
                        assert(map.rooms@[k2 - 1] == rooms0[k2 - 1]);
                    } else {
                        assert(map.rooms@[k2] == new_room);
                        assert(map.rooms@[k2 - 1] == rooms0[rooms0.len() - 1]);
                    }
                }
                assert forall|k2: int| 0 <= k2 < map.rooms@.len() implies (1
                    <= #[trigger] map.rooms@[k2].x1 <= map.rooms@[k2].x2 <= map.width - 2 && 1
                    <= map.rooms@[k2].y1 <= map.rooms@[k2].y2 <= map.height - 2) by {
                    if k2 < rooms0.len() {
                        assert(map.rooms@[k2] == rooms0[k2]);
                    } else {
                        assert(map.rooms@[k2] == new_room);
                    }
                }
                assert forall|k1: int, k2: int|
                    0 <= k1 < map.rooms@.len() && 0 <= k2 < map.rooms@.len() && k1 != k2
                        implies !(#[trigger] map.rooms@[k1].spec_intersect(
                    #[trigger] map.rooms@[k2],
                )) by {
                    if k1 == rooms0.len() || k2 == rooms0.len() {
                        assert(forall|j: int|
                            0 <= j < rooms0.len() ==> !new_room.spec_intersect(
                                #[trigger] rooms0[j],
                            ));
                    }
                }
                assert forall|k2: int, xa: int, ya: int|
                    0 <= k2 < map.rooms@.len() && in_room(#[trigger] map.rooms@[k2], xa, ya)
                    implies map.tiles@[#[trigger] tile_idx(map.width as int, xa, ya)]
                    == TileType::Floor by {
                    if k2 < rooms0.len() {
                        assert(map.rooms@[k2] == rooms0[k2]);
                    } else {
                        assert(map.rooms@[k2] == new_room);
                    }
                }
            }
    }

    /// Generates a new dungeon: up to thirty disjoint interior rooms
    /// joined by tunnels, everything else (and the whole border) wall.
    /// The derived per-tile state starts cleared, as in `GameMap::new`.
    #[verifier::loop_isolation(false)]
    #[verifier::rlimit(100)]
    pub fn new_map_rooms_and_corridors() -> (m: GameMap)
        ensures
            m.wf(),
            m.width == MAPWIDTH as i32,
            m.height == MAPHEIGHT as i32,
            1 <= m.rooms@.len() <= 30,
            m.rooms_wf(),
            rooms_connected(m),
            forall|i: int| 0 <= i < m.tiles@.len() ==> m.revealed_tiles@[i] == false,
            forall|i: int| 0 <= i < m.tiles@.len() ==> m.visible_tiles@[i] == false,
            forall|i: int| 0 <= i < m.tiles@.len() ==> m.blocked@[i] == false,
            forall|i: int| 0 <= i < m.tiles@.len() ==> m.tile_content@[i]@.len() == 0,
            forall|i: int| 0 <= i < m.tiles@.len() ==> m.bloodstains@[i] == false,
    {
        let mut map = GameMap::new(80, 43);
        let mut rng = crate::rng::rng_new();
        let mut attempt: usize = 0;
        while attempt < 30
            invariant
                map.wf(),
                map.width == 80,
                map.height == 43,
                map.rooms_wf(),
                rooms_connected(map),
                attempt <= 30,
                map.rooms@.len() <= attempt,
                attempt >= 1 ==> map.rooms@.len() >= 1,
                forall|i: int| 0 <= i < map.tiles@.len() ==> map.revealed_tiles@[i] == false,
                forall|i: int| 0 <= i < map.tiles@.len() ==> map.visible_tiles@[i] == false,
                forall|i: int| 0 <= i < map.tiles@.len() ==> map.blocked@[i] == false,
                forall|i: int| 0 <= i < map.tiles@.len() ==> map.tile_content@[i]@.len() == 0,
                forall|i: int| 0 <= i < map.tiles@.len() ==> map.bloodstains@[i] == false,
            decreases 30 - attempt,
        {
            let w = crate::rng::rng_range(&mut rng, 6, 10);
            let h = crate::rng::rng_range(&mut rng, 6, 10);
            let x = crate::rng::roll_dice(&mut rng, 1, map.width - w - 2);
            let y = crate::rng::roll_dice(&mut rng, 1, map.height - h - 2);
            let new_room = Rect::new(x, y, w, h);
            let mut ok = true;
            let room_count = map.rooms.len();
            let mut k: usize = 0;
            while k < room_count
                invariant
                    k <= room_count,
                    ok <==> forall|j: int|
                        0 <= j < k ==> !new_room.spec_intersect(#[trigger] map.rooms@[j]),
                decreases room_count - k,
            {
                if new_room.intersect(&map.rooms[k]) {
                    ok = false;
                }
                k = k + 1;
            }
            if ok {
                GameMap::place_room(&mut map, &mut rng, new_room);
            }
            attempt = attempt + 1;
        }
        map
    }

    /// Turns the tile at `(x, y)` into floor, leaving all else alone.
    fn carve(&mut self, x: i32, y: i32)
        requires
            old(self).wf(),
            old(self).in_bounds(x as int, y as int),
        ensures
            final(self).wf(),
            *final(self) == (GameMap { tiles: final(self).tiles, ..*old(self) }),
            final(self).tiles@ == old(self).tiles@.update(
                old(self).spec_idx(x as int, y as int),
                TileType::Floor,
            ),
    {
        let idx = self.xy_idx(x, y);
        self.tiles[idx] = TileType::Floor;
    }

    /// Adds the provided room to the map: its interior becomes floor.
    pub fn apply_room_to_map(&mut self, room: &Rect)
        requires
            old(self).wf(),
            0 <= room.x1 <= room.x2 < old(self).width,
            0 <= room.y1 <= room.y2 < old(self).height,
        ensures
            final(self).wf(),
            *final(self) == (GameMap { tiles: final(self).tiles, ..*old(self) }),
            forall|xa: int, ya: int|
                old(self).in_bounds(xa, ya) ==> final(self).tiles@[tile_idx(old(self).width as int, xa, ya)]
                    == if in_room(*room, xa, ya) {
                    TileType::Floor
                } else {
                    old(self).tiles@[tile_idx(old(self).width as int, xa, ya)]
                },
    {
        let ghost m0 = *self;
        let mut y = room.y1 + 1;
        while y <= room.y2
            invariant
                m0 == *old(self),
                m0.wf(),
                self.wf(),
                room.y1 + 1 <= y <= room.y2 + 1 || y == room.y1 + 1,
                0 <= room.x1 <= room.x2 < m0.width,
                0 <= room.y1 <= room.y2 < m0.height,
                *self == (GameMap { tiles: self.tiles, ..m0 }),
                forall|xa: int, ya: int|
                    m0.in_bounds(xa, ya) ==> self.tiles@[tile_idx(m0.width as int, xa, ya)] == if in_room(
                        *room,
                        xa,
                        ya,
                    ) && ya < y {
                        TileType::Floor
                    } else {
                        m0.tiles@[tile_idx(m0.width as int, xa, ya)]
                    },
            decreases room.y2 + 1 - y,
        {
            let mut x = room.x1 + 1;
            while x <= room.x2
                invariant
                    m0 == *old(self),
                    m0.wf(),
                    self.wf(),
                    room.y1 + 1 <= y <= room.y2,
                    room.x1 + 1 <= x <= room.x2 + 1 || x == room.x1 + 1,
                    0 <= room.x1 <= room.x2 < m0.width,
                    0 <= room.y1 <= room.y2 < m0.height,
                    *self == (GameMap { tiles: self.tiles, ..m0 }),
                    forall|xa: int, ya: int|
                        m0.in_bounds(xa, ya) ==> self.tiles@[tile_idx(m0.width as int, xa, ya)] == if in_room(
                            *room,
                            xa,
                            ya,
                        ) && (ya < y || (ya == y && xa < x)) {
                            TileType::Floor
                        } else {
                            m0.tiles@[tile_idx(m0.width as int, xa, ya)]
                        },
                decreases room.x2 + 1 - x,
            {
                let ghost prev = self.tiles@;
                self.carve(x, y);
                proof {
                    carve_step(m0, prev, self.tiles@, x as int, y as int);
                }
                x = x + 1;
            }
            y = y + 1;
        }
    }

    /// Adds a horizontal tunnel between two x coordinates at row `y`.
    pub fn apply_horizontal_tunnel(&mut self, x1: i32, x2: i32, y: i32)
        requires
            old(self).wf(),
            0 <= x1 < old(self).width,
            0 <= x2 < old(self).width,
            0 <= y < old(self).height,
        ensures
            final(self).wf(),
            *final(self) == (GameMap { tiles: final(self).tiles, ..*old(self) }),
            forall|xa: int, ya: int|
                old(self).in_bounds(xa, ya) ==> final(self).tiles@[tile_idx(old(self).width as int, xa, ya)]
                    == if in_h_tunnel(x1 as int, x2 as int, y as int, xa, ya) {
                    TileType::Floor
                } else {
                    old(self).tiles@[tile_idx(old(self).width as int, xa, ya)]
                },
    {
        let ghost m0 = *self;
        let lo = if x1 < x2 {
            x1
        } else {
            x2
        };
        let hi = if x1 < x2 {
            x2
        } else {
            x1
        };
        let mut x = lo;
        while x <= hi
            invariant
                m0 == *old(self),
                m0.wf(),
                self.wf(),
                lo <= x <= hi + 1 || x == lo,
                0 <= lo <= hi < m0.width,
                0 <= y < m0.height,
                lo == if x1 < x2 {
                    x1 as int
                } else {
                    x2 as int
                },
                hi == if x1 < x2 {
                    x2 as int
                } else {
                    x1 as int
                },
                *self == (GameMap { tiles: self.tiles, ..m0 }),
                forall|xa: int, ya: int|
                    m0.in_bounds(xa, ya) ==> self.tiles@[tile_idx(m0.width as int, xa, ya)] == if in_h_tunnel(
                        x1 as int,
                        x2 as int,
                        y as int,
                        xa,
                        ya,
                    ) && xa < x {
                        TileType::Floor
                    } else {
                        m0.tiles@[tile_idx(m0.width as int, xa, ya)]
                    },
            decreases hi + 1 - x,
        {
            let ghost prev = self.tiles@;
            self.carve(x, y);
            proof {
                carve_step(m0, prev, self.tiles@, x as int, y as int);
            }
            x = x + 1;
        }
    }

    /// Adds a vertical tunnel between two y coordinates at column `x`.
    pub fn apply_vertical_tunnel(&mut self, y1: i32, y2: i32, x: i32)
        requires
            old(self).wf(),
            0 <= y1 < old(self).height,
            0 <= y2 < old(self).height,
            0 <= x < old(self).width,
        ensures
            final(self).wf(),
            *final(self) == (GameMap { tiles: final(self).tiles, ..*old(self) }),
            forall|xa: int, ya: int|
                old(self).in_bounds(xa, ya) ==> final(self).tiles@[tile_idx(old(self).width as int, xa, ya)]
                    == if in_v_tunnel(y1 as int, y2 as int, x as int, xa, ya) {
                    TileType::Floor
                } else {
                    old(self).tiles@[tile_idx(old(self).width as int, xa, ya)]
                },
    {
        let ghost m0 = *self;
        let lo = if y1 < y2 {
            y1
        } else {
            y2
        };
        let hi = if y1 < y2 {
            y2
        } else {
            y1
        };
        let mut y = lo;
        while y <= hi
            invariant
                m0 == *old(self),
                m0.wf(),
                self.wf(),
                lo <= y <= hi + 1 || y == lo,
                0 <= lo <= hi < m0.height,
                0 <= x < m0.width,
                lo == if y1 < y2 {
                    y1 as int
                } else {
                    y2 as int
                },
                hi == if y1 < y2 {
                    y2 as int
                } else {
                    y1 as int
                },
                *self == (GameMap { tiles: self.tiles, ..m0 }),
                forall|xa: int, ya: int|
                    m0.in_bounds(xa, ya) ==> self.tiles@[tile_idx(m0.width as int, xa, ya)] == if in_v_tunnel(
                        y1 as int,
                        y2 as int,
                        x as int,
                        xa,
                        ya,
                    ) && ya < y {
                        TileType::Floor
                    } else {
                        m0.tiles@[tile_idx(m0.width as int, xa, ya)]
                    },
            decreases hi + 1 - y,
        {
            let ghost prev = self.tiles@;
            self.carve(x, y);
            proof {
                carve_step(m0, prev, self.tiles@, x as int, y as int);
            }
            y = y + 1;
        }
    }

    /// Sets walls as blockers: resets `blocked` purely from terrain.
    pub fn populate_blocked(&mut self)
        requires
            old(self).wf(),
        ensures
            final(self).wf(),
            *final(self) == (GameMap { blocked: final(self).blocked, ..*old(self) }),
            final(self).blocked@.len() == old(self).blocked@.len(),
            forall|i: int|
                0 <= i < final(self).blocked@.len() ==> final(self).blocked@[i] == (
                old(self).tiles@[i] == TileType::Wall),
    {
        let ghost m0 = *self;
        let n = self.blocked.len();
        let mut i: usize = 0;
        while i < n
            invariant
                m0 == *old(self),
                self.wf(),
                n == self.blocked@.len(),
                i <= n,
                *self == (GameMap { blocked: self.blocked, ..m0 }),
                forall|j: int| 0 <= j < i ==> self.blocked@[j] == (m0.tiles@[j] == TileType::Wall),
            decreases n - i,
        {
            let is_wall = match self.tiles[i] {
                TileType::Wall => true,
                TileType::Floor => false,
            };
            self.blocked[i] = is_wall;
            i = i + 1;
        }
    }

    /// Clears every tile's occupant list, keeping one list per tile.
    pub fn clear_content_index(&mut self)
        requires
            old(self).wf(),
        ensures
            final(self).wf(),
            *final(self) == (GameMap { tile_content: final(self).tile_content, ..*old(self) }),
            final(self).tile_content@.len() == old(self).tile_content@.len(),
            forall|i: int|
                0 <= i < final(self).tile_content@.len() ==> final(self).tile_content@[i]@.len()
                    == 0,
    {
        let ghost m0 = *self;
        let n = self.tile_content.len();
        let mut i: usize = 0;
        while i < n
            invariant
                m0 == *old(self),
                self.wf(),
                n == self.tile_content@.len(),
                i <= n,
                *self == (GameMap { tile_content: self.tile_content, ..m0 }),
                forall|j: int| 0 <= j < i ==> self.tile_content@[j]@.len() == 0,
            decreases n - i,
        {
            self.tile_content[i] = Vec::new();
            i = i + 1;
        }
    }

    /// Whether the tile at `idx` blocks sight.
    pub fn is_opaque(&self, idx: usize) -> (r: bool)
        requires
            self.wf(),
            idx < self.tiles@.len(),
        ensures
            r == (self.tiles@[idx as int] == TileType::Wall),
    {
        match self.tiles[idx] {
            TileType::Wall => true,
            TileType::Floor => false,
        }
    }

    /// Whether `(x, y)` is a tile a creature may step onto: inside the
    /// map, off the left and top border, and not blocked.
    pub open spec fn spec_exit_valid(&self, x: int, y: int) -> bool {
        &&& 1 <= x <= self.width - 1
        &&& 1 <= y <= self.height - 1
        &&& x < self.width
        &&& y < self.height
        &&& !self.blocked@[self.spec_idx(x, y)]
    }

    /// Checks if a point on the map is a valid location to move to.
    pub fn is_exit_valid(&self, x: i32, y: i32) -> (r: bool)
        requires
            self.wf(),
        ensures
            r == self.spec_exit_valid(x as int, y as int),
    {
        if x < 1 || x > self.width - 1 || y < 1 || y > self.height - 1 {
            return false;
        }
        let idx = self.xy_idx(x, y);
        !self.blocked[idx]
    }
}

/// The array index of tile `(x, y)` on a grid of width `w`.
pub open spec fn tile_idx(w: int, x: int, y: int) -> int {
    y * w + x
}

/// Whether `(x, y)` lies in the carved interior of `room`.
pub open spec fn in_room(room: Rect, x: int, y: int) -> bool {
    room.x1 + 1 <= x <= room.x2 && room.y1 + 1 <= y <= room.y2
}

/// Whether `(xa, ya)` lies on the horizontal tunnel from `x1` to `x2`
/// at row `y`.
pub open spec fn in_h_tunnel(x1: int, x2: int, y: int, xa: int, ya: int) -> bool {
    ya == y && if x1 <= x2 {
        x1 <= xa <= x2
    } else {
        x2 <= xa <= x1
    }
}

/// Whether `(xa, ya)` lies on the vertical tunnel from `y1` to `y2` at
/// column `x`.
pub open spec fn in_v_tunnel(y1: int, y2: int, x: int, xa: int, ya: int) -> bool {
    xa == x && if y1 <= y2 {
        y1 <= ya <= y2
    } else {
        y2 <= ya <= y1
    }
}

/// Carving one tile changes that coordinate alone, seen through the
/// coordinate-to-index mapping.
proof fn carve_step(m0: GameMap, prev: Seq<TileType>, next: Seq<TileType>, x: int, y: int)
    requires
        m0.wf(),
        m0.in_bounds(x, y),
        prev.len() == m0.width * m0.height,
        next == prev.update(m0.spec_idx(x, y), TileType::Floor),
    ensures
        next.len() == prev.len(),
        forall|xa: int, ya: int|
            m0.in_bounds(xa, ya) ==> next[tile_idx(m0.width as int, xa, ya)] == if xa == x && ya == y {
                TileType::Floor
            } else {
                prev[tile_idx(m0.width as int, xa, ya)]
            },
{
    lemma_idx_bound(m0.width as int, m0.height as int, x, y);
    assert forall|xa: int, ya: int| m0.in_bounds(xa, ya) implies next[tile_idx(m0.width as int, xa, ya)] == if xa
        == x && ya == y {
        TileType::Floor
    } else {
        prev[tile_idx(m0.width as int, xa, ya)]
    } by {
        lemma_idx_bound(m0.width as int, m0.height as int, xa, ya);
        if tile_idx(m0.width as int, xa, ya) == m0.spec_idx(x, y) {
            lemma_idx_inj(m0.width as int, xa, ya, x, y);
        }
    }
}

/// Carving a tunnel whose coordinates stay in the map interior keeps
/// the border ring wall and keeps every already-carved room floored.
/// For a horizontal tunnel `a` and `b` are x coordinates and `c` the
/// row; for a vertical tunnel `a` and `b` are y coordinates and `c`
/// the column.
proof fn lemma_tunnel_preserves(
    pre: GameMap,
    post: GameMap,
    rooms: Seq<Rect>,
    extra: Rect,
    a: int,
    b: int,
    c: int,
    horizontal: bool,
)
    requires
        pre.wf(),
        post.wf(),
        post.width == pre.width,
        post.height == pre.height,
        if horizontal {
            1 <= a <= pre.width - 2 && 1 <= b <= pre.width - 2 && 1 <= c <= pre.height - 2
        } else {
            1 <= a <= pre.height - 2 && 1 <= b <= pre.height - 2 && 1 <= c <= pre.width - 2
        },
        forall|xa: int, ya: int|
            pre.in_bounds(xa, ya) ==> post.tiles@[#[trigger] tile_idx(pre.width as int, xa, ya)]
                == if (if horizontal {
                in_h_tunnel(a, b, c, xa, ya)
            } else {
                in_v_tunnel(a, b, c, xa, ya)
            }) {
                TileType::Floor
            } else {
                pre.tiles@[tile_idx(pre.width as int, xa, ya)]
            },
        forall|xa: int, ya: int|
            pre.in_bounds(xa, ya) && !pre.in_interior(xa, ya) ==> pre.tiles@[#[trigger] tile_idx(
                pre.width as int,
                xa,
                ya,
            )] == TileType::Wall,
        forall|k: int, xa: int, ya: int|
            0 <= k < rooms.len() && in_room(#[trigger] rooms[k], xa, ya) ==> pre.tiles@[
                #[trigger] tile_idx(pre.width as int, xa, ya)] == TileType::Floor,
        forall|xa: int, ya: int|
            in_room(extra, xa, ya) ==> pre.tiles@[#[trigger] tile_idx(pre.width as int, xa, ya)]
                == TileType::Floor,
        forall|k: int|
            0 <= k < rooms.len() ==> {
                &&& 1 <= (#[trigger] rooms[k]).x1 <= rooms[k].x2 <= pre.width - 2
                &&& 1 <= rooms[k].y1 <= rooms[k].y2 <= pre.height - 2
            },
        1 <= extra.x1 <= extra.x2 <= pre.width - 2,
        1 <= extra.y1 <= extra.y2 <= pre.height - 2,
    ensures
        forall|xa: int, ya: int|
            pre.in_bounds(xa, ya) && pre.tiles@[#[trigger] tile_idx(pre.width as int, xa, ya)]
                == TileType::Floor ==> post.tiles@[tile_idx(pre.width as int, xa, ya)]
                == TileType::Floor,
        forall|xa: int, ya: int|
            post.in_bounds(xa, ya) && !post.in_interior(xa, ya) ==> post.tiles@[#[trigger] tile_idx(
                pre.width as int,
                xa,
                ya,
            )] == TileType::Wall,
        forall|k: int, xa: int, ya: int|
            0 <= k < rooms.len() && in_room(#[trigger] rooms[k], xa, ya) ==> post.tiles@[
                #[trigger] tile_idx(pre.width as int, xa, ya)] == TileType::Floor,
        forall|xa: int, ya: int|
            in_room(extra, xa, ya) ==> post.tiles@[#[trigger] tile_idx(pre.width as int, xa, ya)]
                == TileType::Floor,
{
    assert forall|xa: int, ya: int|
        post.in_bounds(xa, ya) && !post.in_interior(xa, ya) implies post.tiles@[#[trigger] tile_idx(
        pre.width as int,
        xa,
        ya,
    )] == TileType::Wall by {
        if horizontal {
            assert(!in_h_tunnel(a, b, c, xa, ya));
        } else {
            assert(!in_v_tunnel(a, b, c, xa, ya));
        }
    }
    assert forall|k: int, xa: int, ya: int|
        0 <= k < rooms.len() && in_room(#[trigger] rooms[k], xa, ya) implies post.tiles@[
        #[trigger] tile_idx(pre.width as int, xa, ya)] == TileType::Floor by {
        assert(pre.in_bounds(xa, ya));
    }
    assert forall|xa: int, ya: int| in_room(extra, xa, ya) implies post.tiles@[#[trigger] tile_idx(
        pre.width as int,
        xa,
        ya,
    )] == TileType::Floor by {
        assert(pre.in_bounds(xa, ya));
    }
}

/// Every tile of the horizontal span between `x1` and `x2` at row
/// `y` is floor.
pub open spec fn h_floor(m: GameMap, x1: int, x2: int, y: int) -> bool {
    forall|xa: int|
        (if x1 <= x2 {
            x1 <= xa <= x2
        } else {
            x2 <= xa <= x1
        }) ==> m.tiles@[#[trigger] tile_idx(m.width as int, xa, y)] == TileType::Floor
}

/// Every tile of the vertical span between `y1` and `y2` at column
/// `x` is floor.
pub open spec fn v_floor(m: GameMap, y1: int, y2: int, x: int) -> bool {
    forall|ya: int|
        (if y1 <= y2 {
            y1 <= ya <= y2
        } else {
            y2 <= ya <= y1
        }) ==> m.tiles@[#[trigger] tile_idx(m.width as int, x, ya)] == TileType::Floor
}

/// The center coordinates a room's corridors attach to.
pub open spec fn room_center_x(r: Rect) -> int {
    (r.x1 + r.x2) / 2
}

pub open spec fn room_center_y(r: Rect) -> int {
    (r.y1 + r.y2) / 2
}

/// An L-shaped floor corridor between `(px, py)` and `(nx, ny)`: a
/// horizontal leg and a vertical leg meeting at one of the two
/// corners.
pub open spec fn corridor_between(m: GameMap, px: int, py: int, nx: int, ny: int) -> bool {
    ||| (h_floor(m, px, nx, py) && v_floor(m, py, ny, nx))
    ||| (h_floor(m, px, nx, ny) && v_floor(m, py, ny, px))
}

/// Each pair of consecutive rooms is joined by an L-shaped floor
/// corridor through their centers, so the dungeon is connected room
/// to room.
pub open spec fn rooms_connected(m: GameMap) -> bool {
    forall|k: int|
        1 <= k < m.rooms@.len() ==> corridor_between(
            m,
            room_center_x(m.rooms@[k - 1]),
            room_center_y(m.rooms@[k - 1]),
            room_center_x(#[trigger] m.rooms@[k]),
            room_center_y(m.rooms@[k]),
        )
}

/// Carved floor never reverts to wall, so an existing corridor
/// survives any later carving.
proof fn lemma_corridor_monotone(pre: GameMap, post: GameMap, px: int, py: int, nx: int, ny: int)
    requires
        pre.wf(),
        post.wf(),
        post.width == pre.width,
        post.height == pre.height,
        forall|xa: int, ya: int|
            pre.in_bounds(xa, ya) && pre.tiles@[#[trigger] tile_idx(pre.width as int, xa, ya)]
                == TileType::Floor ==> post.tiles@[tile_idx(pre.width as int, xa, ya)]
                == TileType::Floor,
        1 <= px <= pre.width - 2,
        1 <= nx <= pre.width - 2,
        1 <= py <= pre.height - 2,
        1 <= ny <= pre.height - 2,
        corridor_between(pre, px, py, nx, ny),
    ensures
        corridor_between(post, px, py, nx, ny),
{
    if h_floor(pre, px, nx, py) && v_floor(pre, py, ny, nx) {
        assert forall|xa: int|
            (if px <= nx {
                px <= xa <= nx
            } else {
                nx <= xa <= px
            }) implies post.tiles@[#[trigger] tile_idx(post.width as int, xa, py)]
            == TileType::Floor by {
            assert(pre.tiles@[tile_idx(pre.width as int, xa, py)] == TileType::Floor);
            assert(pre.in_bounds(xa, py));
        }
        assert forall|ya: int|
            (if py <= ny {
                py <= ya <= ny
            } else {
                ny <= ya <= py
            }) implies post.tiles@[#[trigger] tile_idx(post.width as int, nx, ya)]
            == TileType::Floor by {
            assert(pre.tiles@[tile_idx(pre.width as int, nx, ya)] == TileType::Floor);
            assert(pre.in_bounds(nx, ya));
        }
        assert(h_floor(post, px, nx, py) && v_floor(post, py, ny, nx));
    } else {
        assert(h_floor(pre, px, nx, ny) && v_floor(pre, py, ny, px));
        assert forall|xa: int|
            (if px <= nx {
                px <= xa <= nx
            } else {
                nx <= xa <= px
            }) implies post.tiles@[#[trigger] tile_idx(post.width as int, xa, ny)]
            == TileType::Floor by {
            assert(pre.tiles@[tile_idx(pre.width as int, xa, ny)] == TileType::Floor);
            assert(pre.in_bounds(xa, ny));
        }
        assert forall|ya: int|
            (if py <= ny {
                py <= ya <= ny
            } else {
                ny <= ya <= py
            }) implies post.tiles@[#[trigger] tile_idx(post.width as int, px, ya)]
            == TileType::Floor by {
            assert(pre.tiles@[tile_idx(pre.width as int, px, ya)] == TileType::Floor);
            assert(pre.in_bounds(px, ya));
        }
        assert(h_floor(post, px, nx, ny) && v_floor(post, py, ny, px));
    }
}

/// Carving never disconnects rooms already joined: connectivity of
/// the room list survives any carving step that keeps floor floor.
proof fn lemma_connected_preserved(pre: GameMap, post: GameMap)
    requires
        pre.wf(),
        post.wf(),
        post.width == pre.width,
        post.height == pre.height,
        post.rooms@ == pre.rooms@,
        forall|k: int|
            0 <= k < pre.rooms@.len() ==> {
                &&& 1 <= #[trigger] pre.rooms@[k].x1 <= pre.rooms@[k].x2 <= pre.width - 2
                &&& 1 <= pre.rooms@[k].y1 <= pre.rooms@[k].y2 <= pre.height - 2
            },
        forall|xa: int, ya: int|
            pre.in_bounds(xa, ya) && pre.tiles@[#[trigger] tile_idx(pre.width as int, xa, ya)]
                == TileType::Floor ==> post.tiles@[tile_idx(pre.width as int, xa, ya)]
                == TileType::Floor,
        rooms_connected(pre),
    ensures
        rooms_connected(post),
{
    assert forall|k: int| 1 <= k < post.rooms@.len() implies corridor_between(
        post,
        room_center_x(post.rooms@[k - 1]),
        room_center_y(post.rooms@[k - 1]),
        room_center_x(#[trigger] post.rooms@[k]),
        room_center_y(post.rooms@[k]),
    ) by {
        assert(1 <= pre.rooms@[k - 1].x1 <= pre.rooms@[k - 1].x2 <= pre.width - 2);
        assert(1 <= pre.rooms@[k - 1].y1 <= pre.rooms@[k - 1].y2 <= pre.height - 2);
        assert(1 <= pre.rooms@[k].x1 <= pre.rooms@[k].x2 <= pre.width - 2);
        assert(1 <= pre.rooms@[k].y1 <= pre.rooms@[k].y2 <= pre.height - 2);
        lemma_corridor_monotone(
            pre,
            post,
            room_center_x(pre.rooms@[k - 1]),
            room_center_y(pre.rooms@[k - 1]),
            room_center_x(pre.rooms@[k]),
            room_center_y(pre.rooms@[k]),
        );
    }
}

/// Distinct in-bounds coordinates give distinct tile indices.
pub proof fn lemma_idx_inj(w: int, x1: int, y1: int, x2: int, y2: int)
    requires
        0 <= x1 < w,
        0 <= x2 < w,
        y1 * w + x1 == y2 * w + x2,
    ensures
        x1 == x2 && y1 == y2,
{
    assert(x1 == x2 && y1 == y2) by (nonlinear_arith)
        requires
            0 <= x1 < w,
            0 <= x2 < w,
            y1 * w + x1 == y2 * w + x2,
    ;
}

/// An in-bounds coordinate's tile index lies inside the tile array.
pub proof fn lemma_idx_bound(w: int, h: int, x: int, y: int)
    requires
        0 <= x < w,
        0 <= y < h,
    ensures
        0 <= y * w + x < w * h,
{
    assert(0 <= y * w + x < w * h) by (nonlinear_arith)
        requires
            0 <= x < w,
            0 <= y < h,
    ;
}

} // verus!
