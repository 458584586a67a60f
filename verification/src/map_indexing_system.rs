//! Spatial re-indexing: after movement and before combat, `blocked`
//! and `tile_content` are rebuilt in full from terrain and the current
//! positions, never incrementally.

use vstd::prelude::*;

use crate::components::Entity;
use crate::map::GameMap;
use crate::map::TileType;
use crate::map::tile_idx;
use crate::world::World;

verus! {

/// Whether some entity among the first `k` blocks tile `j`: it has a
/// position with that tile index and carries the blocker tag.
pub open spec fn blocker_at_upto(w: World, width: int, j: int, k: int) -> bool {
    exists|i: int|
        0 <= i < k && w.positions@[i] is Some && w.blockers@[i] is Some && tile_idx(
            width,
            w.positions@[i]->Some_0.x as int,
            w.positions@[i]->Some_0.y as int,
        ) == j
}

/// The entities occupying tile `j` among the first `k`, in entity
/// order.
pub open spec fn content_at_upto(w: World, width: int, j: int, k: int) -> Seq<Entity>
    decreases k,
{
    if k <= 0 {
        Seq::empty()
    } else {
        let prefix = content_at_upto(w, width, j, k - 1);
        if w.positions@[k - 1] is Some && tile_idx(
            width,
            w.positions@[k - 1]->Some_0.x as int,
            w.positions@[k - 1]->Some_0.y as int,
        ) == j {
            prefix.push(Entity((k - 1) as usize))
        } else {
            prefix
        }
    }
}

/// Whether every positioned entity stands on the map: the condition
/// the indexing, visibility, and damage stages require of positions.
/// The front end tests it before those stages and fails loudly where
/// an out-of-range tile lookup would have.
#[verifier::loop_isolation(false)]
pub fn positions_on_map(ecs: &World, map: &GameMap) -> (r: bool)
    requires
        ecs.wf(),
        map.wf(),
    ensures
        r == forall|i: int|
            0 <= i < ecs.spec_entities() && (#[trigger] ecs.positions@[i]) is Some ==> map
                .in_bounds(
                ecs.positions@[i]->Some_0.x as int,
                ecs.positions@[i]->Some_0.y as int,
            ),
{
    let n = ecs.entity_count();
    let mut i: usize = 0;
    while i < n
        invariant
            i <= n,
            forall|k: int|
                0 <= k < i && (#[trigger] ecs.positions@[k]) is Some ==> map.in_bounds(
                    ecs.positions@[k]->Some_0.x as int,
                    ecs.positions@[k]->Some_0.y as int,
                ),
        decreases n - i,
    {
        let e = Entity(i);
        match ecs.positions.get(e) {
            Some(p) => {
                if p.x < 0 || p.x >= map.width || p.y < 0 || p.y >= map.height {
                    return false;
                }
            },
            None => {},
        }
        i = i + 1;
    }
    true
}

pub struct MapIndexingSystem {}

impl MapIndexingSystem {
    /// Rebuilds `blocked` (walls or tiles occupied by a blocker) and
    /// `tile_content` (every positioned entity, indexed by its tile)
    /// from the current positions. A full rebuild: an entity that
    /// moved this turn no longer blocks its old tile.
    #[verifier::loop_isolation(false)]
    pub fn run(ecs: &World, map: &mut GameMap)
        requires
            ecs.wf(),
            old(map).wf(),
            forall|i: int|
                0 <= i < ecs.spec_entities() && (#[trigger] ecs.positions@[i]) is Some ==> old(
                    map,
                ).in_bounds(
                    ecs.positions@[i]->Some_0.x as int,
                    ecs.positions@[i]->Some_0.y as int,
                ),
        ensures
            final(map).wf(),
            *final(map) == (GameMap {
                blocked: final(map).blocked,
                tile_content: final(map).tile_content,
                ..*old(map)
            }),
            final(map).blocked@.len() == old(map).blocked@.len(),
            final(map).tile_content@.len() == old(map).tile_content@.len(),
            forall|j: int|
                0 <= j < final(map).blocked@.len() ==> final(map).blocked@[j] == (old(
                    map,
                ).tiles@[j] == TileType::Wall || blocker_at_upto(
                    *ecs,
                    old(map).width as int,
                    j,
                    ecs.spec_entities() as int,
                )),
            forall|j: int|
                0 <= j < final(map).tile_content@.len() ==> final(map).tile_content@[j]@
                    == content_at_upto(
                    *ecs,
                    old(map).width as int,
                    j,
                    ecs.spec_entities() as int,
                ),
    {
        map.populate_blocked();
        map.clear_content_index();
        let ghost m0 = *old(map);
        let ghost w = *ecs;
        let n = ecs.entity_count();
        let mut i: usize = 0;
        proof {
            assert forall|j: int| 0 <= j < map.tile_content@.len() implies map.tile_content@[j]@
                =~= content_at_upto(w, m0.width as int, j, 0) by {}
        }
        while i < n
            invariant
                map.wf(),
                i <= n,
                *map == (GameMap {
                    blocked: map.blocked,
                    tile_content: map.tile_content,
                    ..m0
                }),
                map.blocked@.len() == m0.blocked@.len(),
                map.tile_content@.len() == m0.tile_content@.len(),
                forall|j: int|
                    0 <= j < map.blocked@.len() ==> map.blocked@[j] == (m0.tiles@[j]
                        == TileType::Wall || blocker_at_upto(w, m0.width as int, j, i as int)),
                forall|j: int|
                    0 <= j < map.tile_content@.len() ==> (#[trigger] map.tile_content@[j])@
                        == content_at_upto(w, m0.width as int, j, i as int),
            decreases n - i,
        {
            let e = Entity(i);
            let ghost b_pre = map.blocked@;
            let ghost c_pre = map.tile_content@;
            let pos = match ecs.positions.get(e) {
                Some(p) => Some(*p),
                None => None,
            };
            if let Some(p) = pos {
                let idx = map.xy_idx(p.x, p.y);
                if ecs.blockers.contains(e) {
                    map.blocked[idx] = true;
                }
                map.tile_content[idx].push(e);
            }
            i = i + 1;
            proof {
                assert forall|j: int| 0 <= j < map.blocked@.len() implies map.blocked@[j] == (
                m0.tiles@[j] == TileType::Wall || blocker_at_upto(w, m0.width as int, j, i as int))
                    by {
                    if w.positions@[i - 1] is Some && w.blockers@[i - 1] is Some && tile_idx(
                        m0.width as int,
                        w.positions@[i - 1]->Some_0.x as int,
                        w.positions@[i - 1]->Some_0.y as int,
                    ) == j {
                        assert(blocker_at_upto(w, m0.width as int, j, i as int));
                        assert(map.blocked@[j]);
                    } else {
                        assert(blocker_at_upto(w, m0.width as int, j, i as int) == blocker_at_upto(
                            w,
                            m0.width as int,
                            j,
                            i - 1,
                        ));
                        assert(map.blocked@[j] == b_pre[j]);
                    }
                }
                assert forall|j: int| 0 <= j < map.tile_content@.len() implies (
                #[trigger] map.tile_content@[j])@ == content_at_upto(w, m0.width as int, j, i as int)
                    by {
                    assert(c_pre[j]@ == content_at_upto(w, m0.width as int, j, i - 1));
                    if w.positions@[i - 1] is Some && tile_idx(
                        m0.width as int,
                        w.positions@[i - 1]->Some_0.x as int,
                        w.positions@[i - 1]->Some_0.y as int,
                    ) == j {
                        assert(Entity((i - 1) as usize) == e);
                        assert(map.tile_content@[j]@ == c_pre[j]@.push(Entity((i - 1) as usize)));
                    } else {
                        assert(map.tile_content@[j] == c_pre[j]);
                    }
                }
            }
        }
    }
}

/// Idempotence of map indexing: running the rebuild twice in a row
/// with no intervening position change yields identical `blocked` and
/// `tile_content` arrays, because the rebuild depends only on the
/// terrain and the positions, and changes neither.
pub proof fn lemma_map_indexing_idempotent(w: World, m0: GameMap, m1: GameMap, m2: GameMap)
    requires
        m1.tiles@ == m0.tiles@,
        m1.width == m0.width,
        m2.tiles@ == m1.tiles@,
        m2.width == m1.width,
        m1.blocked@.len() == m0.blocked@.len(),
        m1.tile_content@.len() == m0.tile_content@.len(),
        m2.blocked@.len() == m1.blocked@.len(),
        m2.tile_content@.len() == m1.tile_content@.len(),
        m0.blocked@.len() == m0.tiles@.len(),
        m0.tile_content@.len() == m0.tiles@.len(),
        forall|j: int|
            0 <= j < m1.blocked@.len() ==> m1.blocked@[j] == (m0.tiles@[j] == TileType::Wall
                || blocker_at_upto(w, m0.width as int, j, w.spec_entities() as int)),
        forall|j: int|
            0 <= j < m1.tile_content@.len() ==> m1.tile_content@[j]@ == content_at_upto(
                w,
                m0.width as int,
                j,
                w.spec_entities() as int,
            ),
        forall|j: int|
            0 <= j < m2.blocked@.len() ==> m2.blocked@[j] == (m1.tiles@[j] == TileType::Wall
                || blocker_at_upto(w, m1.width as int, j, w.spec_entities() as int)),
        forall|j: int|
            0 <= j < m2.tile_content@.len() ==> m2.tile_content@[j]@ == content_at_upto(
                w,
                m1.width as int,
                j,
                w.spec_entities() as int,
            ),
    ensures
        m2.blocked@ == m1.blocked@,
        forall|j: int|
            0 <= j < m2.tile_content@.len() ==> m2.tile_content@[j]@ == m1.tile_content@[j]@,
{
    assert(m2.blocked@ =~= m1.blocked@);
    assert forall|j: int| 0 <= j < m2.tile_content@.len() implies m2.tile_content@[j]@
        == m1.tile_content@[j]@ by {
        assert(m2.tile_content@[j]@ == content_at_upto(w, m1.width as int, j, w.spec_entities() as int));
        assert(m1.tile_content@[j]@ == content_at_upto(w, m0.width as int, j, w.spec_entities() as int));
    }
}

} // verus!
