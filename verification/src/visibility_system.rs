//! Visibility refresh: every dirty viewshed is recomputed from the
//! visibility service's answer, clipped to the map interior. Only the
//! player's viewshed drives the shared `visible` and `revealed`
//! arrays; other viewsheds are private to the monster AI.

use vstd::prelude::*;

use crate::components::Entity;
use crate::components::Position;
use crate::components::Viewshed;
use crate::map::GameMap;
use crate::map::tile_idx;
use crate::world::World;

verus! {

/// The visibility queries the refresh needs: every entity whose
/// viewshed is dirty and that stands somewhere, with its origin and
/// range, in entity order.
pub open spec fn vis_requests(w: World, k: int) -> Seq<(Entity, Position, i32)>
    decreases k,
{
    if k <= 0 {
        Seq::empty()
    } else {
        let prefix = vis_requests(w, k - 1);
        if w.viewsheds@[k - 1] is Some && w.viewsheds@[k - 1]->Some_0.dirty && w.positions@[k - 1]
            is Some {
            prefix.push(
                (
                    Entity((k - 1) as usize),
                    w.positions@[k - 1]->Some_0,
                    w.viewsheds@[k - 1]->Some_0.range,
                ),
            )
        } else {
            prefix
        }
    }
}

/// Lists the visibility queries to run this turn; the front end
/// answers each with the visibility service and hands the answer to
/// `VisibilitySystem::apply`.
#[verifier::loop_isolation(false)]
pub fn visibility_requests(ecs: &World) -> (r: Vec<(Entity, Position, i32)>)
    requires
        ecs.wf(),
    ensures
        r@ == vis_requests(*ecs, ecs.spec_entities() as int),
{
    let n = ecs.entity_count();
    let mut r: Vec<(Entity, Position, i32)> = Vec::new();
    let mut i: usize = 0;
    while i < n
        invariant
            i <= n,
            r@ == vis_requests(*ecs, i as int),
        decreases n - i,
    {
        let e = Entity(i);
        match ecs.viewsheds.get(e) {
            Some(v) => {
                if v.dirty {
                    let range = v.range;
                    match ecs.positions.get(e) {
                        Some(p) => {
                            r.push((e, *p, range));
                        },
                        None => {},
                    }
                }
            },
            None => {},
        }
        i = i + 1;
        proof {
            assert(vis_requests(*ecs, i as int) == if ecs.viewsheds@[i - 1] is Some
                && ecs.viewsheds@[i - 1]->Some_0.dirty && ecs.positions@[i - 1] is Some {
                vis_requests(*ecs, i - 1).push(
                    (
                        Entity((i - 1) as usize),
                        ecs.positions@[i - 1]->Some_0,
                        ecs.viewsheds@[i - 1]->Some_0.range,
                    ),
                )
            } else {
                vis_requests(*ecs, i - 1)
            });
            assert(Entity((i - 1) as usize) == e);
        }
    }
    r
}

/// The tile indices of the service's answer, clipped to the map
/// interior, in answer order.
pub open spec fn clipped_tiles(m: GameMap, pts: Seq<(i32, i32)>, k: int) -> Seq<usize>
    decreases k,
{
    if k <= 0 {
        Seq::empty()
    } else {
        let prefix = clipped_tiles(m, pts, k - 1);
        if m.in_interior(pts[k - 1].0 as int, pts[k - 1].1 as int) {
            prefix.push(tile_idx(m.width as int, pts[k - 1].0 as int, pts[k - 1].1 as int) as usize)
        } else {
            prefix
        }
    }
}

/// Whether one of the first `k` clipped tiles is tile `j`.
pub open spec fn marked_upto(vis: Seq<usize>, j: int, k: int) -> bool {
    exists|q: int| 0 <= q < k && vis[q] == j
}

pub struct VisibilitySystem {}

impl VisibilitySystem {
    /// Stores one recomputed viewshed: the service's tiles are clipped
    /// to the map interior and the dirty flag cleared. If the entity
    /// is the player, the map's `visible` array is rebuilt to exactly
    /// the new viewshed and `revealed` grows by it (never shrinking).
    #[verifier::loop_isolation(false)]
    #[verifier::rlimit(60)]
    pub fn apply(ecs: &mut World, map: &mut GameMap, e: Entity, tiles: &Vec<(i32, i32)>)
        requires
            old(ecs).wf(),
            old(map).wf(),
            e.0 < old(ecs).spec_entities(),
            old(ecs).viewsheds@[e.0 as int] is Some,
        ensures
            final(ecs).wf(),
            final(map).wf(),
            *final(ecs) == (World { viewsheds: final(ecs).viewsheds, ..*old(ecs) }),
            *final(map) == (GameMap {
                visible_tiles: final(map).visible_tiles,
                revealed_tiles: final(map).revealed_tiles,
                ..*old(map)
            }),
            final(ecs).viewsheds@.len() == old(ecs).viewsheds@.len(),
            forall|k: int|
                0 <= k < final(ecs).viewsheds@.len() && k != e.0 ==> final(ecs).viewsheds@[k] == old(
                    ecs,
                ).viewsheds@[k],
            final(ecs).viewsheds@[e.0 as int] is Some,
            final(ecs).viewsheds@[e.0 as int]->Some_0.visible_tiles@ == clipped_tiles(
                *old(map),
                tiles@,
                tiles@.len() as int,
            ),
            final(ecs).viewsheds@[e.0 as int]->Some_0.range == old(
                ecs,
            ).viewsheds@[e.0 as int]->Some_0.range,
            final(ecs).viewsheds@[e.0 as int]->Some_0.dirty == false,
            old(ecs).players@[e.0 as int] is Some ==> {
                &&& forall|j: int|
                    0 <= j < final(map).visible_tiles@.len() ==> final(map).visible_tiles@[j]
                        == clipped_tiles(*old(map), tiles@, tiles@.len() as int).contains(
                        j as usize,
                    )
                &&& forall|j: int|
                    0 <= j < final(map).revealed_tiles@.len() ==> final(map).revealed_tiles@[j] == (
                    old(map).revealed_tiles@[j] || clipped_tiles(
                        *old(map),
                        tiles@,
                        tiles@.len() as int,
                    ).contains(j as usize))
            },
            !(old(ecs).players@[e.0 as int] is Some) ==> *final(map) == *old(map),
    {
        let ghost m0 = *old(map);
        let nt = tiles.len();
        let mut vis: Vec<usize> = Vec::new();
        let mut k: usize = 0;
        while k < nt
            invariant
                k <= nt,
                vis@ == clipped_tiles(m0, tiles@, k as int),
                forall|q: int| 0 <= q < vis@.len() ==> (#[trigger] vis@[q]) < m0.tiles@.len(),
            decreases nt - k,
        {
            let px = tiles[k].0;
            let py = tiles[k].1;
            if px > 0 && px < map.width - 1 && py > 0 && py < map.height - 1 {
                let idx = map.xy_idx(px, py);
                vis.push(idx);
            }
            k = k + 1;
        }
        proof {
            assert(vis@ =~= clipped_tiles(m0, tiles@, tiles@.len() as int));
        }
        let range = match ecs.viewsheds.get(e) {
            Some(v) => v.range,
            None => 0,
        };
        if ecs.players.contains(e) {
            let total = map.visible_tiles.len();
            let mut j: usize = 0;
            while j < total
                invariant
                    map.wf(),
                    j <= total,
                    total == map.visible_tiles@.len(),
                    *map == (GameMap { visible_tiles: map.visible_tiles, ..m0 }),
                    forall|q: int| 0 <= q < j ==> map.visible_tiles@[q] == false,
                decreases total - j,
            {
                map.visible_tiles[j] = false;
                j = j + 1;
            }
            let nv = vis.len();
            let mut k2: usize = 0;
            while k2 < nv
                invariant
                    map.wf(),
                    k2 <= nv,
                    nv == vis@.len(),
                    forall|q: int| 0 <= q < vis@.len() ==> (#[trigger] vis@[q]) < m0.tiles@.len(),
                    *map == (GameMap {
                        visible_tiles: map.visible_tiles,
                        revealed_tiles: map.revealed_tiles,
                        ..m0
                    }),
                    map.visible_tiles@.len() == m0.visible_tiles@.len(),
                    map.revealed_tiles@.len() == m0.revealed_tiles@.len(),
                    forall|j2: int|
                        0 <= j2 < map.visible_tiles@.len() ==> map.visible_tiles@[j2]
                            == marked_upto(vis@, j2, k2 as int),
                    forall|j2: int|
                        0 <= j2 < map.revealed_tiles@.len() ==> map.revealed_tiles@[j2] == (
                        m0.revealed_tiles@[j2] || marked_upto(vis@, j2, k2 as int)),
                decreases nv - k2,
            {
                let t = vis[k2];
                map.visible_tiles[t] = true;
                map.revealed_tiles[t] = true;
                k2 = k2 + 1;
                proof {
                    assert forall|j2: int| 0 <= j2 < map.visible_tiles@.len() implies map
                        .visible_tiles@[j2] == marked_upto(vis@, j2, k2 as int) by {
                        if j2 == t {
                            assert(vis@[k2 - 1] == j2);
                            assert(marked_upto(vis@, j2, k2 as int));
                        } else {
                            assert(vis@[k2 - 1] != j2);
                            assert(marked_upto(vis@, j2, k2 as int) == marked_upto(
                                vis@,
                                j2,
                                k2 - 1,
                            ));
                        }
                    }
                    assert forall|j2: int| 0 <= j2 < map.revealed_tiles@.len() implies map
                        .revealed_tiles@[j2] == (m0.revealed_tiles@[j2] || marked_upto(
                        vis@,
                        j2,
                        k2 as int,
                    )) by {
                        if j2 == t {
                            assert(vis@[k2 - 1] == j2);
                            assert(marked_upto(vis@, j2, k2 as int));
                        } else {
                            assert(vis@[k2 - 1] != j2);
                            assert(marked_upto(vis@, j2, k2 as int) == marked_upto(
                                vis@,
                                j2,
                                k2 - 1,
                            ));
                        }
                    }
                }
            }
            proof {
                assert forall|j2: int| 0 <= j2 < map.visible_tiles@.len() implies map
                    .visible_tiles@[j2] == vis@.contains(j2 as usize) by {
                    if marked_upto(vis@, j2, nv as int) {
                        let q = choose|q: int| 0 <= q < nv && vis@[q] == j2;
                        assert(vis@[q] == j2 as usize);
                        assert(vis@.contains(j2 as usize));
                    }
                    if vis@.contains(j2 as usize) {
                        let q = choose|q: int| 0 <= q < vis@.len() && vis@[q] == j2 as usize;
                        assert(vis@[q] < m0.tiles@.len());
                        assert(marked_upto(vis@, j2, nv as int));
                    }
                }
                assert forall|j2: int| 0 <= j2 < map.revealed_tiles@.len() implies map
                    .revealed_tiles@[j2] == (m0.revealed_tiles@[j2] || vis@.contains(j2 as usize))
                    by {
                    if marked_upto(vis@, j2, nv as int) {
                        let q = choose|q: int| 0 <= q < nv && vis@[q] == j2;
                        assert(vis@[q] == j2 as usize);
                        assert(vis@.contains(j2 as usize));
                    }
                    if vis@.contains(j2 as usize) {
                        let q = choose|q: int| 0 <= q < vis@.len() && vis@[q] == j2 as usize;
                        assert(marked_upto(vis@, j2, nv as int));
                    }
                }
            }
        }
                proof {
            if old(ecs).players@[e.0 as int] is Some {
                assert forall|j: int| 0 <= j < map.visible_tiles@.len() implies map
                    .visible_tiles@[j] == clipped_tiles(*old(map), tiles@, tiles@.len() as int).contains(
                    j as usize,
                ) by {
                    assert(map.visible_tiles@[j] == vis@.contains(j as usize));
                }
                assert forall|j: int| 0 <= j < map.revealed_tiles@.len() implies map
                    .revealed_tiles@[j] == (old(map).revealed_tiles@[j] || clipped_tiles(
                    *old(map),
                    tiles@,
                    tiles@.len() as int,
                ).contains(j as usize)) by {
                    assert(map.revealed_tiles@[j] == (m0.revealed_tiles@[j] || vis@.contains(
                        j as usize,
                    )));
                }
            } else {
                assert(*map == m0);
            }
        }
        ecs.viewsheds.insert(e, Viewshed { visible_tiles: vis, range, dirty: false });
    }
}

} // verus!
