//! Damage application: sums every entity's pending damage into its hit
//! points, marks bloodstains, and clears every accumulator. Reaping
//! (`delete_the_dead`) runs separately, after the full pipeline.

use vstd::prelude::*;

use crate::components::CombatStats;
use crate::components::Entity;
use crate::components::SufferDamage;
use crate::gamelog::GameLog;
use crate::gamelog::LogEvent;
use crate::gamelog::LogEventV;
use crate::components::RunState;
use crate::map::GameMap;
use crate::map::tile_idx;
use crate::storage::Storage;
use crate::world::World;

verus! {

/// The sum of a sequence of pending damage amounts.
pub open spec fn sum_seq(s: Seq<i32>) -> int
    decreases s.len(),
{
    if s.len() == 0 {
        0
    } else {
        sum_seq(s.drop_last()) + s.last()
    }
}

/// Every sum of `n` amounts lies within `n` times the amount range.
pub proof fn lemma_sum_seq_bounds(s: Seq<i32>)
    ensures
        s.len() * (i32::MIN as int) <= sum_seq(s) <= s.len() * (i32::MAX as int),
    decreases s.len(),
{
    if s.len() == 0 {
    } else {
        lemma_sum_seq_bounds(s.drop_last());
        assert((s.len() - 1) * (i32::MIN as int) + (i32::MIN as int) == s.len() * (
        i32::MIN as int)) by (nonlinear_arith);
        assert((s.len() - 1) * (i32::MAX as int) + (i32::MAX as int) == s.len() * (
        i32::MAX as int)) by (nonlinear_arith);
    }
}

/// Taking one more element adds it to the sum.
pub proof fn lemma_sum_seq_take(s: Seq<i32>, i: int)
    requires
        0 <= i < s.len(),
    ensures
        sum_seq(s.take(i + 1)) == sum_seq(s.take(i)) + s[i],
{
    assert(s.take(i + 1).drop_last() =~= s.take(i));
    assert(s.take(i + 1).last() == s[i]);
}

/// Sums the pending amounts; wide arithmetic, so it cannot overflow.
pub fn sum_amounts(v: &Vec<i32>) -> (total: i128)
    ensures
        total == sum_seq(v@),
        v@.len() * (i32::MIN as int) <= total <= v@.len() * (i32::MAX as int),
{
    let n = v.len();
    let mut total: i128 = 0;
    let mut i: usize = 0;
    proof {
        assert(v@.take(0) =~= Seq::<i32>::empty());
    }
    while i < n
        invariant
            n == v@.len(),
            i <= n,
            total == sum_seq(v@.take(i as int)),
            i * (i32::MIN as int) <= total <= i * (i32::MAX as int),
        decreases n - i,
    {
        proof {
            lemma_sum_seq_take(v@, i as int);
            assert((i + 1) * (i32::MIN as int) == i * (i32::MIN as int) + (i32::MIN as int))
                by (nonlinear_arith);
            assert((i + 1) * (i32::MAX as int) == i * (i32::MAX as int) + (i32::MAX as int))
                by (nonlinear_arith);
        }
        total = total + (v[i] as i128);
        i = i + 1;
    }
    proof {
        assert(v@.take(n as int) =~= v@);
    }
    total
}

impl SufferDamage {
    /// Appends one damage amount to the victim's accumulator, creating
    /// the accumulator if the victim has none yet.
    pub fn new_damage(store: &mut Storage<SufferDamage>, victim: Entity, amount: i32)
        requires
            victim.0 < old(store)@.len(),
        ensures
            final(store)@.len() == old(store)@.len(),
            forall|j: int|
                0 <= j < final(store)@.len() && j != victim.0 ==> final(store)@[j] == old(
                    store,
                )@[j],
            final(store)@[victim.0 as int] is Some,
            final(store)@[victim.0 as int]->Some_0.amount@ == (match old(store)@[victim.0 as int] {
                Some(d) => d.amount@,
                None => Seq::<i32>::empty(),
            }).push(amount),
    {
        match store.take(victim) {
            Some(mut d) => {
                d.amount.push(amount);
                store.insert(victim, d);
            },
            None => {
                let mut v: Vec<i32> = Vec::new();
                v.push(amount);
                store.insert(victim, SufferDamage { amount: v });
            },
        }
    }
}

/// Whether some entity among the first `k` holds combat statistics, an
/// accumulator, and a position whose tile index is `j`: those tiles get
/// a bloodstain.
pub open spec fn bloodstain_at_upto(w: World, m: GameMap, j: int, k: int) -> bool {
    exists|i: int|
        0 <= i < k && w.combat_stats@[i] is Some && w.suffer_damage@[i] is Some
            && w.positions@[i] is Some && tile_idx(
            m.width as int,
            w.positions@[i]->Some_0.x as int,
            w.positions@[i]->Some_0.y as int,
        ) == j
}

/// The hit points entity `i` ends the damage stage with.
pub open spec fn hp_after_damage(w: World, i: int) -> Option<CombatStats> {
    match w.combat_stats@[i] {
        Some(s) => {
            if w.suffer_damage@[i] is Some {
                Some(
                    CombatStats {
                        hp: (s.hp - sum_seq(w.suffer_damage@[i]->Some_0.amount@)) as i32,
                        ..s
                    },
                )
            } else {
                Some(s)
            }
        },
        None => None,
    }
}

/// The tile that entity `i` marks with a bloodstain this stage, if
/// any: it must hold statistics, an accumulator, and a position.
pub open spec fn damage_mark(w: World, m: GameMap, i: int) -> Option<int> {
    if w.combat_stats@[i] is Some && w.suffer_damage@[i] is Some && w.positions@[i] is Some {
        Some(
            tile_idx(
                m.width as int,
                w.positions@[i]->Some_0.x as int,
                w.positions@[i]->Some_0.y as int,
            ),
        )
    } else {
        None
    }
}

/// Applies the summed pending damage of one entity, marking its tile.
fn apply_damage_to(ecs: &mut World, map: &mut GameMap, e: Entity)
    requires
        old(ecs).wf(),
        old(map).wf(),
        e.0 < old(ecs).spec_entities(),
        old(ecs).positions@[e.0 as int] is Some ==> old(map).in_bounds(
            old(ecs).positions@[e.0 as int]->Some_0.x as int,
            old(ecs).positions@[e.0 as int]->Some_0.y as int,
        ),
        old(ecs).combat_stats@[e.0 as int] is Some && old(ecs).suffer_damage@[e.0 as int] is Some
            ==> i32::MIN <= old(ecs).combat_stats@[e.0 as int]->Some_0.hp - sum_seq(
            old(ecs).suffer_damage@[e.0 as int]->Some_0.amount@,
        ) <= i32::MAX,
    ensures
        final(ecs).wf(),
        final(map).wf(),
        *final(ecs) == (World { combat_stats: final(ecs).combat_stats, ..*old(ecs) }),
        *final(map) == (GameMap { bloodstains: final(map).bloodstains, ..*old(map) }),
        final(ecs).combat_stats@.len() == old(ecs).combat_stats@.len(),
        forall|k: int|
            0 <= k < final(ecs).combat_stats@.len() && k != e.0 ==> final(ecs).combat_stats@[k]
                == old(ecs).combat_stats@[k],
        final(ecs).combat_stats@[e.0 as int] == hp_after_damage(*old(ecs), e.0 as int),
        final(map).bloodstains@.len() == old(map).bloodstains@.len(),
        forall|j: int|
            0 <= j < final(map).bloodstains@.len() ==> final(map).bloodstains@[j] == (old(
                map,
            ).bloodstains@[j] || damage_mark(*old(ecs), *old(map), e.0 as int) == Some(j)),
{
    let has_damage = ecs.suffer_damage.contains(e);
    if has_damage {
        match ecs.combat_stats.get(e) {
            Some(stats_ref) => {
                let stats = *stats_ref;
                let total = match ecs.suffer_damage.get(e) {
                    Some(d) => sum_amounts(&d.amount),
                    None => 0,
                };
                let new_hp = ((stats.hp as i128) - total) as i32;
                ecs.combat_stats.insert(e, CombatStats { hp: new_hp, ..stats });
                let pos = match ecs.positions.get(e) {
                    Some(p) => Some(*p),
                    None => None,
                };
                if let Some(p) = pos {
                    let idx = map.xy_idx(p.x, p.y);
                    map.bloodstains[idx] = true;
                }
            },
            None => {},
        }
    }
}

/// Whether every entity's summed pending damage applies without
/// leaving the machine range of its hit points: the condition
/// `DamageSystem::run` requires. The front end tests it before the
/// damage stage and fails loudly where an unchecked subtraction would
/// have.
#[verifier::loop_isolation(false)]
pub fn damage_stays_in_range(ecs: &World) -> (r: bool)
    requires
        ecs.wf(),
    ensures
        r == forall|i: int|
            0 <= i < ecs.spec_entities() && ecs.combat_stats@[i] is Some && ecs.suffer_damage@[i]
                is Some ==> i32::MIN <= ecs.combat_stats@[i]->Some_0.hp - sum_seq(
                ecs.suffer_damage@[i]->Some_0.amount@,
            ) <= i32::MAX,
{
    let n = ecs.entity_count();
    let mut i: usize = 0;
    while i < n
        invariant
            i <= n,
            forall|k: int|
                0 <= k < i && ecs.combat_stats@[k] is Some && (#[trigger] ecs.suffer_damage@[k])
                    is Some ==> i32::MIN <= ecs.combat_stats@[k]->Some_0.hp - sum_seq(
                    ecs.suffer_damage@[k]->Some_0.amount@,
                ) <= i32::MAX,
        decreases n - i,
    {
        let e = Entity(i);
        if ecs.combat_stats.contains(e) {
            match ecs.suffer_damage.get(e) {
                Some(d) => {
                    let dl = d.amount.len();
                    let total = sum_amounts(&d.amount);
                    let hp = match ecs.combat_stats.get(e) {
                        Some(s) => s.hp,
                        None => 0,
                    };
                    proof {
                        assert((hp as int) - total >= i128::MIN && (hp as int) - total
                            <= i128::MAX) by (nonlinear_arith)
                            requires
                                total <= (dl as int) * (i32::MAX as int),
                                total >= (dl as int) * (i32::MIN as int),
                                dl <= usize::MAX,
                                i32::MIN <= hp <= i32::MAX,
                        ;
                    }
                    let left = (hp as i128) - total;
                    if left < (i32::MIN as i128) || left > (i32::MAX as i128) {
                        return false;
                    }
                },
                None => {},
            }
        }
        i = i + 1;
    }
    true
}

pub struct DamageSystem {}

impl DamageSystem {
    /// For every entity holding both combat statistics and a damage
    /// accumulator: subtracts the summed pending damage from its hit
    /// points and, if it has a position, marks that tile as
    /// bloodstained. Every accumulator is then cleared, empty or not.
    #[verifier::loop_isolation(false)]
    pub fn run(ecs: &mut World, map: &mut GameMap)
        requires
            old(ecs).wf(),
            old(map).wf(),
            forall|i: int|
                0 <= i < old(ecs).spec_entities() && old(ecs).positions@[i] is Some ==> old(
                    map,
                ).in_bounds(
                    old(ecs).positions@[i]->Some_0.x as int,
                    old(ecs).positions@[i]->Some_0.y as int,
                ),
            forall|i: int|
                0 <= i < old(ecs).spec_entities() && old(ecs).combat_stats@[i] is Some && old(
                    ecs,
                ).suffer_damage@[i] is Some ==> i32::MIN <= old(
                    ecs,
                ).combat_stats@[i]->Some_0.hp - sum_seq(old(ecs).suffer_damage@[i]->Some_0.amount@)
                    <= i32::MAX,
        ensures
            final(ecs).wf(),
            final(map).wf(),
            *final(ecs) == (World {
                combat_stats: final(ecs).combat_stats,
                suffer_damage: final(ecs).suffer_damage,
                ..*old(ecs)
            }),
            *final(map) == (GameMap { bloodstains: final(map).bloodstains, ..*old(map) }),
            forall|i: int| 0 <= i < final(ecs).spec_entities() ==> final(ecs).suffer_damage@[i] is None,
            forall|i: int|
                0 <= i < final(ecs).spec_entities() ==> final(ecs).combat_stats@[i]
                    == hp_after_damage(*old(ecs), i),
            forall|j: int|
                0 <= j < final(map).bloodstains@.len() ==> final(map).bloodstains@[j] == (old(
                    map,
                ).bloodstains@[j] || bloodstain_at_upto(
                    *old(ecs),
                    *old(map),
                    j,
                    old(ecs).spec_entities() as int,
                )),
    {
        let ghost w0 = *old(ecs);
        let ghost m0 = *old(map);
        let n = ecs.entity_count();
        let mut i: usize = 0;
        while i < n
            invariant
                ecs.wf(),
                map.wf(),
                n == ecs.spec_entities(),
                i <= n,
                *ecs == (World {
                    combat_stats: ecs.combat_stats,
                    ..w0
                }),
                *map == (GameMap { bloodstains: map.bloodstains, ..m0 }),
                forall|k: int| 0 <= k < i ==> ecs.combat_stats@[k] == hp_after_damage(w0, k),
                forall|k: int| i <= k < n ==> ecs.combat_stats@[k] == w0.combat_stats@[k],
                forall|j: int|
                    0 <= j < map.bloodstains@.len() ==> map.bloodstains@[j] == (m0.bloodstains@[j]
                        || bloodstain_at_upto(w0, m0, j, i as int)),
            decreases n - i,
        {
            let e = Entity(i);
            let ghost w_pre = *ecs;
            let ghost m_pre = *map;
            apply_damage_to(ecs, map, e);
            i = i + 1;
            proof {
                assert(ecs.combat_stats@[i - 1] == hp_after_damage(w_pre, i - 1));
                assert(ecs.combat_stats@[i - 1] == hp_after_damage(w0, i - 1));
                assert forall|j: int| 0 <= j < map.bloodstains@.len() implies map.bloodstains@[j]
                    == (m0.bloodstains@[j] || bloodstain_at_upto(w0, m0, j, i as int)) by {
                    if damage_mark(w_pre, m_pre, i - 1) == Some(j) {
                        assert(w0.combat_stats@[i - 1] is Some);
                        assert(w0.suffer_damage@[i - 1] is Some);
                        assert(w0.positions@[i - 1] is Some);
                        assert(tile_idx(
                            m0.width as int,
                            w0.positions@[i - 1]->Some_0.x as int,
                            w0.positions@[i - 1]->Some_0.y as int,
                        ) == j);
                        assert(bloodstain_at_upto(w0, m0, j, i as int));
                    } else {
                        assert(!(w0.combat_stats@[i - 1] is Some && w0.suffer_damage@[i - 1]
                            is Some && w0.positions@[i - 1] is Some && tile_idx(
                            m0.width as int,
                            w0.positions@[i - 1]->Some_0.x as int,
                            w0.positions@[i - 1]->Some_0.y as int,
                        ) == j));
                        assert(bloodstain_at_upto(w0, m0, j, i as int) == bloodstain_at_upto(
                            w0,
                            m0,
                            j,
                            i - 1,
                        ));
                    }
                }
            }
        }
        ecs.suffer_damage.clear();
    }
}

/// Whether entity `i` is dead (hit points below one) and not the
/// player, so reaping destroys it.
pub open spec fn is_dead_nonplayer(w: World, i: int) -> bool {
    &&& w.combat_stats@[i] is Some
    &&& w.combat_stats@[i]->Some_0.hp < 1
    &&& !(w.players@[i] is Some)
}

/// The dead non-player entities among the first `k`, in entity order:
/// exactly the deletions that reaping queues.
pub open spec fn dead_seq(w: World, k: int) -> Seq<Entity>
    decreases k,
{
    if k <= 0 {
        Seq::empty()
    } else {
        let prefix = dead_seq(w, k - 1);
        if is_dead_nonplayer(w, k - 1) {
            prefix.push(Entity((k - 1) as usize))
        } else {
            prefix
        }
    }
}

/// The death notices reaping appends to the log, in entity order: one
/// for every dead non-player that carries a name.
pub open spec fn death_log(w: World, k: int) -> Seq<LogEventV>
    decreases k,
{
    if k <= 0 {
        Seq::empty()
    } else {
        let prefix = death_log(w, k - 1);
        if is_dead_nonplayer(w, k - 1) && w.names@[k - 1] is Some {
            prefix.push(LogEventV::Death { name: w.names@[k - 1]->Some_0.name@ })
        } else {
            prefix
        }
    }
}

/// Whether some entity among the first `k` is a dead player, which
/// ends the game instead of being destroyed.
pub open spec fn dead_player_upto(w: World, k: int) -> bool {
    exists|i: int|
        0 <= i < k && w.combat_stats@[i] is Some && w.combat_stats@[i]->Some_0.hp < 1
            && w.players@[i] is Some
}

/// Reaping: scans every entity with combat statistics whose hit points
/// fell below one. Non-players are queued for deletion at the next
/// sync point, with a death notice if they are named; a dead player
/// instead moves the game to its terminal state. Reaping runs after
/// the full pipeline, never inside it.
#[verifier::loop_isolation(false)]
pub fn delete_the_dead(ecs: &mut World, log: &mut GameLog, runstate: &mut RunState)
    requires
        old(ecs).wf(),
    ensures
        final(ecs).wf(),
        final(ecs).spec_entities() == old(ecs).spec_entities(),
        *final(ecs) == (World { pending_deletes: final(ecs).pending_deletes, ..*old(ecs) }),
        final(ecs).pending_deletes@ == old(ecs).pending_deletes@ + dead_seq(
            *old(ecs),
            old(ecs).spec_entities() as int,
        ),
        final(log)@ == old(log)@ + death_log(*old(ecs), old(ecs).spec_entities() as int),
        *final(runstate) == if dead_player_upto(*old(ecs), old(ecs).spec_entities() as int) {
            RunState::GameOver
        } else {
            *old(runstate)
        },
{
    let ghost w0 = *old(ecs);
    let ghost p0 = old(ecs).pending_deletes@;
    let ghost l0 = old(log)@;
    let ghost rs0 = *old(runstate);
    let n = ecs.entity_count();
    let mut i: usize = 0;
    proof {
        assert(ecs.pending_deletes@ =~= p0 + dead_seq(w0, 0));
        assert(log@ =~= l0 + death_log(w0, 0));
    }
    while i < n
        invariant
            ecs.wf(),
            i <= n,
            *ecs == (World { pending_deletes: ecs.pending_deletes, ..w0 }),
            ecs.pending_deletes@ == p0 + dead_seq(w0, i as int),
            log@ == l0 + death_log(w0, i as int),
            *runstate == if dead_player_upto(w0, i as int) {
                RunState::GameOver
            } else {
                rs0
            },
        decreases n - i,
    {
        let e = Entity(i);
        let mut dead = false;
        let mut player_dead = false;
        match ecs.combat_stats.get(e) {
            Some(stats) => {
                if stats.hp < 1 {
                    if ecs.players.contains(e) {
                        player_dead = true;
                    } else {
                        dead = true;
                    }
                }
            },
            None => {},
        }
        if player_dead {
            *runstate = RunState::GameOver;
        } else if dead {
            match ecs.names.get(e) {
                Some(n_ref) => {
                    let name = n_ref.name.clone();
                    log.push(LogEvent::Death { name });
                },
                None => {},
            }
            ecs.delete_entity(e);
        }
        i = i + 1;
        proof {
            assert(dead_seq(w0, i as int) == if is_dead_nonplayer(w0, i - 1) {
                dead_seq(w0, i - 1).push(Entity((i - 1) as usize))
            } else {
                dead_seq(w0, i - 1)
            });
            if is_dead_nonplayer(w0, i - 1) {
                assert(ecs.pending_deletes@ =~= p0 + dead_seq(w0, i as int));
            }
            if is_dead_nonplayer(w0, i - 1) && w0.names@[i - 1] is Some {
                assert(log@ =~= l0 + death_log(w0, i as int));
            }
            if *runstate == RunState::GameOver && rs0 != RunState::GameOver {
                assert(dead_player_upto(w0, i as int));
            }
            if !(w0.combat_stats@[i - 1] is Some && w0.combat_stats@[i - 1]->Some_0.hp < 1
                && w0.players@[i - 1] is Some) {
                assert(dead_player_upto(w0, i as int) == dead_player_upto(w0, i - 1));
            }
        }
    }
}

} // verus!
