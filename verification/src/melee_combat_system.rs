//! Melee resolution: every living attacker with a melee intent strikes
//! its target, appending `max(0, effective power - effective defense)`
//! to the target's damage accumulator. Hit points themselves change
//! only later, in the damage stage.

use vstd::prelude::*;

use crate::components::Entity;
use crate::components::Equipped;
use crate::components::MeleePowerBonus;
use crate::components::DefenseBonus;
use crate::components::SufferDamage;
use crate::gamelog::GameLog;
use crate::gamelog::LogEvent;
use crate::gamelog::LogEventV;
use crate::spec_melee_damage;
use crate::world::World;

verus! {

/// The accumulator contents of every entity: the mathematical value of
/// a `SufferDamage` storage.
pub open spec fn suffer_view(s: Seq<Option<SufferDamage>>) -> Seq<Option<Seq<i32>>> {
    Seq::new(
        s.len(),
        |i: int|
            match s[i] {
                Some(d) => Some(d.amount@),
                None => None,
            },
    )
}

/// The summed melee power bonus of items equipped by `owner`, over the
/// first `k` entities.
pub open spec fn power_bonus_upto(
    eq: Seq<Option<Equipped>>,
    bon: Seq<Option<MeleePowerBonus>>,
    owner: int,
    k: int,
) -> int
    decreases k,
{
    if k <= 0 {
        0
    } else {
        power_bonus_upto(eq, bon, owner, k - 1) + if eq[k - 1] is Some && eq[k - 1]->Some_0.owner.0
            == owner && bon[k - 1] is Some {
            bon[k - 1]->Some_0.power as int
        } else {
            0
        }
    }
}

/// The summed defense bonus of items equipped by `owner`, over the
/// first `k` entities.
pub open spec fn defense_bonus_upto(
    eq: Seq<Option<Equipped>>,
    bon: Seq<Option<DefenseBonus>>,
    owner: int,
    k: int,
) -> int
    decreases k,
{
    if k <= 0 {
        0
    } else {
        defense_bonus_upto(eq, bon, owner, k - 1) + if eq[k - 1] is Some && eq[k
            - 1]->Some_0.owner.0 == owner && bon[k - 1] is Some {
            bon[k - 1]->Some_0.defense as int
        } else {
            0
        }
    }
}

/// Effective melee power of entity `a`: base power plus every equipped
/// melee power bonus.
pub open spec fn eff_power(w: World, a: int) -> int {
    w.combat_stats@[a]->Some_0.power + power_bonus_upto(
        w.equipped@,
        w.melee_bonuses@,
        a,
        w.equipped@.len() as int,
    )
}

/// Effective defense of entity `d`: base defense plus every equipped
/// defense bonus.
pub open spec fn eff_defense(w: World, d: int) -> int {
    w.combat_stats@[d]->Some_0.defense + defense_bonus_upto(
        w.equipped@,
        w.defense_bonuses@,
        d,
        w.equipped@.len() as int,
    )
}

/// Whether entity `i` acts as a melee attacker this stage: it wants to
/// melee, is named, has combat statistics, and is still alive.
pub open spec fn melee_attacker(w: World, i: int) -> bool {
    &&& w.wants_melee@[i] is Some
    &&& w.names@[i] is Some
    &&& w.combat_stats@[i] is Some
    &&& w.combat_stats@[i]->Some_0.hp > 0
}

/// The accumulators and the log as melee resolution leaves them.
pub struct MeleeOutcome {
    pub suffer: Seq<Option<Seq<i32>>>,
    pub log: Seq<LogEventV>,
}

/// One attacker's resolution. A target that already fell to zero hit
/// points earlier this turn is silently skipped; a zero-damage hit is
/// reported but accumulates nothing.
pub open spec fn melee_step(w: World, st: MeleeOutcome, i: int) -> MeleeOutcome {
    if melee_attacker(w, i) {
        let t = w.wants_melee@[i]->Some_0.target;
        if w.combat_stats@[t.0 as int] is Some && w.combat_stats@[t.0 as int]->Some_0.hp > 0 {
            let dmg = spec_melee_damage(eff_power(w, i), eff_defense(w, t.0 as int));
            let aname = w.names@[i]->Some_0.name@;
            let tname = w.names@[t.0 as int]->Some_0.name@;
            if dmg == 0 {
                MeleeOutcome {
                    suffer: st.suffer,
                    log: st.log.push(LogEventV::MeleeMiss { attacker: aname, target: tname }),
                }
            } else {
                MeleeOutcome {
                    suffer: st.suffer.update(
                        t.0 as int,
                        Some(
                            (match st.suffer[t.0 as int] {
                                Some(q) => q,
                                None => Seq::<i32>::empty(),
                            }).push(dmg as i32),
                        ),
                    ),
                    log: st.log.push(
                        LogEventV::MeleeHit { attacker: aname, target: tname, amount: dmg },
                    ),
                }
            }
        } else {
            st
        }
    } else {
        st
    }
}

/// The melee stage's outcome after the first `k` attackers, in entity
/// order.
pub open spec fn melee_resolve(
    w: World,
    suffer0: Seq<Option<Seq<i32>>>,
    log0: Seq<LogEventV>,
    k: int,
) -> MeleeOutcome
    decreases k,
{
    if k <= 0 {
        MeleeOutcome { suffer: suffer0, log: log0 }
    } else {
        melee_step(w, melee_resolve(w, suffer0, log0, k - 1), k - 1)
    }
}

/// Sums the melee power bonuses of items equipped by `owner`.
#[verifier::loop_isolation(false)]
fn power_bonus_of(ecs: &World, owner: Entity) -> (b: i128)
    requires
        ecs.wf(),
    ensures
        b == power_bonus_upto(
            ecs.equipped@,
            ecs.melee_bonuses@,
            owner.0 as int,
            ecs.spec_entities() as int,
        ),
        ecs.spec_entities() * (i32::MIN as int) <= b <= ecs.spec_entities() * (i32::MAX as int),
{
    let n = ecs.entity_count();
    let mut b: i128 = 0;
    let mut i: usize = 0;
    while i < n
        invariant
            i <= n,
            b == power_bonus_upto(ecs.equipped@, ecs.melee_bonuses@, owner.0 as int, i as int),
            i * (i32::MIN as int) <= b <= i * (i32::MAX as int),
        decreases n - i,
    {
        let e = Entity(i);
        match ecs.equipped.get(e) {
            Some(eqp) => {
                if eqp.owner.0 == owner.0 {
                    match ecs.melee_bonuses.get(e) {
                        Some(bonus) => {
                            b = b + (bonus.power as i128);
                        },
                        None => {},
                    }
                }
            },
            None => {},
        }
        i = i + 1;
    }
    b
}

/// Sums the defense bonuses of items equipped by `owner`.
#[verifier::loop_isolation(false)]
fn defense_bonus_of(ecs: &World, owner: Entity) -> (b: i128)
    requires
        ecs.wf(),
    ensures
        b == defense_bonus_upto(
            ecs.equipped@,
            ecs.defense_bonuses@,
            owner.0 as int,
            ecs.spec_entities() as int,
        ),
        ecs.spec_entities() * (i32::MIN as int) <= b <= ecs.spec_entities() * (i32::MAX as int),
{
    let n = ecs.entity_count();
    let mut b: i128 = 0;
    let mut i: usize = 0;
    while i < n
        invariant
            i <= n,
            b == defense_bonus_upto(ecs.equipped@, ecs.defense_bonuses@, owner.0 as int, i as int),
            i * (i32::MIN as int) <= b <= i * (i32::MAX as int),
        decreases n - i,
    {
        let e = Entity(i);
        match ecs.equipped.get(e) {
            Some(eqp) => {
                if eqp.owner.0 == owner.0 {
                    match ecs.defense_bonuses.get(e) {
                        Some(bonus) => {
                            b = b + (bonus.defense as i128);
                        },
                        None => {},
                    }
                }
            },
            None => {},
        }
        i = i + 1;
    }
    b
}

/// Whether every melee intent meets the data-model conditions that
/// `MeleeCombatSystem::run` requires: the target exists and has
/// combat statistics, is named while alive, and the damage fits the
/// machine range. The front end tests this before the stage and fails
/// loudly where the original's lookups would have.
#[verifier::loop_isolation(false)]
pub fn melee_intents_valid(ecs: &World) -> (r: bool)
    requires
        ecs.wf(),
    ensures
        r == forall|i: int|
            0 <= i < ecs.spec_entities() && melee_attacker(*ecs, i) ==> {
                let t = ecs.wants_melee@[i]->Some_0.target;
                &&& t.0 < ecs.spec_entities()
                &&& ecs.combat_stats@[t.0 as int] is Some
                &&& (ecs.combat_stats@[t.0 as int]->Some_0.hp > 0 ==> ecs.names@[t.0 as int]
                    is Some)
                &&& spec_melee_damage(eff_power(*ecs, i), eff_defense(*ecs, t.0 as int))
                    <= i32::MAX
            },
{
    let n = ecs.entity_count();
    let mut i: usize = 0;
    while i < n
        invariant
            i <= n,
            forall|k: int|
                0 <= k < i && melee_attacker(*ecs, k) ==> {
                    let t = ecs.wants_melee@[k]->Some_0.target;
                    &&& t.0 < ecs.spec_entities()
                    &&& ecs.combat_stats@[t.0 as int] is Some
                    &&& (ecs.combat_stats@[t.0 as int]->Some_0.hp > 0 ==> ecs.names@[t.0 as int]
                        is Some)
                    &&& spec_melee_damage(eff_power(*ecs, k), eff_defense(*ecs, t.0 as int))
                        <= i32::MAX
                },
        decreases n - i,
    {
        let e = Entity(i);
        let intent = match ecs.wants_melee.get(e) {
            Some(m) => Some(*m),
            None => None,
        };
        if let Some(m) = intent {
            let stats = match ecs.combat_stats.get(e) {
                Some(s) => Some(*s),
                None => None,
            };
            if ecs.names.contains(e) && stats.is_some() {
                let stats = stats.unwrap();
                if stats.hp > 0 {
                    proof {
                        assert(melee_attacker(*ecs, i as int));
                    }
                    let target = m.target;
                    if target.0 >= n {
                        return false;
                    }
                    let tstats = match ecs.combat_stats.get(target) {
                        Some(s) => Some(*s),
                        None => None,
                    };
                    match tstats {
                        None => {
                            return false;
                        },
                        Some(ts) => {
                            if ts.hp > 0 && !ecs.names.contains(target) {
                                return false;
                            }
                            let offensive_bonus = power_bonus_of(ecs, e);
                            let defensive_bonus = defense_bonus_of(ecs, target);
                            let p_eff = (stats.power as i128) + offensive_bonus;
                            let d_eff = (ts.defense as i128) + defensive_bonus;
                            let dmg128: i128 = if p_eff - d_eff > 0 {
                                p_eff - d_eff
                            } else {
                                0
                            };
                            proof {
                                assert(dmg128 == spec_melee_damage(
                                    eff_power(*ecs, i as int),
                                    eff_defense(*ecs, target.0 as int),
                                ));
                            }
                            if dmg128 > (i32::MAX as i128) {
                                return false;
                            }
                        },
                    }
                }
            }
        }
        i = i + 1;
    }
    true
}

pub struct MeleeCombatSystem {}

impl MeleeCombatSystem {
    /// Resolves every melee intent in entity order, then clears the
    /// whole intent storage whether or not the intents resolved.
    #[verifier::loop_isolation(false)]
    pub fn run(ecs: &mut World, log: &mut GameLog)
        requires
            old(ecs).wf(),
            forall|i: int|
                0 <= i < old(ecs).spec_entities() && melee_attacker(*old(ecs), i) ==> {
                    let t = old(ecs).wants_melee@[i]->Some_0.target;
                    &&& t.0 < old(ecs).spec_entities()
                    &&& old(ecs).combat_stats@[t.0 as int] is Some
                    &&& (old(ecs).combat_stats@[t.0 as int]->Some_0.hp > 0 ==> old(
                        ecs,
                    ).names@[t.0 as int] is Some)
                    &&& spec_melee_damage(eff_power(*old(ecs), i), eff_defense(*old(ecs), t.0 as int))
                        <= i32::MAX
                },
        ensures
            final(ecs).wf(),
            *final(ecs) == (World {
                suffer_damage: final(ecs).suffer_damage,
                wants_melee: final(ecs).wants_melee,
                ..*old(ecs)
            }),
            forall|i: int| 0 <= i < final(ecs).spec_entities() ==> final(ecs).wants_melee@[i] is None,
            suffer_view(final(ecs).suffer_damage@) == melee_resolve(
                *old(ecs),
                suffer_view(old(ecs).suffer_damage@),
                old(log)@,
                old(ecs).spec_entities() as int,
            ).suffer,
            final(log)@ == melee_resolve(
                *old(ecs),
                suffer_view(old(ecs).suffer_damage@),
                old(log)@,
                old(ecs).spec_entities() as int,
            ).log,
    {
        let ghost w0 = *old(ecs);
        let ghost s0 = suffer_view(old(ecs).suffer_damage@);
        let ghost l0 = old(log)@;
        let n = ecs.entity_count();
        let mut i: usize = 0;
        while i < n
            invariant
                ecs.wf(),
                i <= n,
                *ecs == (World { suffer_damage: ecs.suffer_damage, ..w0 }),
                suffer_view(ecs.suffer_damage@) == melee_resolve(w0, s0, l0, i as int).suffer,
                log@ == melee_resolve(w0, s0, l0, i as int).log,
            decreases n - i,
        {
            let e = Entity(i);
            let intent = match ecs.wants_melee.get(e) {
                Some(m) => Some(*m),
                None => None,
            };
            let ghost st_pre = melee_resolve(w0, s0, l0, i as int);
            if let Some(intent) = intent {
                let has_name = ecs.names.contains(e);
                let stats = match ecs.combat_stats.get(e) {
                    Some(s) => Some(*s),
                    None => None,
                };
                if has_name && stats.is_some() {
                    let stats = stats.unwrap();
                    if stats.hp > 0 {
                        proof {
                            assert(melee_attacker(w0, i as int));
                        }
                        let target = intent.target;
                        let offensive_bonus = power_bonus_of(ecs, e);
                        match ecs.combat_stats.get(target) {
                            Some(tstats_ref) => {
                                let tstats = *tstats_ref;
                                if tstats.hp > 0 {
                                    let defensive_bonus = defense_bonus_of(ecs, target);
                                    let p_eff = (stats.power as i128) + offensive_bonus;
                                    let d_eff = (tstats.defense as i128) + defensive_bonus;
                                    let dmg128: i128 = if p_eff - d_eff > 0 {
                                        p_eff - d_eff
                                    } else {
                                        0
                                    };
                                    proof {
                                        assert(p_eff == eff_power(w0, i as int));
                                        assert(d_eff == eff_defense(w0, target.0 as int));
                                        assert(dmg128 == spec_melee_damage(
                                            eff_power(w0, i as int),
                                            eff_defense(w0, target.0 as int),
                                        ));
                                    }
                                    let attacker_name = match ecs.names.get(e) {
                                        Some(nm) => nm.name.clone(),
                                        None => String::new(),
                                    };
                                    let target_name = match ecs.names.get(target) {
                                        Some(nm) => nm.name.clone(),
                                        None => String::new(),
                                    };
                                    if dmg128 == 0 {
                                        log.push(
                                            LogEvent::MeleeMiss {
                                                attacker: attacker_name,
                                                target: target_name,
                                            },
                                        );
                                    } else {
                                        let dmg = dmg128 as i32;
                                        SufferDamage::new_damage(
                                            &mut ecs.suffer_damage,
                                            target,
                                            dmg,
                                        );
                                        log.push(
                                            LogEvent::MeleeHit {
                                                attacker: attacker_name,
                                                target: target_name,
                                                amount: dmg,
                                            },
                                        );
                                        proof {
                                            assert(suffer_view(ecs.suffer_damage@) =~= melee_step(
                                                w0,
                                                st_pre,
                                                i as int,
                                            ).suffer);
                                        }
                                    }
                                }
                            },
                            None => {
                                proof {
                                    assert(false);
                                }
                            },
                        }
                    }
                }
            }
            i = i + 1;
            proof {
                assert(melee_resolve(w0, s0, l0, i as int) == melee_step(
                    w0,
                    melee_resolve(w0, s0, l0, i - 1),
                    i - 1,
                ));
                assert(suffer_view(ecs.suffer_damage@) =~= melee_resolve(w0, s0, l0, i as int).suffer);
            }
        }
        ecs.wants_melee.clear();
        proof {
            assert(suffer_view(ecs.suffer_damage@) =~= melee_resolve(w0, s0, l0, n as int).suffer);
        }
    }
}

} // verus!
