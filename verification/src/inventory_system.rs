//! Item handling: picking items up, using them, dropping them, and
//! unequipping them. Each system consumes one intent kind and clears
//! its whole intent storage at the end of its run.

use vstd::prelude::*;

use crate::components::CombatStats;
use crate::components::Confusion;
use crate::components::Entity;
use crate::components::Equippable;
use crate::components::Equipped;
use crate::components::InBackpack;
use crate::components::InflictsDamage;
use crate::components::Name;
use crate::components::Position;
use crate::components::ProvidesHealing;
use crate::gamelog::GameLog;
use crate::gamelog::LogEvent;
use crate::gamelog::LogEventV;
use crate::map::GameMap;
use crate::map::tile_idx;
use crate::melee_combat_system::suffer_view;
use crate::world::World;

verus! {

/// The placements and log as the pickup stage leaves them.
pub struct PickupOutcome {
    pub positions: Seq<Option<Position>>,
    pub backpacks: Seq<Option<InBackpack>>,
    pub log: Seq<LogEventV>,
}

/// One pickup: the item loses its place on the map and enters the
/// collector's backpack; the player's pickups are reported.
pub open spec fn pickup_step(w: World, player: Entity, st: PickupOutcome, i: int) -> PickupOutcome {
    match w.wants_pickup@[i] {
        Some(p) => PickupOutcome {
            positions: st.positions.update(p.item.0 as int, None),
            backpacks: st.backpacks.update(
                p.item.0 as int,
                Some(InBackpack { owner: p.collected_by }),
            ),
            log: if p.collected_by == player {
                st.log.push(LogEventV::PickedUp { name: w.names@[p.item.0 as int]->Some_0.name@ })
            } else {
                st.log
            },
        },
        None => st,
    }
}

/// The pickup stage's outcome after the first `k` collectors.
pub open spec fn pickup_resolve(
    w: World,
    player: Entity,
    p0: Seq<Option<Position>>,
    b0: Seq<Option<InBackpack>>,
    l0: Seq<LogEventV>,
    k: int,
) -> PickupOutcome
    decreases k,
{
    if k <= 0 {
        PickupOutcome { positions: p0, backpacks: b0, log: l0 }
    } else {
        pickup_step(w, player, pickup_resolve(w, player, p0, b0, l0, k - 1), k - 1)
    }
}

pub struct ItemCollectionSystem {}

impl ItemCollectionSystem {
    /// Moves every item with a pickup intent off the map and into its
    /// collector's backpack, in entity order, then clears the intents.
    #[verifier::loop_isolation(false)]
    pub fn run(ecs: &mut World, log: &mut GameLog, player: Entity)
        requires
            old(ecs).wf(),
            forall|i: int|
                0 <= i < old(ecs).spec_entities() && old(ecs).wants_pickup@[i] is Some ==> {
                    let p = old(ecs).wants_pickup@[i]->Some_0;
                    &&& p.item.0 < old(ecs).spec_entities()
                    &&& (p.collected_by == player ==> old(ecs).names@[p.item.0 as int] is Some)
                },
        ensures
            final(ecs).wf(),
            *final(ecs) == (World {
                positions: final(ecs).positions,
                backpacks: final(ecs).backpacks,
                wants_pickup: final(ecs).wants_pickup,
                ..*old(ecs)
            }),
            forall|i: int| 0 <= i < final(ecs).spec_entities() ==> final(ecs).wants_pickup@[i] is None,
            final(ecs).positions@ == pickup_resolve(
                *old(ecs),
                player,
                old(ecs).positions@,
                old(ecs).backpacks@,
                old(log)@,
                old(ecs).spec_entities() as int,
            ).positions,
            final(ecs).backpacks@ == pickup_resolve(
                *old(ecs),
                player,
                old(ecs).positions@,
                old(ecs).backpacks@,
                old(log)@,
                old(ecs).spec_entities() as int,
            ).backpacks,
            final(log)@ == pickup_resolve(
                *old(ecs),
                player,
                old(ecs).positions@,
                old(ecs).backpacks@,
                old(log)@,
                old(ecs).spec_entities() as int,
            ).log,
    {
        let ghost w0 = *old(ecs);
        let ghost p0 = old(ecs).positions@;
        let ghost b0 = old(ecs).backpacks@;
        let ghost l0 = old(log)@;
        let n = ecs.entity_count();
        let mut i: usize = 0;
        while i < n
            invariant
                ecs.wf(),
                i <= n,
                *ecs == (World {
                    positions: ecs.positions,
                    backpacks: ecs.backpacks,
                    ..w0
                }),
                ecs.positions@ == pickup_resolve(w0, player, p0, b0, l0, i as int).positions,
                ecs.backpacks@ == pickup_resolve(w0, player, p0, b0, l0, i as int).backpacks,
                log@ == pickup_resolve(w0, player, p0, b0, l0, i as int).log,
            decreases n - i,
        {
            let e = Entity(i);
            let intent = match ecs.wants_pickup.get(e) {
                Some(p) => Some(*p),
                None => None,
            };
            if let Some(p) = intent {
                ecs.positions.remove(p.item);
                ecs.backpacks.insert(p.item, InBackpack { owner: p.collected_by });
                if p.collected_by.0 == player.0 {
                    let item_name = match ecs.names.get(p.item) {
                        Some(nm) => nm.name.clone(),
                        None => String::new(),
                    };
                    log.push(LogEvent::PickedUp { name: item_name });
                }
            }
            i = i + 1;
            proof {
                assert(pickup_resolve(w0, player, p0, b0, l0, i as int) == pickup_step(
                    w0,
                    player,
                    pickup_resolve(w0, player, p0, b0, l0, i - 1),
                    i - 1,
                ));
            }
        }
        ecs.wants_pickup.clear();
    }
}

/// Everything the item-use stage may change, as mathematical values.
pub struct UseState {
    pub positions: Seq<Option<Position>>,
    pub backpacks: Seq<Option<InBackpack>>,
    pub equipped: Seq<Option<Equipped>>,
    pub stats: Seq<Option<CombatStats>>,
    pub suffer: Seq<Option<Seq<i32>>>,
    pub confusion: Seq<Option<Confusion>>,
    pub pending: Seq<Entity>,
    pub log: Seq<LogEventV>,
}

/// The item-use view of a world and a log.
pub open spec fn st_of(w: World, log: Seq<LogEventV>) -> UseState {
    UseState {
        positions: w.positions@,
        backpacks: w.backpacks@,
        equipped: w.equipped@,
        stats: w.combat_stats@,
        suffer: suffer_view(w.suffer_damage@),
        confusion: w.confusion@,
        pending: w.pending_deletes@,
        log,
    }
}

/// The entities occupying any interior tile of the first `k` blast
/// tiles, in blast order then tile-content order.
pub open spec fn blast_targets(m: GameMap, blast: Seq<(i32, i32)>, k: int) -> Seq<Entity>
    decreases k,
{
    if k <= 0 {
        Seq::empty()
    } else {
        blast_targets(m, blast, k - 1) + if m.in_interior(
            blast[k - 1].0 as int,
            blast[k - 1].1 as int,
        ) {
            m.tile_content@[tile_idx(m.width as int, blast[k - 1].0 as int, blast[k - 1].1 as int)]@
        } else {
            Seq::empty()
        }
    }
}

/// The targets of the use intent of entity `i`: the user itself when
/// no target point is given; everyone on the target tile for a plain
/// targeted item; everyone in the clipped blast region for an area
/// item, whose raw blast tiles are `blast`.
pub open spec fn use_targets(
    w: World,
    m: GameMap,
    player: Entity,
    i: int,
    blast: Seq<(i32, i32)>,
) -> Seq<Entity> {
    let u = w.wants_use@[i]->Some_0;
    match u.target {
        None => seq![Entity(i as usize)],
        Some(tp) => {
            if w.aoe@[u.item.0 as int] is Some {
                blast_targets(m, blast, blast.len() as int)
            } else {
                m.tile_content@[tile_idx(m.width as int, tp.x as int, tp.y as int)]@
            }
        },
    }
}

/// The raw blast tiles belonging to the use intent of entity `i`,
/// out of the per-area-intent list `blasts`; empty for non-area
/// intents.
pub open spec fn blast_of(w: World, blasts: Seq<Seq<(i32, i32)>>, i: int) -> Seq<(i32, i32)> {
    if w.wants_use@[i]->Some_0.target is Some && w.aoe@[w.wants_use@[i]->Some_0.item.0 as int]
        is Some {
        blasts[aoe_count(w, i)]
    } else {
        Seq::empty()
    }
}

/// The targets of the use intent of entity `i`, with its blast tiles
/// taken from `blasts`.
pub open spec fn targets_of(
    w: World,
    m: GameMap,
    player: Entity,
    blasts: Seq<Seq<(i32, i32)>>,
    i: int,
) -> Seq<Entity> {
    use_targets(w, m, player, i, blast_of(w, blasts, i))
}

/// How many of the first `k` use intents need a blast region from the
/// visibility service: those with a target point and an area item.
pub open spec fn aoe_count(w: World, k: int) -> int
    decreases k,
{
    if k <= 0 {
        0
    } else {
        aoe_count(w, k - 1) + if w.wants_use@[k - 1] is Some && w.wants_use@[k
            - 1]->Some_0.target is Some && w.aoe@[w.wants_use@[k - 1]->Some_0.item.0 as int]
            is Some {
            1int
        } else {
            0int
        }
    }
}

/// At most one blast region is needed per intent considered.
pub proof fn lemma_aoe_count_le(w: World, k: int)
    requires
        0 <= k,
    ensures
        0 <= aoe_count(w, k) <= k,
    decreases k,
{
    if k > 0 {
        lemma_aoe_count_le(w, k - 1);
    }
}

/// Blast-region needs only grow as more intents are considered.
pub proof fn lemma_aoe_count_mono(w: World, a: int, b: int)
    requires
        a <= b,
    ensures
        aoe_count(w, a) <= aoe_count(w, b),
    decreases b - a,
{
    if a < b {
        lemma_aoe_count_mono(w, a, b - 1);
    }
}

/// Whether the item at slot `eq` is equipped by `target` in `slot`,
/// so equipping a new item there displaces it.
pub open spec fn slot_match(
    eq: Option<Equipped>,
    target: Entity,
    slot: crate::components::EquipmentSlot,
) -> bool {
    &&& eq is Some
    &&& eq->Some_0.owner == target
    &&& eq->Some_0.slot == slot
}

/// Displaces every item among the first `k` that `target` already has
/// equipped in `slot`: it returns to the target's backpack, with a
/// notice when the target is the player.
pub open spec fn unequip_fold(
    equipped0: Seq<Option<Equipped>>,
    names: Seq<Option<Name>>,
    target: Entity,
    slot: crate::components::EquipmentSlot,
    player: Entity,
    st: UseState,
    k: int,
) -> UseState
    decreases k,
{
    if k <= 0 {
        st
    } else {
        let prev = unequip_fold(equipped0, names, target, slot, player, st, k - 1);
        if slot_match(equipped0[k - 1], target, slot) {
            UseState {
                equipped: prev.equipped.update(k - 1, None),
                backpacks: prev.backpacks.update(k - 1, Some(InBackpack { owner: target })),
                log: if target == player && names[k - 1] is Some {
                    prev.log.push(LogEventV::Unequipped { name: names[k - 1]->Some_0.name@ })
                } else {
                    prev.log
                },
                ..prev
            }
        } else {
            prev
        }
    }
}

/// The equip effect: only for an equippable item, and always on the
/// first resolved target. Any same-slot item the target wears is
/// displaced first; the new item then occupies the slot and leaves
/// backpack and map.
pub open spec fn equip_apply(
    eqp: Option<Equippable>,
    names: Seq<Option<Name>>,
    player: Entity,
    item: int,
    tgts: Seq<Entity>,
    st: UseState,
) -> UseState {
    match eqp {
        Some(equipment) => {
            let target = tgts[0];
            let st1 = unequip_fold(
                st.equipped,
                names,
                target,
                equipment.slot,
                player,
                st,
                st.equipped.len() as int,
            );
            UseState {
                equipped: st1.equipped.update(
                    item,
                    Some(Equipped { owner: target, slot: equipment.slot }),
                ),
                backpacks: st1.backpacks.update(item, None),
                positions: st1.positions.update(item, None),
                log: if target == player && names[item] is Some {
                    st1.log.push(LogEventV::EquippedItem { name: names[item]->Some_0.name@ })
                } else {
                    st1.log
                },
                ..st1
            }
        },
        None => st,
    }
}

/// The healing effect on the first `k` targets: each target with
/// combat statistics is raised by the heal amount, clamped to its
/// maximum.
pub open spec fn heal_apply(
    heal: Option<ProvidesHealing>,
    names: Seq<Option<Name>>,
    user_is_player: bool,
    item: int,
    tgts: Seq<Entity>,
    st: UseState,
    k: int,
) -> UseState
    decreases k,
{
    if k <= 0 || heal is None {
        st
    } else {
        let prev = heal_apply(heal, names, user_is_player, item, tgts, st, k - 1);
        let t = tgts[k - 1].0 as int;
        match prev.stats[t] {
            Some(s) => {
                let healed = if s.max_hp <= s.hp + heal->Some_0.heal_amount {
                    s.max_hp as int
                } else {
                    s.hp + heal->Some_0.heal_amount
                };
                UseState {
                    stats: prev.stats.update(t, Some(CombatStats { hp: healed as i32, ..s })),
                    log: if user_is_player {
                        prev.log.push(
                            LogEventV::Healed {
                                item: names[item]->Some_0.name@,
                                amount: heal->Some_0.heal_amount as int,
                            },
                        )
                    } else {
                        prev.log
                    },
                    ..prev
                }
            },
            None => prev,
        }
    }
}

/// The damage effect on the first `k` targets: the item's damage is
/// appended to each target's accumulator.
pub open spec fn inflict_apply(
    dmg: Option<InflictsDamage>,
    names: Seq<Option<Name>>,
    user_is_player: bool,
    item: int,
    tgts: Seq<Entity>,
    st: UseState,
    k: int,
) -> UseState
    decreases k,
{
    if k <= 0 || dmg is None {
        st
    } else {
        let prev = inflict_apply(dmg, names, user_is_player, item, tgts, st, k - 1);
        let t = tgts[k - 1].0 as int;
        let amount = dmg->Some_0.damage;
        UseState {
            suffer: prev.suffer.update(
                t,
                Some(
                    (match prev.suffer[t] {
                        Some(q) => q,
                        None => Seq::<i32>::empty(),
                    }).push(amount),
                ),
            ),
            log: if user_is_player {
                prev.log.push(
                    LogEventV::ItemDamage {
                        item: names[item]->Some_0.name@,
                        target: names[t]->Some_0.name@,
                        amount: amount as int,
                    },
                )
            } else {
                prev.log
            },
            ..prev
        }
    }
}

/// The confusion effect on the first `k` targets: the item's template
/// is attached to (or replaces on) each target.
pub open spec fn confusion_apply(
    template: Option<Confusion>,
    names: Seq<Option<Name>>,
    user_is_player: bool,
    item: int,
    tgts: Seq<Entity>,
    st: UseState,
    k: int,
) -> UseState
    decreases k,
{
    if k <= 0 || template is None {
        st
    } else {
        let prev = confusion_apply(template, names, user_is_player, item, tgts, st, k - 1);
        let t = tgts[k - 1].0 as int;
        UseState {
            confusion: prev.confusion.update(t, Some(Confusion { turns: template->Some_0.turns })),
            log: if user_is_player {
                prev.log.push(
                    LogEventV::Confused {
                        item: names[item]->Some_0.name@,
                        target: names[t]->Some_0.name@,
                    },
                )
            } else {
                prev.log
            },
            ..prev
        }
    }
}

/// One use intent, resolved: targeting, then the four effects in
/// fixed order, then consumable destruction queued for the sync point.
pub open spec fn use_step(
    w: World,
    m: GameMap,
    player: Entity,
    blasts: Seq<Seq<(i32, i32)>>,
    st: UseState,
    i: int,
) -> UseState {
    match w.wants_use@[i] {
        Some(u) => {
            let item = u.item.0 as int;
            let blast = if u.target is Some && w.aoe@[item] is Some {
                blasts[aoe_count(w, i)]
            } else {
                Seq::empty()
            };
            let tgts = use_targets(w, m, player, i, blast);
            let user_is_player = i == player.0;
            let st1 = equip_apply(w.equippables@[item], w.names@, player, item, tgts, st);
            let st2 = heal_apply(
                w.provides_healing@[item],
                w.names@,
                user_is_player,
                item,
                tgts,
                st1,
                tgts.len() as int,
            );
            let st3 = inflict_apply(
                w.inflicts_damage@[item],
                w.names@,
                user_is_player,
                item,
                tgts,
                st2,
                tgts.len() as int,
            );
            let st4 = confusion_apply(
                st3.confusion[item],
                w.names@,
                user_is_player,
                item,
                tgts,
                st3,
                tgts.len() as int,
            );
            if w.consumables@[item] is Some {
                UseState { pending: st4.pending.push(u.item), ..st4 }
            } else {
                st4
            }
        },
        None => st,
    }
}

/// The item-use stage's outcome after the first `k` users, in entity
/// order.
pub open spec fn use_resolve(
    w: World,
    m: GameMap,
    player: Entity,
    blasts: Seq<Seq<(i32, i32)>>,
    st0: UseState,
    k: int,
) -> UseState
    decreases k,
{
    if k <= 0 {
        st0
    } else {
        use_step(w, m, player, blasts, use_resolve(w, m, player, blasts, st0, k - 1), k - 1)
    }
}

/// The deep value of a list of blast-tile lists.
pub open spec fn blasts_view(b: Seq<Vec<(i32, i32)>>) -> Seq<Seq<(i32, i32)>> {
    b.map_values(|v: Vec<(i32, i32)>| v@)
}

/// The placements and log as the drop stage leaves them.
pub struct DropOutcome {
    pub positions: Seq<Option<Position>>,
    pub backpacks: Seq<Option<InBackpack>>,
    pub log: Seq<LogEventV>,
}

/// One drop: the item takes a copy of the dropper's current position
/// and leaves the backpack; the player's drops are reported.
pub open spec fn drop_step(w: World, player: Entity, st: DropOutcome, i: int) -> DropOutcome {
    match w.wants_drop@[i] {
        Some(d) => DropOutcome {
            positions: st.positions.update(d.item.0 as int, st.positions[i]),
            backpacks: st.backpacks.update(d.item.0 as int, None),
            log: if Entity(i as usize) == player {
                st.log.push(LogEventV::Dropped { name: w.names@[d.item.0 as int]->Some_0.name@ })
            } else {
                st.log
            },
        },
        None => st,
    }
}

/// The drop stage's outcome after the first `k` droppers.
pub open spec fn drop_resolve(
    w: World,
    player: Entity,
    p0: Seq<Option<Position>>,
    b0: Seq<Option<InBackpack>>,
    l0: Seq<LogEventV>,
    k: int,
) -> DropOutcome
    decreases k,
{
    if k <= 0 {
        DropOutcome { positions: p0, backpacks: b0, log: l0 }
    } else {
        drop_step(w, player, drop_resolve(w, player, p0, b0, l0, k - 1), k - 1)
    }
}

/// Whether every dropper still holds a position when its drop
/// resolves: the data model guarantees it, and the stage relies on it.
pub open spec fn drops_defined(
    w: World,
    player: Entity,
    p0: Seq<Option<Position>>,
    b0: Seq<Option<InBackpack>>,
    l0: Seq<LogEventV>,
    k: int,
) -> bool
    decreases k,
{
    if k <= 0 {
        true
    } else {
        &&& drops_defined(w, player, p0, b0, l0, k - 1)
        &&& (w.wants_drop@[k - 1] is Some ==> {
            let d = w.wants_drop@[k - 1]->Some_0;
            &&& d.item.0 < w.spec_entities()
            &&& drop_resolve(w, player, p0, b0, l0, k - 1).positions[k - 1] is Some
            &&& (Entity((k - 1) as usize) == player ==> w.names@[d.item.0 as int] is Some)
        })
    }
}

/// `drops_defined` for the whole stage covers every prefix.
pub proof fn lemma_drops_defined_prefix(
    w: World,
    player: Entity,
    p0: Seq<Option<Position>>,
    b0: Seq<Option<InBackpack>>,
    l0: Seq<LogEventV>,
    k: int,
    n: int,
)
    requires
        0 <= k <= n,
        drops_defined(w, player, p0, b0, l0, n),
    ensures
        drops_defined(w, player, p0, b0, l0, k),
    decreases n - k,
{
    if k < n {
        lemma_drops_defined_prefix(w, player, p0, b0, l0, k + 1, n);
    }
}

pub struct ItemDropSystem {}

impl ItemDropSystem {
    /// Places every item with a drop intent at its dropper's current
    /// position and removes it from the backpack, in entity order,
    /// then clears the intents.
    #[verifier::loop_isolation(false)]
    pub fn run(ecs: &mut World, log: &mut GameLog, player: Entity)
        requires
            old(ecs).wf(),
            drops_defined(
                *old(ecs),
                player,
                old(ecs).positions@,
                old(ecs).backpacks@,
                old(log)@,
                old(ecs).spec_entities() as int,
            ),
        ensures
            final(ecs).wf(),
            *final(ecs) == (World {
                positions: final(ecs).positions,
                backpacks: final(ecs).backpacks,
                wants_drop: final(ecs).wants_drop,
                ..*old(ecs)
            }),
            forall|i: int| 0 <= i < final(ecs).spec_entities() ==> final(ecs).wants_drop@[i] is None,
            final(ecs).positions@ == drop_resolve(
                *old(ecs),
                player,
                old(ecs).positions@,
                old(ecs).backpacks@,
                old(log)@,
                old(ecs).spec_entities() as int,
            ).positions,
            final(ecs).backpacks@ == drop_resolve(
                *old(ecs),
                player,
                old(ecs).positions@,
                old(ecs).backpacks@,
                old(log)@,
                old(ecs).spec_entities() as int,
            ).backpacks,
            final(log)@ == drop_resolve(
                *old(ecs),
                player,
                old(ecs).positions@,
                old(ecs).backpacks@,
                old(log)@,
                old(ecs).spec_entities() as int,
            ).log,
    {
        let ghost w0 = *old(ecs);
        let ghost p0 = old(ecs).positions@;
        let ghost b0 = old(ecs).backpacks@;
        let ghost l0 = old(log)@;
        let n = ecs.entity_count();
        let mut i: usize = 0;
        while i < n
            invariant
                ecs.wf(),
                i <= n,
                *ecs == (World {
                    positions: ecs.positions,
                    backpacks: ecs.backpacks,
                    ..w0
                }),
                ecs.positions@ == drop_resolve(w0, player, p0, b0, l0, i as int).positions,
                ecs.backpacks@ == drop_resolve(w0, player, p0, b0, l0, i as int).backpacks,
                log@ == drop_resolve(w0, player, p0, b0, l0, i as int).log,
            decreases n - i,
        {
            let e = Entity(i);
            proof {
                lemma_drops_defined_prefix(w0, player, p0, b0, l0, i + 1, n as int);
            }
            let intent = match ecs.wants_drop.get(e) {
                Some(d) => Some(*d),
                None => None,
            };
            if let Some(d) = intent {
                let dropper_pos = match ecs.positions.get(e) {
                    Some(pos) => *pos,
                    None => {
                        proof {
                            assert(false);
                        }
                        Position { x: 0, y: 0 }
                    },
                };
                ecs.positions.insert(d.item, dropper_pos);
                ecs.backpacks.remove(d.item);
                if e.0 == player.0 {
                    let item_name = match ecs.names.get(d.item) {
                        Some(nm) => nm.name.clone(),
                        None => String::new(),
                    };
                    log.push(LogEvent::Dropped { name: item_name });
                }
            }
            i = i + 1;
            proof {
                assert(drop_resolve(w0, player, p0, b0, l0, i as int) == drop_step(
                    w0,
                    player,
                    drop_resolve(w0, player, p0, b0, l0, i - 1),
                    i - 1,
                ));
            }
        }
        ecs.wants_drop.clear();
    }
}

/// Whether every pickup intent meets what `ItemCollectionSystem::run`
/// requires: the item exists, and is named when the player collects
/// it. The front end tests this before the stage.
#[verifier::loop_isolation(false)]
pub fn pickup_intents_valid(ecs: &World, player: Entity) -> (r: bool)
    requires
        ecs.wf(),
    ensures
        r == forall|i: int|
            0 <= i < ecs.spec_entities() && (#[trigger] ecs.wants_pickup@[i]) is Some ==> {
                let p = ecs.wants_pickup@[i]->Some_0;
                &&& p.item.0 < ecs.spec_entities()
                &&& (p.collected_by == player ==> ecs.names@[p.item.0 as int] is Some)
            },
{
    let n = ecs.entity_count();
    let mut i: usize = 0;
    while i < n
        invariant
            i <= n,
            forall|k: int|
                0 <= k < i && (#[trigger] ecs.wants_pickup@[k]) is Some ==> {
                    let p = ecs.wants_pickup@[k]->Some_0;
                    &&& p.item.0 < ecs.spec_entities()
                    &&& (p.collected_by == player ==> ecs.names@[p.item.0 as int] is Some)
                },
        decreases n - i,
    {
        let e = Entity(i);
        let intent = match ecs.wants_pickup.get(e) {
            Some(p) => Some(*p),
            None => None,
        };
        if let Some(p) = intent {
            if p.item.0 >= n {
                return false;
            }
            if p.collected_by.0 == player.0 && !ecs.names.contains(p.item) {
                return false;
            }
        }
        i = i + 1;
    }
    true
}

/// Whether every unequip intent names an existing item, as
/// `ItemUnequipSystem::run` requires.
#[verifier::loop_isolation(false)]
pub fn unequip_intents_valid(ecs: &World) -> (r: bool)
    requires
        ecs.wf(),
    ensures
        r == forall|i: int|
            0 <= i < ecs.spec_entities() && (#[trigger] ecs.wants_unequip@[i]) is Some ==> ecs
                .wants_unequip@[i]->Some_0.item.0 < ecs.spec_entities(),
{
    let n = ecs.entity_count();
    let mut i: usize = 0;
    while i < n
        invariant
            i <= n,
            forall|k: int|
                0 <= k < i && (#[trigger] ecs.wants_unequip@[k]) is Some ==> ecs.wants_unequip@[
                k]->Some_0.item.0 < ecs.spec_entities(),
        decreases n - i,
    {
        let e = Entity(i);
        let intent = match ecs.wants_unequip.get(e) {
            Some(u) => Some(*u),
            None => None,
        };
        if let Some(u) = intent {
            if u.item.0 >= n {
                return false;
            }
        }
        i = i + 1;
    }
    true
}

/// The per-dropper conditions the drop stage stands on: each dropper
/// still has a position, its item exists, and the player's drops are
/// named.
pub open spec fn drop_intents_simple(
    w: World,
    player: Entity,
    p0: Seq<Option<Position>>,
) -> bool {
    forall|i: int|
        0 <= i < w.spec_entities() && (#[trigger] w.wants_drop@[i]) is Some ==> {
            let d = w.wants_drop@[i]->Some_0;
            &&& p0[i] is Some
            &&& d.item.0 < w.spec_entities()
            &&& (i == player.0 ==> w.names@[d.item.0 as int] is Some)
        }
}

/// The per-dropper conditions suffice for the whole stage: dropping
/// only copies positions onto items, so every dropper still holds a
/// position when its own drop resolves.
pub proof fn lemma_drops_defined_from_simple(
    w: World,
    player: Entity,
    p0: Seq<Option<Position>>,
    b0: Seq<Option<InBackpack>>,
    l0: Seq<LogEventV>,
    k: int,
)
    requires
        w.wf(),
        p0.len() == w.spec_entities(),
        drop_intents_simple(w, player, p0),
        k <= w.spec_entities(),
    ensures
        drops_defined(w, player, p0, b0, l0, k),
        drop_resolve(w, player, p0, b0, l0, k).positions.len() == p0.len(),
        forall|i: int|
            0 <= i < w.spec_entities() && (#[trigger] w.wants_drop@[i]) is Some ==> drop_resolve(
                w,
                player,
                p0,
                b0,
                l0,
                k,
            ).positions[i] is Some,
    decreases k,
{
    if k <= 0 {
    } else {
        lemma_drops_defined_from_simple(w, player, p0, b0, l0, k - 1);
        let prev = drop_resolve(w, player, p0, b0, l0, k - 1);
        let cur = drop_step(w, player, prev, k - 1);
        assert(drop_resolve(w, player, p0, b0, l0, k) == cur);
        if w.wants_drop@[k - 1] is Some {
            let it = w.wants_drop@[k - 1]->Some_0.item.0 as int;
            assert(prev.positions[k - 1] is Some);
            assert forall|i: int|
                0 <= i < w.spec_entities() && (#[trigger] w.wants_drop@[i]) is Some implies cur
                .positions[i] is Some by {
                if i == it {
                    assert(cur.positions[i] == prev.positions[k - 1]);
                } else {
                    assert(cur.positions[i] == prev.positions[i]);
                }
            }
        }
    }
}

/// Whether every drop intent meets what `ItemDropSystem::run`
/// requires. The front end tests this before the stage.
#[verifier::loop_isolation(false)]
pub fn drop_intents_valid(ecs: &World, player: Entity, log: &GameLog) -> (r: bool)
    requires
        ecs.wf(),
    ensures
        r == drop_intents_simple(*ecs, player, ecs.positions@),
        r ==> drops_defined(
            *ecs,
            player,
            ecs.positions@,
            ecs.backpacks@,
            log@,
            ecs.spec_entities() as int,
        ),
{
    let n = ecs.entity_count();
    let mut i: usize = 0;
    while i < n
        invariant
            i <= n,
            forall|k: int|
                0 <= k < i && (#[trigger] ecs.wants_drop@[k]) is Some ==> {
                    let d = ecs.wants_drop@[k]->Some_0;
                    &&& ecs.positions@[k] is Some
                    &&& d.item.0 < ecs.spec_entities()
                    &&& (k == player.0 ==> ecs.names@[d.item.0 as int] is Some)
                },
        decreases n - i,
    {
        let e = Entity(i);
        let intent = match ecs.wants_drop.get(e) {
            Some(d) => Some(*d),
            None => None,
        };
        if let Some(d) = intent {
            if !ecs.positions.contains(e) {
                return false;
            }
            if d.item.0 >= n {
                return false;
            }
            if e.0 == player.0 && !ecs.names.contains(d.item) {
                return false;
            }
        }
        i = i + 1;
    }
    proof {
        lemma_drops_defined_from_simple(
            *ecs,
            player,
            ecs.positions@,
            ecs.backpacks@,
            log@,
            ecs.spec_entities() as int,
        );
    }
    true
}

/// Gathers the targets of one use intent, as `use_targets` defines
/// them.
#[verifier::loop_isolation(false)]
fn collect_targets(
    ecs: &World,
    map: &GameMap,
    player: Entity,
    user: Entity,
    intent: crate::components::WantsToUseItem,
    Ghost(i): Ghost<int>,
    blast: Option<&Vec<(i32, i32)>>,
    Ghost(blast_spec): Ghost<Seq<(i32, i32)>>,
) -> (r: Vec<Entity>)
    requires
        ecs.wf(),
        map.wf(),
        player.0 < ecs.spec_entities(),
        0 <= i < ecs.spec_entities(),
        user.0 == i,
        ecs.wants_use@[i] == Some(intent),
        intent.target is Some ==> map.in_bounds(
            intent.target->Some_0.x as int,
            intent.target->Some_0.y as int,
        ),
        intent.item.0 < ecs.spec_entities(),
        forall|t: int, k: int|
            0 <= t < map.tile_content@.len() && 0 <= k < map.tile_content@[t]@.len() ==> (
            #[trigger] map.tile_content@[t]@[k]).0 < ecs.spec_entities(),
        (intent.target is Some && ecs.aoe@[intent.item.0 as int] is Some) ==> (blast is Some
            && blast->Some_0@ == blast_spec),
    ensures
        r@ == use_targets(*ecs, *map, player, i, blast_spec),
        forall|k: int| 0 <= k < r@.len() ==> (#[trigger] r@[k]).0 < ecs.spec_entities(),
{
    let mut r: Vec<Entity> = Vec::new();
    match intent.target {
        None => {
            r.push(user);
            proof {
                assert(r@ =~= use_targets(*ecs, *map, player, i, blast_spec));
            }
        },
        Some(tp) => {
            if ecs.aoe.contains(intent.item) {
                let b = blast.unwrap();
                let nb = b.len();
                let mut k: usize = 0;
                while k < nb
                    invariant
                        k <= nb,
                        nb == blast_spec.len(),
                        r@ == blast_targets(*map, blast_spec, k as int),
                        forall|q: int|
                            0 <= q < r@.len() ==> (#[trigger] r@[q]).0 < ecs.spec_entities(),
                    decreases nb - k,
                {
                    let px = b[k].0;
                    let py = b[k].1;
                    if px > 0 && px < map.width - 1 && py > 0 && py < map.height - 1 {
                        let idx = map.xy_idx(px, py);
                        let m = map.tile_content[idx].len();
                        let ghost r_pre = r@;
                        let mut l: usize = 0;
                        while l < m
                            invariant
                                l <= m,
                                idx < map.tile_content@.len(),
                                m == map.tile_content@[idx as int]@.len(),
                                r@ == r_pre + map.tile_content@[idx as int]@.take(l as int),
                                forall|q: int|
                                    0 <= q < r@.len() ==> (#[trigger] r@[q]).0
                                        < ecs.spec_entities(),
                            decreases m - l,
                        {
                            r.push(map.tile_content[idx][l]);
                            l = l + 1;
                            proof {
                                assert(r@ =~= r_pre + map.tile_content@[idx as int]@.take(
                                    l as int,
                                ));
                            }
                        }
                        proof {
                            assert(map.tile_content@[idx as int]@.take(m as int)
                                =~= map.tile_content@[idx as int]@);
                        }
                    }
                    k = k + 1;
                    proof {
                        assert(blast_targets(*map, blast_spec, k as int) == blast_targets(
                            *map,
                            blast_spec,
                            k - 1,
                        ) + if map.in_interior(
                            blast_spec[k - 1].0 as int,
                            blast_spec[k - 1].1 as int,
                        ) {
                            map.tile_content@[tile_idx(
                                map.width as int,
                                blast_spec[k - 1].0 as int,
                                blast_spec[k - 1].1 as int,
                            )]@
                        } else {
                            Seq::empty()
                        });
                        assert(r@ =~= blast_targets(*map, blast_spec, k as int));
                    }
                }
            } else {
                let idx = map.xy_idx(tp.x, tp.y);
                let m = map.tile_content[idx].len();
                let mut l: usize = 0;
                while l < m
                    invariant
                        l <= m,
                        idx < map.tile_content@.len(),
                        m == map.tile_content@[idx as int]@.len(),
                        r@ == map.tile_content@[idx as int]@.take(l as int),
                        forall|q: int|
                            0 <= q < r@.len() ==> (#[trigger] r@[q]).0 < ecs.spec_entities(),
                    decreases m - l,
                {
                    r.push(map.tile_content[idx][l]);
                    l = l + 1;
                    proof {
                        assert(r@ =~= map.tile_content@[idx as int]@.take(l as int));
                    }
                }
                proof {
                    assert(map.tile_content@[idx as int]@.take(m as int) =~= map.tile_content@[
                    idx as int]@);
                }
            }
        },
    }
    r
}

/// The equip effect of one use intent.
#[verifier::loop_isolation(false)]
fn equip_phase(
    ecs: &mut World,
    log: &mut GameLog,
    player: Entity,
    item: Entity,
    targets: &Vec<Entity>,
)
    requires
        old(ecs).wf(),
        item.0 < old(ecs).spec_entities(),
        old(ecs).equippables@[item.0 as int] is Some ==> targets@.len() > 0 && targets@[0].0 < old(
            ecs,
        ).spec_entities(),
    ensures
        final(ecs).wf(),
        *final(ecs) == (World {
            positions: final(ecs).positions,
            backpacks: final(ecs).backpacks,
            equipped: final(ecs).equipped,
            ..*old(ecs)
        }),
        st_of(*final(ecs), final(log)@) == equip_apply(
            old(ecs).equippables@[item.0 as int],
            old(ecs).names@,
            player,
            item.0 as int,
            targets@,
            st_of(*old(ecs), old(log)@),
        ),
{
    let ghost st0g = st_of(*old(ecs), old(log)@);
    let eqp = match ecs.equippables.get(item) {
        Some(e) => Some(*e),
        None => None,
    };
    if let Some(equipment) = eqp {
        let target = targets[0];
        let ghost e0 = ecs.equipped@;
        let n = ecs.entity_count();
        let mut j: usize = 0;
        while j < n
            invariant
                ecs.wf(),
                j <= n,
                target.0 < ecs.spec_entities(),
                *ecs == (World {
                    backpacks: ecs.backpacks,
                    equipped: ecs.equipped,
                    ..*old(ecs)
                }),
                forall|k: int| j <= k < n ==> ecs.equipped@[k] == e0[k],
                st_of(*ecs, log@) == unequip_fold(
                    e0,
                    old(ecs).names@,
                    target,
                    equipment.slot,
                    player,
                    st0g,
                    j as int,
                ),
            decreases n - j,
        {
            let je = Entity(j);
            let already = match ecs.equipped.get(je) {
                Some(eq) => Some(*eq),
                None => None,
            };
            let mut displaced = false;
            if let Some(eq) = already {
                if eq.owner.0 == target.0 && eq.slot == equipment.slot {
                    displaced = true;
                    if target.0 == player.0 {
                        let named = match ecs.names.get(je) {
                            Some(nm) => Some(nm.name.clone()),
                            None => None,
                        };
                        if let Some(nm) = named {
                            log.push(LogEvent::Unequipped { name: nm });
                        }
                    }
                    ecs.equipped.remove(je);
                    ecs.backpacks.insert(je, InBackpack { owner: target });
                }
            }
            j = j + 1;
            proof {
                assert(unequip_fold(
                    e0,
                    old(ecs).names@,
                    target,
                    equipment.slot,
                    player,
                    st0g,
                    j as int,
                ) == {
                    let prev = unequip_fold(
                        e0,
                        old(ecs).names@,
                        target,
                        equipment.slot,
                        player,
                        st0g,
                        j - 1,
                    );
                    if slot_match(e0[j - 1], target, equipment.slot) {
                        UseState {
                            equipped: prev.equipped.update(j - 1, None),
                            backpacks: prev.backpacks.update(
                                j - 1,
                                Some(InBackpack { owner: target }),
                            ),
                            log: if target == player && old(ecs).names@[j - 1] is Some {
                                prev.log.push(
                                    LogEventV::Unequipped {
                                        name: old(ecs).names@[j - 1]->Some_0.name@,
                                    },
                                )
                            } else {
                                prev.log
                            },
                            ..prev
                        }
                    } else {
                        prev
                    }
                });
                assert((target.0 == player.0) == (target == player));
            }
        }
        ecs.equipped.insert(item, Equipped { owner: target, slot: equipment.slot });
        ecs.backpacks.remove(item);
        ecs.positions.remove(item);
        if target.0 == player.0 {
            let named = match ecs.names.get(item) {
                Some(nm) => Some(nm.name.clone()),
                None => None,
            };
            if let Some(nm) = named {
                log.push(LogEvent::EquippedItem { name: nm });
            }
        }
    }
}

/// The healing effect of one use intent.
#[verifier::loop_isolation(false)]
fn heal_phase(
    ecs: &mut World,
    log: &mut GameLog,
    user_is_player: bool,
    item: Entity,
    targets: &Vec<Entity>,
)
    requires
        old(ecs).wf(),
        item.0 < old(ecs).spec_entities(),
        forall|k: int| 0 <= k < targets@.len() ==> (#[trigger] targets@[k]).0 < old(
            ecs,
        ).spec_entities(),
        old(ecs).provides_healing@[item.0 as int] is Some ==> old(
            ecs,
        ).provides_healing@[item.0 as int]->Some_0.heal_amount >= 0,
        (user_is_player && old(ecs).provides_healing@[item.0 as int] is Some) ==> old(
            ecs,
        ).names@[item.0 as int] is Some,
    ensures
        final(ecs).wf(),
        *final(ecs) == (World { combat_stats: final(ecs).combat_stats, ..*old(ecs) }),
        st_of(*final(ecs), final(log)@) == heal_apply(
            old(ecs).provides_healing@[item.0 as int],
            old(ecs).names@,
            user_is_player,
            item.0 as int,
            targets@,
            st_of(*old(ecs), old(log)@),
            targets@.len() as int,
        ),
{
    let ghost st0g = st_of(*old(ecs), old(log)@);
    let heal = match ecs.provides_healing.get(item) {
        Some(h) => Some(*h),
        None => None,
    };
    if let Some(healer) = heal {
        let item_name = if user_is_player {
            match ecs.names.get(item) {
                Some(nm) => Some(nm.name.clone()),
                None => None,
            }
        } else {
            None
        };
        let nt = targets.len();
        let mut k: usize = 0;
        while k < nt
            invariant
                ecs.wf(),
                k <= nt,
                nt == targets@.len(),
                *ecs == (World { combat_stats: ecs.combat_stats, ..*old(ecs) }),
                user_is_player ==> item_name is Some && item_name->Some_0@ == old(
                    ecs,
                ).names@[item.0 as int]->Some_0.name@,
                st_of(*ecs, log@) == heal_apply(
                    old(ecs).provides_healing@[item.0 as int],
                    old(ecs).names@,
                    user_is_player,
                    item.0 as int,
                    targets@,
                    st0g,
                    k as int,
                ),
            decreases nt - k,
        {
            let t = targets[k];
            let stats = match ecs.combat_stats.get(t) {
                Some(s) => Some(*s),
                None => None,
            };
            if let Some(s) = stats {
                let raised = (s.hp as i64) + (healer.heal_amount as i64);
                let healed: i32 = if (s.max_hp as i64) <= raised {
                    s.max_hp
                } else {
                    raised as i32
                };
                ecs.combat_stats.insert(t, CombatStats { hp: healed, ..s });
                if user_is_player {
                    match &item_name {
                        Some(nm) => {
                            log.push(
                                LogEvent::Healed { item: nm.clone(), amount: healer.heal_amount },
                            );
                        },
                        None => {},
                    }
                }
            }
            k = k + 1;
        }
    }
}

/// The damage effect of one use intent.
#[verifier::loop_isolation(false)]
fn damage_phase(
    ecs: &mut World,
    log: &mut GameLog,
    user_is_player: bool,
    item: Entity,
    targets: &Vec<Entity>,
)
    requires
        old(ecs).wf(),
        item.0 < old(ecs).spec_entities(),
        forall|k: int| 0 <= k < targets@.len() ==> (#[trigger] targets@[k]).0 < old(
            ecs,
        ).spec_entities(),
        (user_is_player && old(ecs).inflicts_damage@[item.0 as int] is Some) ==> {
            &&& old(ecs).names@[item.0 as int] is Some
            &&& forall|k: int|
                0 <= k < targets@.len() ==> old(ecs).names@[(#[trigger] targets@[k]).0 as int]
                    is Some
        },
    ensures
        final(ecs).wf(),
        *final(ecs) == (World { suffer_damage: final(ecs).suffer_damage, ..*old(ecs) }),
        st_of(*final(ecs), final(log)@) == inflict_apply(
            old(ecs).inflicts_damage@[item.0 as int],
            old(ecs).names@,
            user_is_player,
            item.0 as int,
            targets@,
            st_of(*old(ecs), old(log)@),
            targets@.len() as int,
        ),
{
    let ghost st0g = st_of(*old(ecs), old(log)@);
    let dmg = match ecs.inflicts_damage.get(item) {
        Some(d) => Some(*d),
        None => None,
    };
    if let Some(damager) = dmg {
        let item_name = if user_is_player {
            match ecs.names.get(item) {
                Some(nm) => Some(nm.name.clone()),
                None => None,
            }
        } else {
            None
        };
        let nt = targets.len();
        let mut k: usize = 0;
        while k < nt
            invariant
                ecs.wf(),
                k <= nt,
                nt == targets@.len(),
                *ecs == (World { suffer_damage: ecs.suffer_damage, ..*old(ecs) }),
                user_is_player ==> item_name is Some && item_name->Some_0@ == old(
                    ecs,
                ).names@[item.0 as int]->Some_0.name@,
                st_of(*ecs, log@) == inflict_apply(
                    old(ecs).inflicts_damage@[item.0 as int],
                    old(ecs).names@,
                    user_is_player,
                    item.0 as int,
                    targets@,
                    st0g,
                    k as int,
                ),
            decreases nt - k,
        {
            let ghost st_pre = st_of(*ecs, log@);
            let t = targets[k];
            crate::components::SufferDamage::new_damage(&mut ecs.suffer_damage, t, damager.damage);
            if user_is_player {
                let target_name = match ecs.names.get(t) {
                    Some(nm) => nm.name.clone(),
                    None => String::new(),
                };
                match &item_name {
                    Some(nm) => {
                        log.push(
                            LogEvent::ItemDamage {
                                item: nm.clone(),
                                target: target_name,
                                amount: damager.damage,
                            },
                        );
                    },
                    None => {},
                }
            }
            k = k + 1;
            proof {
                assert(suffer_view(ecs.suffer_damage@) =~= st_pre.suffer.update(
                    targets@[k - 1].0 as int,
                    Some(
                        (match st_pre.suffer[targets@[k - 1].0 as int] {
                            Some(q) => q,
                            None => Seq::<i32>::empty(),
                        }).push(damager.damage),
                    ),
                ));
            }
        }
    }
}

/// The confusion effect of one use intent. The template is probed
/// once, from the storage as earlier intents left it.
#[verifier::loop_isolation(false)]
fn confusion_phase(
    ecs: &mut World,
    log: &mut GameLog,
    user_is_player: bool,
    item: Entity,
    targets: &Vec<Entity>,
)
    requires
        old(ecs).wf(),
        item.0 < old(ecs).spec_entities(),
        forall|k: int| 0 <= k < targets@.len() ==> (#[trigger] targets@[k]).0 < old(
            ecs,
        ).spec_entities(),
        (user_is_player && old(ecs).confusion@[item.0 as int] is Some) ==> {
            &&& old(ecs).names@[item.0 as int] is Some
            &&& forall|k: int|
                0 <= k < targets@.len() ==> old(ecs).names@[(#[trigger] targets@[k]).0 as int]
                    is Some
        },
    ensures
        final(ecs).wf(),
        *final(ecs) == (World { confusion: final(ecs).confusion, ..*old(ecs) }),
        st_of(*final(ecs), final(log)@) == confusion_apply(
            old(ecs).confusion@[item.0 as int],
            old(ecs).names@,
            user_is_player,
            item.0 as int,
            targets@,
            st_of(*old(ecs), old(log)@),
            targets@.len() as int,
        ),
{
    let ghost st0g = st_of(*old(ecs), old(log)@);
    let template = match ecs.confusion.get(item) {
        Some(c) => Some(*c),
        None => None,
    };
    if let Some(confusion) = template {
        let item_name = if user_is_player {
            match ecs.names.get(item) {
                Some(nm) => Some(nm.name.clone()),
                None => None,
            }
        } else {
            None
        };
        let nt = targets.len();
        let mut k: usize = 0;
        while k < nt
            invariant
                ecs.wf(),
                k <= nt,
                nt == targets@.len(),
                *ecs == (World { confusion: ecs.confusion, ..*old(ecs) }),
                user_is_player ==> item_name is Some && item_name->Some_0@ == old(
                    ecs,
                ).names@[item.0 as int]->Some_0.name@,
                st_of(*ecs, log@) == confusion_apply(
                    old(ecs).confusion@[item.0 as int],
                    old(ecs).names@,
                    user_is_player,
                    item.0 as int,
                    targets@,
                    st0g,
                    k as int,
                ),
            decreases nt - k,
        {
            let t = targets[k];
            ecs.confusion.insert(t, Confusion { turns: confusion.turns });
            if user_is_player {
                let target_name = match ecs.names.get(t) {
                    Some(nm) => nm.name.clone(),
                    None => String::new(),
                };
                match &item_name {
                    Some(nm) => {
                        log.push(
                            LogEvent::Confused { item: nm.clone(), target: target_name },
                        );
                    },
                    None => {},
                }
            }
            k = k + 1;
        }
    }
}

pub struct ItemUseSystem {}

impl ItemUseSystem {
    /// Resolves every use intent in entity order — targeting, then
    /// equip, healing, damage and confusion in fixed order, then
    /// consumable destruction queued for the sync point — and finally
    /// clears the whole intent storage. `blasts` holds the visibility
    /// service's raw blast tiles, one entry per area intent, in entity
    /// order; clipping to the map interior happens here.
    #[verifier::loop_isolation(false)]
    pub fn run(
        ecs: &mut World,
        map: &GameMap,
        log: &mut GameLog,
        player: Entity,
        blasts: &Vec<Vec<(i32, i32)>>,
    )
        requires
            old(ecs).wf(),
            map.wf(),
            player.0 < old(ecs).spec_entities(),
            blasts@.len() == aoe_count(*old(ecs), old(ecs).spec_entities() as int),
            forall|t: int, k: int|
                0 <= t < map.tile_content@.len() && 0 <= k < map.tile_content@[t]@.len() ==> (
                #[trigger] map.tile_content@[t]@[k]).0 < old(ecs).spec_entities(),
            forall|i: int|
                0 <= i < old(ecs).spec_entities() && (#[trigger] old(ecs).wants_use@[i]) is Some
                    ==> {
                    let u = old(ecs).wants_use@[i]->Some_0;
                    &&& u.item.0 < old(ecs).spec_entities()
                    &&& (u.target is Some ==> map.in_bounds(
                        u.target->Some_0.x as int,
                        u.target->Some_0.y as int,
                    ))
                    &&& (old(ecs).equippables@[u.item.0 as int] is Some ==> targets_of(
                        *old(ecs),
                        *map,
                        player,
                        blasts_view(blasts@),
                        i,
                    ).len() > 0)
                    &&& (old(ecs).provides_healing@[u.item.0 as int] is Some ==> old(
                        ecs,
                    ).provides_healing@[u.item.0 as int]->Some_0.heal_amount >= 0)
                },
            forall|i: int|
                0 <= i < old(ecs).spec_entities() && (#[trigger] old(ecs).wants_use@[i]) is Some
                    && i == player.0 ==> old(ecs).names@[old(ecs).wants_use@[
                i]->Some_0.item.0 as int] is Some,
            forall|i: int, k: int|
                0 <= i < old(ecs).spec_entities() && (#[trigger] old(ecs).wants_use@[i]) is Some
                    && i == player.0 && 0 <= k < targets_of(
                    *old(ecs),
                    *map,
                    player,
                    blasts_view(blasts@),
                    i,
                ).len() ==> old(ecs).names@[(#[trigger] targets_of(
                    *old(ecs),
                    *map,
                    player,
                    blasts_view(blasts@),
                    i,
                )[k]).0 as int] is Some,
        ensures
            final(ecs).wf(),
            *final(ecs) == (World {
                positions: final(ecs).positions,
                backpacks: final(ecs).backpacks,
                equipped: final(ecs).equipped,
                combat_stats: final(ecs).combat_stats,
                suffer_damage: final(ecs).suffer_damage,
                confusion: final(ecs).confusion,
                pending_deletes: final(ecs).pending_deletes,
                wants_use: final(ecs).wants_use,
                ..*old(ecs)
            }),
            forall|i: int| 0 <= i < final(ecs).spec_entities() ==> final(ecs).wants_use@[i] is None,
            st_of(*final(ecs), final(log)@) == use_resolve(
                *old(ecs),
                *map,
                player,
                blasts_view(blasts@),
                st_of(*old(ecs), old(log)@),
                old(ecs).spec_entities() as int,
            ),
    {
        let ghost w0 = *old(ecs);
        let ghost bv = blasts_view(blasts@);
        let ghost st0g = st_of(*old(ecs), old(log)@);
        let blast_total = blasts.len();
        let n = ecs.entity_count();
        let mut i: usize = 0;
        let mut aoe_cursor: usize = 0;
        while i < n
            invariant
                ecs.wf(),
                i <= n,
                *ecs == (World {
                    positions: ecs.positions,
                    backpacks: ecs.backpacks,
                    equipped: ecs.equipped,
                    combat_stats: ecs.combat_stats,
                    suffer_damage: ecs.suffer_damage,
                    confusion: ecs.confusion,
                    pending_deletes: ecs.pending_deletes,
                    ..w0
                }),
                st_of(*ecs, log@) == use_resolve(w0, *map, player, bv, st0g, i as int),
                aoe_cursor == aoe_count(w0, i as int),
            decreases n - i,
        {
            let e = Entity(i);
            let intent = match ecs.wants_use.get(e) {
                Some(u) => Some(*u),
                None => None,
            };
            let ghost st_pre = use_resolve(w0, *map, player, bv, st0g, i as int);
            if let Some(u) = intent {
                proof {
                    assert(w0.wants_use@[i as int] is Some);
                }
                let is_aoe = u.target.is_some() && ecs.aoe.contains(u.item);
                let blast_ref: Option<&Vec<(i32, i32)>> = if is_aoe {
                    proof {
                        assert(aoe_count(w0, i + 1) == aoe_count(w0, i as int) + 1);
                        lemma_aoe_count_mono(w0, i + 1, n as int);
                    }
                    Some(&blasts[aoe_cursor])
                } else {
                    None
                };
                let ghost blast_spec = if is_aoe {
                    bv[aoe_cursor as int]
                } else {
                    Seq::<(i32, i32)>::empty()
                };
                let targets = collect_targets(
                    ecs,
                    map,
                    player,
                    e,
                    u,
                    Ghost(i as int),
                    blast_ref,
                    Ghost(blast_spec),
                );
                proof {
                    assert(blast_spec == blast_of(w0, bv, i as int));
                    assert(targets@ == use_targets(w0, *map, player, i as int, blast_spec));
                    assert(targets@ == targets_of(w0, *map, player, bv, i as int));
                }
                let user_is_player = e.0 == player.0;
                proof {
                    assert(user_is_player == (i as int == player.0));
                    if user_is_player {
                        assert(w0.names@[u.item.0 as int] is Some);
                        assert forall|k: int| 0 <= k < targets@.len() implies w0.names@[(
                        #[trigger] targets@[k]).0 as int] is Some by {
                            assert(targets_of(w0, *map, player, bv, i as int)[k] == targets@[k]);
                        }
                    }
                }
                equip_phase(ecs, log, player, u.item, &targets);
                let ghost g1 = st_of(*ecs, log@);
                heal_phase(ecs, log, user_is_player, u.item, &targets);
                let ghost g2 = st_of(*ecs, log@);
                damage_phase(ecs, log, user_is_player, u.item, &targets);
                let ghost g3 = st_of(*ecs, log@);
                confusion_phase(ecs, log, user_is_player, u.item, &targets);
                let ghost g4 = st_of(*ecs, log@);
                if ecs.consumables.contains(u.item) {
                    ecs.delete_entity(u.item);
                }
                proof {
                    let item = u.item.0 as int;
                    let tgts = use_targets(w0, *map, player, i as int, blast_spec);
                    let st1 = equip_apply(w0.equippables@[item], w0.names@, player, item, tgts, st_pre);
                    let st2 = heal_apply(
                        w0.provides_healing@[item],
                        w0.names@,
                        user_is_player,
                        item,
                        tgts,
                        st1,
                        tgts.len() as int,
                    );
                    let st3 = inflict_apply(
                        w0.inflicts_damage@[item],
                        w0.names@,
                        user_is_player,
                        item,
                        tgts,
                        st2,
                        tgts.len() as int,
                    );
                    let st4 = confusion_apply(
                        st3.confusion[item],
                        w0.names@,
                        user_is_player,
                        item,
                        tgts,
                        st3,
                        tgts.len() as int,
                    );
                    assert(g1 == st1);
                    assert(g2 == st2);
                    assert(g3 == st3);
                    assert(g4 == st4);
                    assert(st_of(*ecs, log@) == use_step(w0, *map, player, bv, st_pre, i as int));
                }
                if is_aoe {
                    proof {
                        assert(aoe_cursor as int + 1 == aoe_count(w0, i + 1));
                        assert(aoe_count(w0, i + 1) <= blast_total as int);
                    }
                    aoe_cursor = aoe_cursor + 1;
                }
            }
            i = i + 1;
            proof {
                assert(use_resolve(w0, *map, player, bv, st0g, i as int) == use_step(
                    w0,
                    *map,
                    player,
                    bv,
                    use_resolve(w0, *map, player, bv, st0g, i - 1),
                    i - 1,
                ));
                assert(aoe_count(w0, i as int) == aoe_count(w0, i - 1) + if w0.wants_use@[i - 1]
                    is Some && w0.wants_use@[i - 1]->Some_0.target is Some && w0.aoe@[w0.wants_use@[
                i - 1]->Some_0.item.0 as int] is Some {
                    1int
                } else {
                    0int
                });
            }
        }
        ecs.wants_use.clear();
    }
}

/// Whether the pending use intents and the supplied blast answers
/// meet everything `ItemUseSystem::run` requires: one blast answer
/// per area intent, items and occupants exist, target points lie on
/// the map, healing amounts are non-negative, equippable intents have
/// a target to receive them, and whatever the player uses or affects
/// is named. The front end tests this before the stage.
#[verifier::loop_isolation(false)]
#[verifier::rlimit(60)]
pub fn use_intents_valid(
    ecs: &World,
    map: &GameMap,
    player: Entity,
    blasts: &Vec<Vec<(i32, i32)>>,
) -> (r: bool)
    requires
        ecs.wf(),
        map.wf(),
    ensures
        r == ({
            &&& player.0 < ecs.spec_entities()
            &&& (forall|t: int, k: int|
                0 <= t < map.tile_content@.len() && 0 <= k < map.tile_content@[t]@.len() ==> (
                #[trigger] map.tile_content@[t]@[k]).0 < ecs.spec_entities())
            &&& blasts@.len() == aoe_count(*ecs, ecs.spec_entities() as int)
            &&& (forall|i: int|
                0 <= i < ecs.spec_entities() && (#[trigger] ecs.wants_use@[i]) is Some ==> {
                    let u = ecs.wants_use@[i]->Some_0;
                    &&& u.item.0 < ecs.spec_entities()
                    &&& (u.target is Some ==> map.in_bounds(
                        u.target->Some_0.x as int,
                        u.target->Some_0.y as int,
                    ))
                    &&& (ecs.equippables@[u.item.0 as int] is Some ==> targets_of(
                        *ecs,
                        *map,
                        player,
                        blasts_view(blasts@),
                        i,
                    ).len() > 0)
                    &&& (ecs.provides_healing@[u.item.0 as int] is Some ==> ecs.provides_healing@[
                    u.item.0 as int]->Some_0.heal_amount >= 0)
                })
            &&& (forall|i: int|
                0 <= i < ecs.spec_entities() && (#[trigger] ecs.wants_use@[i]) is Some && i
                    == player.0 ==> ecs.names@[ecs.wants_use@[i]->Some_0.item.0 as int] is Some)
            &&& (forall|i: int, k: int|
                0 <= i < ecs.spec_entities() && (#[trigger] ecs.wants_use@[i]) is Some && i
                    == player.0 && 0 <= k < targets_of(
                    *ecs,
                    *map,
                    player,
                    blasts_view(blasts@),
                    i,
                ).len() ==> ecs.names@[(#[trigger] targets_of(
                    *ecs,
                    *map,
                    player,
                    blasts_view(blasts@),
                    i,
                )[k]).0 as int] is Some)
        }),
{
    let n = ecs.entity_count();
    if player.0 >= n {
        return false;
    }
    let tiles_n = map.tile_content.len();
    let mut t: usize = 0;
    while t < tiles_n
        invariant
            t <= tiles_n,
            tiles_n == map.tile_content@.len(),
            forall|t2: int, k2: int|
                0 <= t2 < t && 0 <= k2 < map.tile_content@[t2]@.len() ==> (
                #[trigger] map.tile_content@[t2]@[k2]).0 < ecs.spec_entities(),
        decreases tiles_n - t,
    {
        let row_len = map.tile_content[t].len();
        let mut k: usize = 0;
        while k < row_len
            invariant
                k <= row_len,
                t < tiles_n,
                row_len == map.tile_content@[t as int]@.len(),
                forall|k2: int|
                    0 <= k2 < k ==> (#[trigger] map.tile_content@[t as int]@[k2]).0
                        < ecs.spec_entities(),
            decreases row_len - k,
        {
            if map.tile_content[t][k].0 >= n {
                return false;
            }
            k = k + 1;
        }
        t = t + 1;
    }
    let mut cnt: usize = 0;
    let mut i: usize = 0;
    while i < n
        invariant
            i <= n,
            cnt == aoe_count(*ecs, i as int),
        decreases n - i,
    {
        let e = Entity(i);
        let counts = match ecs.wants_use.get(e) {
            Some(u) => {
                if u.item.0 >= n {
                    return false;
                }
                u.target.is_some() && ecs.aoe.contains(u.item)
            },
            None => false,
        };
        if counts {
            proof {
                lemma_aoe_count_le(*ecs, i as int);
                assert(aoe_count(*ecs, i + 1) == aoe_count(*ecs, i as int) + 1);
            }
            cnt = cnt + 1;
        }
        i = i + 1;
        proof {
            assert(aoe_count(*ecs, i as int) == aoe_count(*ecs, i - 1) + if ecs.wants_use@[i - 1]
                is Some && ecs.wants_use@[i - 1]->Some_0.target is Some && ecs.aoe@[ecs.wants_use@[
            i - 1]->Some_0.item.0 as int] is Some {
                1int
            } else {
                0int
            });
        }
    }
    if cnt != blasts.len() {
        return false;
    }
    let ghost bv = blasts_view(blasts@);
    let blast_total = blasts.len();
    let mut aoe_cursor: usize = 0;
    let mut i2: usize = 0;
    while i2 < n
        invariant
            i2 <= n,
            aoe_cursor == aoe_count(*ecs, i2 as int),
            player.0 < ecs.spec_entities(),
            blasts@.len() == aoe_count(*ecs, ecs.spec_entities() as int),
            blast_total == blasts@.len(),
            forall|t2: int, k2: int|
                0 <= t2 < map.tile_content@.len() && 0 <= k2 < map.tile_content@[t2]@.len() ==> (
                #[trigger] map.tile_content@[t2]@[k2]).0 < ecs.spec_entities(),
            forall|q: int|
                0 <= q < i2 && (#[trigger] ecs.wants_use@[q]) is Some ==> {
                    let u = ecs.wants_use@[q]->Some_0;
                    &&& u.item.0 < ecs.spec_entities()
                    &&& (u.target is Some ==> map.in_bounds(
                        u.target->Some_0.x as int,
                        u.target->Some_0.y as int,
                    ))
                    &&& (ecs.equippables@[u.item.0 as int] is Some ==> targets_of(
                        *ecs,
                        *map,
                        player,
                        bv,
                        q,
                    ).len() > 0)
                    &&& (ecs.provides_healing@[u.item.0 as int] is Some ==> ecs.provides_healing@[
                    u.item.0 as int]->Some_0.heal_amount >= 0)
                },
            forall|q: int|
                0 <= q < i2 && (#[trigger] ecs.wants_use@[q]) is Some && q == player.0 ==> ecs
                    .names@[ecs.wants_use@[q]->Some_0.item.0 as int] is Some,
            forall|q: int, k: int|
                0 <= q < i2 && (#[trigger] ecs.wants_use@[q]) is Some && q == player.0 && 0 <= k
                    < targets_of(*ecs, *map, player, bv, q).len() ==> ecs.names@[(
                #[trigger] targets_of(*ecs, *map, player, bv, q)[k]).0 as int] is Some,
        decreases n - i2,
    {
        let e = Entity(i2);
        let intent = match ecs.wants_use.get(e) {
            Some(u) => Some(*u),
            None => None,
        };
        if let Some(u) = intent {
            if u.item.0 >= n {
                return false;
            }
            if let Some(tp) = u.target {
                if tp.x < 0 || tp.x >= map.width || tp.y < 0 || tp.y >= map.height {
                    return false;
                }
            }
            let is_aoe = u.target.is_some() && ecs.aoe.contains(u.item);
            let blast_ref: Option<&Vec<(i32, i32)>> = if is_aoe {
                proof {
                    assert(aoe_count(*ecs, i2 + 1) == aoe_count(*ecs, i2 as int) + 1);
                    lemma_aoe_count_mono(*ecs, i2 + 1, n as int);
                }
                Some(&blasts[aoe_cursor])
            } else {
                None
            };
            let ghost blast_spec = if is_aoe {
                bv[aoe_cursor as int]
            } else {
                Seq::<(i32, i32)>::empty()
            };
            let targets = collect_targets(
                ecs,
                map,
                player,
                e,
                u,
                Ghost(i2 as int),
                blast_ref,
                Ghost(blast_spec),
            );
            proof {
                assert(blast_spec == blast_of(*ecs, bv, i2 as int));
                assert(targets@ == targets_of(*ecs, *map, player, bv, i2 as int));
            }
            if ecs.equippables.contains(u.item) && targets.len() == 0 {
                return false;
            }
            match ecs.provides_healing.get(u.item) {
                Some(h) => {
                    if h.heal_amount < 0 {
                        return false;
                    }
                },
                None => {},
            }
            if e.0 == player.0 {
                if !ecs.names.contains(u.item) {
                    return false;
                }
                let nt = targets.len();
                let mut k3: usize = 0;
                while k3 < nt
                    invariant
                        k3 <= nt,
                        nt == targets@.len(),
                        targets@ == targets_of(*ecs, *map, player, bv, i2 as int),
                        forall|k4: int|
                            0 <= k4 < k3 ==> ecs.names@[(#[trigger] targets@[k4]).0 as int]
                                is Some,
                    decreases nt - k3,
                {
                    if !ecs.names.contains(targets[k3]) {
                        proof {
                            assert(targets@[k3 as int].0 < ecs.spec_entities());
                            assert(!(ecs.names@[targets@[k3 as int].0 as int] is Some));
                        }
                        return false;
                    }
                    k3 = k3 + 1;
                }
            }
            if is_aoe {
                aoe_cursor = aoe_cursor + 1;
            }
        }
        i2 = i2 + 1;
        proof {
            assert(aoe_count(*ecs, i2 as int) == aoe_count(*ecs, i2 - 1) + if ecs.wants_use@[i2
                - 1] is Some && ecs.wants_use@[i2 - 1]->Some_0.target is Some && ecs.aoe@[
            ecs.wants_use@[i2 - 1]->Some_0.item.0 as int] is Some {
                1int
            } else {
                0int
            });
        }
    }
    true
}

/// The blast-region requests of the pending use intents: the center
/// and radius of every area intent, in entity order. The front end
/// answers each with the visibility service's raw tile list and hands
/// the answers to `ItemUseSystem::run`.
#[verifier::loop_isolation(false)]
pub fn aoe_requests(ecs: &World) -> (r: Vec<(Position, i32)>)
    requires
        ecs.wf(),
        forall|i: int|
            0 <= i < ecs.spec_entities() && (#[trigger] ecs.wants_use@[i]) is Some ==> ecs
                .wants_use@[i]->Some_0.item.0 < ecs.spec_entities(),
    ensures
        r@.len() == aoe_count(*ecs, ecs.spec_entities() as int),
        forall|i: int|
            0 <= i < ecs.spec_entities() && (#[trigger] ecs.wants_use@[i]) is Some
                && ecs.wants_use@[i]->Some_0.target is Some && ecs.aoe@[ecs.wants_use@[
            i]->Some_0.item.0 as int] is Some ==> {
                &&& aoe_count(*ecs, i) < r@.len()
                &&& r@[aoe_count(*ecs, i)].0 == ecs.wants_use@[i]->Some_0.target->Some_0
                &&& r@[aoe_count(*ecs, i)].1 == ecs.aoe@[ecs.wants_use@[
                i]->Some_0.item.0 as int]->Some_0.radius
            },
{
    let n = ecs.entity_count();
    let mut r: Vec<(Position, i32)> = Vec::new();
    let mut i: usize = 0;
    while i < n
        invariant
            i <= n,
            r@.len() == aoe_count(*ecs, i as int),
            forall|q: int|
                0 <= q < i && (#[trigger] ecs.wants_use@[q]) is Some && ecs.wants_use@[
                q]->Some_0.target is Some && ecs.aoe@[ecs.wants_use@[q]->Some_0.item.0 as int]
                    is Some ==> {
                    &&& aoe_count(*ecs, q) < r@.len()
                    &&& r@[aoe_count(*ecs, q)].0 == ecs.wants_use@[q]->Some_0.target->Some_0
                    &&& r@[aoe_count(*ecs, q)].1 == ecs.aoe@[ecs.wants_use@[
                    q]->Some_0.item.0 as int]->Some_0.radius
                },
        decreases n - i,
    {
        let ghost r0 = r@;
        let e = Entity(i);
        let intent = match ecs.wants_use.get(e) {
            Some(u) => Some(*u),
            None => None,
        };
        let mut pushed = false;
        if let Some(u) = intent {
            if let Some(tp) = u.target {
                if u.item.0 < ecs.entity_count() {
                    match ecs.aoe.get(u.item) {
                        Some(area) => {
                            r.push((tp, area.radius));
                            pushed = true;
                        },
                        None => {},
                    }
                } else {
                    proof {
                        assert(false);
                    }
                }
            }
        }
        i = i + 1;
        proof {
            let q0 = i - 1;
            assert(aoe_count(*ecs, i as int) == aoe_count(*ecs, q0) + if ecs.wants_use@[q0]
                is Some && ecs.wants_use@[q0]->Some_0.target is Some && ecs.aoe@[ecs.wants_use@[
            q0]->Some_0.item.0 as int] is Some {
                1int
            } else {
                0int
            });
            if pushed {
                assert(r@ == r0.push(
                    (
                        ecs.wants_use@[q0]->Some_0.target->Some_0,
                        ecs.aoe@[ecs.wants_use@[q0]->Some_0.item.0 as int]->Some_0.radius,
                    ),
                ));
            } else {
                assert(r@ == r0);
            }
            assert forall|q: int|
                0 <= q < i && (#[trigger] ecs.wants_use@[q]) is Some && ecs.wants_use@[
            q]->Some_0.target is Some && ecs.aoe@[ecs.wants_use@[q]->Some_0.item.0 as int]
                is Some implies {
                &&& aoe_count(*ecs, q) < r@.len()
                &&& r@[aoe_count(*ecs, q)].0 == ecs.wants_use@[q]->Some_0.target->Some_0
                &&& r@[aoe_count(*ecs, q)].1 == ecs.aoe@[ecs.wants_use@[
                q]->Some_0.item.0 as int]->Some_0.radius
            } by {
                assert(aoe_count(*ecs, q + 1) == aoe_count(*ecs, q) + 1);
                lemma_aoe_count_mono(*ecs, 0, q);
                lemma_aoe_count_mono(*ecs, q + 1, i as int);
                if q < q0 {
                    lemma_aoe_count_mono(*ecs, q + 1, q0);
                    assert(aoe_count(*ecs, q) < r0.len());
                    assert(r@[aoe_count(*ecs, q)] == r0[aoe_count(*ecs, q)]);
                } else {
                    assert(q == q0);
                    assert(pushed);
                    assert(aoe_count(*ecs, q) == r0.len());
                }
            }
        }
    }
    r
}

/// The equipment state as the unequip stage leaves it.
pub struct UnequipOutcome {
    pub equipped: Seq<Option<crate::components::Equipped>>,
    pub backpacks: Seq<Option<InBackpack>>,
}

/// One unequip: the item leaves its slot and returns to the acting
/// entity's backpack.
pub open spec fn unequip_step(w: World, st: UnequipOutcome, i: int) -> UnequipOutcome {
    match w.wants_unequip@[i] {
        Some(u) => UnequipOutcome {
            equipped: st.equipped.update(u.item.0 as int, None),
            backpacks: st.backpacks.update(
                u.item.0 as int,
                Some(InBackpack { owner: Entity(i as usize) }),
            ),
        },
        None => st,
    }
}

/// The unequip stage's outcome after the first `k` actors.
pub open spec fn unequip_resolve(
    w: World,
    e0: Seq<Option<crate::components::Equipped>>,
    b0: Seq<Option<InBackpack>>,
    k: int,
) -> UnequipOutcome
    decreases k,
{
    if k <= 0 {
        UnequipOutcome { equipped: e0, backpacks: b0 }
    } else {
        unequip_step(w, unequip_resolve(w, e0, b0, k - 1), k - 1)
    }
}

pub struct ItemUnequipSystem {}

impl ItemUnequipSystem {
    /// Moves every item with an unequip intent out of its slot and
    /// into the acting entity's backpack, then clears the intents.
    #[verifier::loop_isolation(false)]
    pub fn run(ecs: &mut World)
        requires
            old(ecs).wf(),
            forall|i: int|
                0 <= i < old(ecs).spec_entities() && old(ecs).wants_unequip@[i] is Some ==> old(
                    ecs,
                ).wants_unequip@[i]->Some_0.item.0 < old(ecs).spec_entities(),
        ensures
            final(ecs).wf(),
            *final(ecs) == (World {
                equipped: final(ecs).equipped,
                backpacks: final(ecs).backpacks,
                wants_unequip: final(ecs).wants_unequip,
                ..*old(ecs)
            }),
            forall|i: int|
                0 <= i < final(ecs).spec_entities() ==> final(ecs).wants_unequip@[i] is None,
            final(ecs).equipped@ == unequip_resolve(
                *old(ecs),
                old(ecs).equipped@,
                old(ecs).backpacks@,
                old(ecs).spec_entities() as int,
            ).equipped,
            final(ecs).backpacks@ == unequip_resolve(
                *old(ecs),
                old(ecs).equipped@,
                old(ecs).backpacks@,
                old(ecs).spec_entities() as int,
            ).backpacks,
    {
        let ghost w0 = *old(ecs);
        let ghost e0 = old(ecs).equipped@;
        let ghost b0 = old(ecs).backpacks@;
        let n = ecs.entity_count();
        let mut i: usize = 0;
        while i < n
            invariant
                ecs.wf(),
                i <= n,
                *ecs == (World {
                    equipped: ecs.equipped,
                    backpacks: ecs.backpacks,
                    ..w0
                }),
                ecs.equipped@ == unequip_resolve(w0, e0, b0, i as int).equipped,
                ecs.backpacks@ == unequip_resolve(w0, e0, b0, i as int).backpacks,
            decreases n - i,
        {
            let e = Entity(i);
            let intent = match ecs.wants_unequip.get(e) {
                Some(u) => Some(*u),
                None => None,
            };
            if let Some(u) = intent {
                ecs.equipped.remove(u.item);
                ecs.backpacks.insert(u.item, InBackpack { owner: e });
            }
            i = i + 1;
            proof {
                assert(unequip_resolve(w0, e0, b0, i as int) == unequip_step(
                    w0,
                    unequip_resolve(w0, e0, b0, i - 1),
                    i - 1,
                ));
            }
        }
        ecs.wants_unequip.clear();
    }
}

} // verus!
