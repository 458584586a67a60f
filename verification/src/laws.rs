//! Laws of the simulation that span several systems: monotonicity of
//! melee damage, the healing clamp, exclusivity of item placements,
//! and slot displacement on equip.

use vstd::prelude::*;

use crate::components::Entity;
use crate::components::Equippable;
use crate::components::Equipped;
use crate::components::InBackpack;
use crate::components::Item;
use crate::components::Name;
use crate::components::Position;
use crate::components::ProvidesHealing;
use crate::inventory_system::UseState;
use crate::inventory_system::drop_resolve;
use crate::inventory_system::drop_step;
use crate::inventory_system::equip_apply;
use crate::inventory_system::heal_apply;
use crate::inventory_system::pickup_resolve;
use crate::inventory_system::pickup_step;
use crate::inventory_system::slot_match;
use crate::inventory_system::unequip_fold;
use crate::inventory_system::unequip_resolve;
use crate::inventory_system::unequip_step;
use crate::gamelog::LogEventV;
use crate::map::GameMap;
use crate::spec_melee_damage;
use crate::world::World;

verus! {

/// Melee damage is monotonically non-decreasing in attacker power and
/// non-increasing in defender defense.
pub proof fn lemma_melee_damage_monotonic(p1: int, p2: int, d1: int, d2: int)
    requires
        p1 <= p2,
        d2 <= d1,
    ensures
        spec_melee_damage(p1, d1) <= spec_melee_damage(p2, d2),
{
}

/// Melee damage is never negative: attacks cannot heal.
pub proof fn lemma_melee_damage_nonnegative(p: int, d: int)
    ensures
        spec_melee_damage(p, d) >= 0,
{
}

/// After a healing effect resolves, no touched target's hit points
/// exceed its maximum: healing clamps at `max_hp`.
pub proof fn lemma_heal_never_exceeds_max(
    heal: Option<ProvidesHealing>,
    names: Seq<Option<Name>>,
    user_is_player: bool,
    item: int,
    tgts: Seq<Entity>,
    st: UseState,
    k: int,
    t: int,
)
    requires
        heal is Some ==> heal->Some_0.heal_amount >= 0,
        0 <= t < st.stats.len(),
        k <= tgts.len(),
        forall|q: int| 0 <= q < tgts.len() ==> (#[trigger] tgts[q]).0 < st.stats.len(),
        heal_apply(heal, names, user_is_player, item, tgts, st, k).stats[t] != st.stats[t],
    ensures
        heal_apply(heal, names, user_is_player, item, tgts, st, k).stats[t] is Some,
        heal_apply(heal, names, user_is_player, item, tgts, st, k).stats[t]->Some_0.hp
            <= heal_apply(heal, names, user_is_player, item, tgts, st, k).stats[t]->Some_0.max_hp,
    decreases k,
{
    if k <= 0 || heal is None {
    } else {
        lemma_heal_apply_len(heal, names, user_is_player, item, tgts, st, k - 1);
        let prev = heal_apply(heal, names, user_is_player, item, tgts, st, k - 1);
        if tgts[k - 1].0 as int == t && prev.stats[t] is Some {
        } else {
            assert(heal_apply(heal, names, user_is_player, item, tgts, st, k).stats[t]
                == prev.stats[t]);
            lemma_heal_never_exceeds_max(heal, names, user_is_player, item, tgts, st, k - 1, t);
        }
    }
}

/// Healing keeps one statistics slot per entity.
pub proof fn lemma_heal_apply_len(
    heal: Option<ProvidesHealing>,
    names: Seq<Option<Name>>,
    user_is_player: bool,
    item: int,
    tgts: Seq<Entity>,
    st: UseState,
    k: int,
)
    requires
        k <= tgts.len(),
        forall|q: int| 0 <= q < tgts.len() ==> (#[trigger] tgts[q]).0 < st.stats.len(),
    ensures
        heal_apply(heal, names, user_is_player, item, tgts, st, k).stats.len() == st.stats.len(),
    decreases k,
{
    if k <= 0 || heal is None {
    } else {
        lemma_heal_apply_len(heal, names, user_is_player, item, tgts, st, k - 1);
    }
}

/// Placement exclusivity: an item entity holds at most one of a map
/// position, a backpack reference, and an equipment slot.
pub open spec fn placements_exclusive(
    items: Seq<Option<Item>>,
    pos: Seq<Option<Position>>,
    packs: Seq<Option<InBackpack>>,
    eq: Seq<Option<Equipped>>,
) -> bool {
    forall|i: int|
        0 <= i < items.len() && (#[trigger] items[i]) is Some ==> {
            &&& !(pos[i] is Some && packs[i] is Some)
            &&& !(pos[i] is Some && eq[i] is Some)
            &&& !(packs[i] is Some && eq[i] is Some)
        }
}

/// The pickup stage preserves placement exclusivity: a collected item
/// leaves the map as it enters the backpack. Items are picked up off
/// the map, so no pickup intent names an equipped item.
pub proof fn lemma_pickup_preserves_exclusive(
    w: World,
    player: Entity,
    p0: Seq<Option<Position>>,
    b0: Seq<Option<InBackpack>>,
    l0: Seq<LogEventV>,
    k: int,
)
    requires
        w.wf(),
        p0.len() == w.spec_entities(),
        b0.len() == w.spec_entities(),
        placements_exclusive(w.items@, p0, b0, w.equipped@),
        forall|i: int|
            0 <= i < w.spec_entities() && (#[trigger] w.wants_pickup@[i]) is Some ==> {
                &&& w.wants_pickup@[i]->Some_0.item.0 < w.spec_entities()
                &&& w.equipped@[w.wants_pickup@[i]->Some_0.item.0 as int] is None
            },
        k <= w.spec_entities(),
    ensures
        pickup_resolve(w, player, p0, b0, l0, k).positions.len() == p0.len(),
        pickup_resolve(w, player, p0, b0, l0, k).backpacks.len() == b0.len(),
        placements_exclusive(
            w.items@,
            pickup_resolve(w, player, p0, b0, l0, k).positions,
            pickup_resolve(w, player, p0, b0, l0, k).backpacks,
            w.equipped@,
        ),
    decreases k,
{
    if k <= 0 {
    } else {
        lemma_pickup_preserves_exclusive(w, player, p0, b0, l0, k - 1);
        let prev = pickup_resolve(w, player, p0, b0, l0, k - 1);
        let cur = pickup_step(w, player, prev, k - 1);
        assert(pickup_resolve(w, player, p0, b0, l0, k) == cur);
        if w.wants_pickup@[k - 1] is Some {
            let it = w.wants_pickup@[k - 1]->Some_0.item.0 as int;
            assert forall|i: int|
                0 <= i < w.items@.len() && (#[trigger] w.items@[i]) is Some implies {
                &&& !(cur.positions[i] is Some && cur.backpacks[i] is Some)
                &&& !(cur.positions[i] is Some && w.equipped@[i] is Some)
                &&& !(cur.backpacks[i] is Some && w.equipped@[i] is Some)
            } by {
                if i == it {
                    assert(w.equipped@[i] is None);
                }
            }
        }
    }
}

/// The drop stage preserves placement exclusivity: a dropped item
/// leaves the backpack as it lands on the map. Items are dropped out
/// of the backpack, so no drop intent names an equipped item.
pub proof fn lemma_drop_preserves_exclusive(
    w: World,
    player: Entity,
    p0: Seq<Option<Position>>,
    b0: Seq<Option<InBackpack>>,
    l0: Seq<LogEventV>,
    k: int,
)
    requires
        w.wf(),
        p0.len() == w.spec_entities(),
        b0.len() == w.spec_entities(),
        placements_exclusive(w.items@, p0, b0, w.equipped@),
        forall|i: int|
            0 <= i < w.spec_entities() && (#[trigger] w.wants_drop@[i]) is Some ==> {
                &&& w.wants_drop@[i]->Some_0.item.0 < w.spec_entities()
                &&& w.equipped@[w.wants_drop@[i]->Some_0.item.0 as int] is None
            },
        k <= w.spec_entities(),
    ensures
        drop_resolve(w, player, p0, b0, l0, k).positions.len() == p0.len(),
        drop_resolve(w, player, p0, b0, l0, k).backpacks.len() == b0.len(),
        placements_exclusive(
            w.items@,
            drop_resolve(w, player, p0, b0, l0, k).positions,
            drop_resolve(w, player, p0, b0, l0, k).backpacks,
            w.equipped@,
        ),
    decreases k,
{
    if k <= 0 {
    } else {
        lemma_drop_preserves_exclusive(w, player, p0, b0, l0, k - 1);
        let prev = drop_resolve(w, player, p0, b0, l0, k - 1);
        let cur = drop_step(w, player, prev, k - 1);
        assert(drop_resolve(w, player, p0, b0, l0, k) == cur);
        if w.wants_drop@[k - 1] is Some {
            let it = w.wants_drop@[k - 1]->Some_0.item.0 as int;
            assert forall|i: int|
                0 <= i < w.items@.len() && (#[trigger] w.items@[i]) is Some implies {
                &&& !(cur.positions[i] is Some && cur.backpacks[i] is Some)
                &&& !(cur.positions[i] is Some && w.equipped@[i] is Some)
                &&& !(cur.backpacks[i] is Some && w.equipped@[i] is Some)
            } by {
                if i == it {
                    assert(w.equipped@[i] is None);
                }
            }
        }
    }
}

/// The unequip stage preserves placement exclusivity: the item leaves
/// its slot as it enters the backpack. Unequip intents name equipped
/// items, which by exclusivity are neither on the map nor already
/// carried.
pub proof fn lemma_unequip_preserves_exclusive(
    w: World,
    pos: Seq<Option<Position>>,
    e0: Seq<Option<Equipped>>,
    b0: Seq<Option<InBackpack>>,
    k: int,
)
    requires
        w.wf(),
        pos.len() == w.spec_entities(),
        e0.len() == w.spec_entities(),
        b0.len() == w.spec_entities(),
        placements_exclusive(w.items@, pos, b0, e0),
        forall|i: int|
            0 <= i < w.spec_entities() && (#[trigger] w.wants_unequip@[i]) is Some ==> {
                &&& w.wants_unequip@[i]->Some_0.item.0 < w.spec_entities()
                &&& e0[w.wants_unequip@[i]->Some_0.item.0 as int] is Some
            },
        k <= w.spec_entities(),
    ensures
        unequip_resolve(w, e0, b0, k).equipped.len() == e0.len(),
        unequip_resolve(w, e0, b0, k).backpacks.len() == b0.len(),
        placements_exclusive(
            w.items@,
            pos,
            unequip_resolve(w, e0, b0, k).backpacks,
            unequip_resolve(w, e0, b0, k).equipped,
        ),
    decreases k,
{
    if k <= 0 {
    } else {
        lemma_unequip_preserves_exclusive(w, pos, e0, b0, k - 1);
        let prev = unequip_resolve(w, e0, b0, k - 1);
        assert(unequip_resolve(w, e0, b0, k) == unequip_step(w, prev, k - 1));
        if w.wants_unequip@[k - 1] is Some {
            let it = w.wants_unequip@[k - 1]->Some_0.item.0 as int;
            assert forall|i: int|
                0 <= i < w.items@.len() && (#[trigger] w.items@[i]) is Some implies {
                &&& !(pos[i] is Some && unequip_step(w, prev, k - 1).backpacks[i] is Some)
                &&& !(pos[i] is Some && unequip_step(w, prev, k - 1).equipped[i] is Some)
                &&& !(unequip_step(w, prev, k - 1).backpacks[i] is Some && unequip_step(
                    w,
                    prev,
                    k - 1,
                ).equipped[i] is Some)
            } by {
                if i == it {
                    assert(e0[i] is Some);
                    assert(!(pos[i] is Some));
                }
            }
        }
    }
}

/// The displaced items of one equip keep exclusivity, and the newly
/// equipped item holds its slot alone.
pub proof fn lemma_unequip_fold_preserves(
    items: Seq<Option<Item>>,
    equipped0: Seq<Option<Equipped>>,
    names: Seq<Option<Name>>,
    target: Entity,
    slot: crate::components::EquipmentSlot,
    player: Entity,
    st: UseState,
    k: int,
)
    requires
        placements_exclusive(items, st.positions, st.backpacks, st.equipped),
        st.equipped == equipped0,
        items.len() == equipped0.len(),
        st.positions.len() == equipped0.len(),
        st.backpacks.len() == equipped0.len(),
        k <= equipped0.len(),
    ensures
        placements_exclusive(
            items,
            unequip_fold(equipped0, names, target, slot, player, st, k).positions,
            unequip_fold(equipped0, names, target, slot, player, st, k).backpacks,
            unequip_fold(equipped0, names, target, slot, player, st, k).equipped,
        ),
        unequip_fold(equipped0, names, target, slot, player, st, k).positions == st.positions,
        forall|j: int|
            0 <= j < equipped0.len() ==> #[trigger] unequip_fold(
                equipped0,
                names,
                target,
                slot,
                player,
                st,
                k,
            ).equipped[j] == if 0 <= j < k && slot_match(equipped0[j], target, slot) {
                None
            } else {
                equipped0[j]
            },
        unequip_fold(equipped0, names, target, slot, player, st, k).backpacks.len()
            == st.backpacks.len(),
        forall|j: int|
            0 <= j < equipped0.len() ==> #[trigger] unequip_fold(
                equipped0,
                names,
                target,
                slot,
                player,
                st,
                k,
            ).backpacks[j] == if 0 <= j < k && slot_match(equipped0[j], target, slot) {
                Some(InBackpack { owner: target })
            } else {
                st.backpacks[j]
            },
        unequip_fold(equipped0, names, target, slot, player, st, k).equipped.len()
            == equipped0.len(),
        unequip_fold(equipped0, names, target, slot, player, st, k).stats == st.stats,
        unequip_fold(equipped0, names, target, slot, player, st, k).suffer == st.suffer,
        unequip_fold(equipped0, names, target, slot, player, st, k).confusion == st.confusion,
        unequip_fold(equipped0, names, target, slot, player, st, k).pending == st.pending,
    decreases k,
{
    if k <= 0 {
    } else {
        lemma_unequip_fold_preserves(items, equipped0, names, target, slot, player, st, k - 1);
        let prev = unequip_fold(equipped0, names, target, slot, player, st, k - 1);
        if slot_match(equipped0[k - 1], target, slot) {
            assert forall|i: int|
                0 <= i < items.len() && (#[trigger] items[i]) is Some implies {
                &&& !(prev.positions[i] is Some && unequip_fold(
                    equipped0,
                    names,
                    target,
                    slot,
                    player,
                    st,
                    k,
                ).backpacks[i] is Some)
                &&& !(prev.positions[i] is Some && unequip_fold(
                    equipped0,
                    names,
                    target,
                    slot,
                    player,
                    st,
                    k,
                ).equipped[i] is Some)
                &&& !(unequip_fold(equipped0, names, target, slot, player, st, k).backpacks[i]
                    is Some && unequip_fold(
                    equipped0,
                    names,
                    target,
                    slot,
                    player,
                    st,
                    k,
                ).equipped[i] is Some)
            } by {
                if i == k - 1 {
                    assert(equipped0[i] is Some);
                    assert(!(st.positions[i] is Some));
                }
            }
        }
    }
}

/// Healing moves no item: positions, backpacks, and equipment are
/// untouched.
pub proof fn lemma_heal_moves_nothing(
    heal: Option<ProvidesHealing>,
    names: Seq<Option<Name>>,
    user_is_player: bool,
    item: int,
    tgts: Seq<Entity>,
    st: UseState,
    k: int,
)
    ensures
        heal_apply(heal, names, user_is_player, item, tgts, st, k).positions == st.positions,
        heal_apply(heal, names, user_is_player, item, tgts, st, k).backpacks == st.backpacks,
        heal_apply(heal, names, user_is_player, item, tgts, st, k).equipped == st.equipped,
    decreases k,
{
    if k <= 0 || heal is None {
    } else {
        lemma_heal_moves_nothing(heal, names, user_is_player, item, tgts, st, k - 1);
    }
}

/// Item damage moves no item.
pub proof fn lemma_inflict_moves_nothing(
    dmg: Option<crate::components::InflictsDamage>,
    names: Seq<Option<Name>>,
    user_is_player: bool,
    item: int,
    tgts: Seq<Entity>,
    st: UseState,
    k: int,
)
    ensures
        crate::inventory_system::inflict_apply(dmg, names, user_is_player, item, tgts, st, k).positions
            == st.positions,
        crate::inventory_system::inflict_apply(dmg, names, user_is_player, item, tgts, st, k).backpacks
            == st.backpacks,
        crate::inventory_system::inflict_apply(dmg, names, user_is_player, item, tgts, st, k).equipped
            == st.equipped,
    decreases k,
{
    if k <= 0 || dmg is None {
    } else {
        lemma_inflict_moves_nothing(dmg, names, user_is_player, item, tgts, st, k - 1);
    }
}

/// Confusion moves no item.
pub proof fn lemma_confusion_moves_nothing(
    template: Option<crate::components::Confusion>,
    names: Seq<Option<Name>>,
    user_is_player: bool,
    item: int,
    tgts: Seq<Entity>,
    st: UseState,
    k: int,
)
    ensures
        crate::inventory_system::confusion_apply(template, names, user_is_player, item, tgts, st, k).positions
            == st.positions,
        crate::inventory_system::confusion_apply(template, names, user_is_player, item, tgts, st, k).backpacks
            == st.backpacks,
        crate::inventory_system::confusion_apply(template, names, user_is_player, item, tgts, st, k).equipped
            == st.equipped,
    decreases k,
{
    if k <= 0 || template is None {
    } else {
        lemma_confusion_moves_nothing(template, names, user_is_player, item, tgts, st, k - 1);
    }
}

/// Displacing equipment changes no combat statistics.
proof fn lemma_unequip_fold_keeps_stats(
    equipped0: Seq<Option<Equipped>>,
    names: Seq<Option<Name>>,
    target: Entity,
    slot: crate::components::EquipmentSlot,
    player: Entity,
    st: UseState,
    k: int,
)
    ensures
        unequip_fold(equipped0, names, target, slot, player, st, k).stats == st.stats,
    decreases k,
{
    if k > 0 {
        lemma_unequip_fold_keeps_stats(equipped0, names, target, slot, player, st, k - 1);
    }
}

/// The damage effect changes no combat statistics; hit points move
/// only later, in the damage stage.
proof fn lemma_inflict_keeps_stats(
    dmg: Option<crate::components::InflictsDamage>,
    names: Seq<Option<Name>>,
    user_is_player: bool,
    item: int,
    tgts: Seq<Entity>,
    st: UseState,
    k: int,
)
    ensures
        crate::inventory_system::inflict_apply(dmg, names, user_is_player, item, tgts, st, k).stats
            == st.stats,
    decreases k,
{
    if k > 0 && dmg is Some {
        lemma_inflict_keeps_stats(dmg, names, user_is_player, item, tgts, st, k - 1);
    }
}

/// The confusion effect changes no combat statistics.
proof fn lemma_confusion_keeps_stats(
    template: Option<crate::components::Confusion>,
    names: Seq<Option<Name>>,
    user_is_player: bool,
    item: int,
    tgts: Seq<Entity>,
    st: UseState,
    k: int,
)
    ensures
        crate::inventory_system::confusion_apply(template, names, user_is_player, item, tgts, st, k).stats
            == st.stats,
    decreases k,
{
    if k > 0 && template is Some {
        lemma_confusion_keeps_stats(template, names, user_is_player, item, tgts, st, k - 1);
    }
}

/// Displacing equipment touches no accumulator and no status.
proof fn lemma_unequip_fold_keeps_effects(
    equipped0: Seq<Option<Equipped>>,
    names: Seq<Option<Name>>,
    target: Entity,
    slot: crate::components::EquipmentSlot,
    player: Entity,
    st: UseState,
    k: int,
)
    ensures
        unequip_fold(equipped0, names, target, slot, player, st, k).suffer == st.suffer,
        unequip_fold(equipped0, names, target, slot, player, st, k).confusion == st.confusion,
    decreases k,
{
    if k > 0 {
        lemma_unequip_fold_keeps_effects(equipped0, names, target, slot, player, st, k - 1);
    }
}

/// Healing touches no accumulator and no status, and spares every
/// entity outside the target list.
proof fn lemma_heal_keeps_and_spares(
    heal: Option<ProvidesHealing>,
    names: Seq<Option<Name>>,
    user_is_player: bool,
    item: int,
    tgts: Seq<Entity>,
    st: UseState,
    k: int,
    e: Entity,
)
    requires
        e.0 < st.stats.len(),
        k <= tgts.len(),
        forall|q: int| 0 <= q < tgts.len() ==> (#[trigger] tgts[q]) != e,
        forall|q: int| 0 <= q < tgts.len() ==> (#[trigger] tgts[q]).0 < st.stats.len(),
    ensures
        heal_apply(heal, names, user_is_player, item, tgts, st, k).suffer == st.suffer,
        heal_apply(heal, names, user_is_player, item, tgts, st, k).confusion == st.confusion,
        heal_apply(heal, names, user_is_player, item, tgts, st, k).stats.len() == st.stats.len(),
        heal_apply(heal, names, user_is_player, item, tgts, st, k).stats[e.0 as int] == st.stats[
            e.0 as int
        ],
    decreases k,
{
    if k > 0 && heal is Some {
        lemma_heal_keeps_and_spares(heal, names, user_is_player, item, tgts, st, k - 1, e);
        if 0 <= k - 1 < tgts.len() {
            assert(tgts[k - 1] != e);
            assert(tgts[k - 1].0 != e.0);
        }
    }
}

/// Item damage touches no statistics and no status, and spares the
/// accumulator of every entity outside the target list.
proof fn lemma_inflict_keeps_and_spares(
    dmg: Option<crate::components::InflictsDamage>,
    names: Seq<Option<Name>>,
    user_is_player: bool,
    item: int,
    tgts: Seq<Entity>,
    st: UseState,
    k: int,
    e: Entity,
)
    requires
        e.0 < st.suffer.len(),
        k <= tgts.len(),
        forall|q: int| 0 <= q < tgts.len() ==> (#[trigger] tgts[q]) != e,
        forall|q: int| 0 <= q < tgts.len() ==> (#[trigger] tgts[q]).0 < st.suffer.len(),
    ensures
        crate::inventory_system::inflict_apply(dmg, names, user_is_player, item, tgts, st, k).confusion
            == st.confusion,
        crate::inventory_system::inflict_apply(dmg, names, user_is_player, item, tgts, st, k).suffer.len()
            == st.suffer.len(),
        crate::inventory_system::inflict_apply(dmg, names, user_is_player, item, tgts, st, k).suffer[
            e.0 as int
        ] == st.suffer[e.0 as int],
    decreases k,
{
    if k > 0 && dmg is Some {
        lemma_inflict_keeps_and_spares(dmg, names, user_is_player, item, tgts, st, k - 1, e);
        if 0 <= k - 1 < tgts.len() {
            assert(tgts[k - 1] != e);
            assert(tgts[k - 1].0 != e.0);
        }
    }
}

/// Confusion touches no statistics and no accumulator, and spares the
/// status of every entity outside the target list.
proof fn lemma_confusion_keeps_and_spares(
    template: Option<crate::components::Confusion>,
    names: Seq<Option<Name>>,
    user_is_player: bool,
    item: int,
    tgts: Seq<Entity>,
    st: UseState,
    k: int,
    e: Entity,
)
    requires
        e.0 < st.confusion.len(),
        k <= tgts.len(),
        forall|q: int| 0 <= q < tgts.len() ==> (#[trigger] tgts[q]) != e,
        forall|q: int| 0 <= q < tgts.len() ==> (#[trigger] tgts[q]).0 < st.confusion.len(),
    ensures
        crate::inventory_system::confusion_apply(template, names, user_is_player, item, tgts, st, k).suffer
            == st.suffer,
        crate::inventory_system::confusion_apply(template, names, user_is_player, item, tgts, st, k).confusion.len()
            == st.confusion.len(),
        crate::inventory_system::confusion_apply(template, names, user_is_player, item, tgts, st, k).confusion[
            e.0 as int
        ] == st.confusion[e.0 as int],
    decreases k,
{
    if k > 0 && template is Some {
        lemma_confusion_keeps_and_spares(template, names, user_is_player, item, tgts, st, k - 1, e);
        if 0 <= k - 1 < tgts.len() {
            assert(tgts[k - 1] != e);
            assert(tgts[k - 1].0 != e.0);
        }
    }
}

/// Item P9's negative half at the whole-stage level: an entity that
/// is on no intent's resolved target list receives no effect — its
/// statistics, accumulator, and status come out exactly as they went
/// in, blast or no blast.
pub proof fn lemma_use_spares_non_targets(
    w: World,
    m: GameMap,
    player: Entity,
    blasts: Seq<Seq<(i32, i32)>>,
    st0: UseState,
    k: int,
    e: Entity,
)
    requires
        w.wf(),
        m.wf(),
        player.0 < w.spec_entities(),
        e.0 < w.spec_entities(),
        0 <= k <= w.spec_entities(),
        st0.stats.len() == w.spec_entities(),
        st0.suffer.len() == w.spec_entities(),
        st0.confusion.len() == w.spec_entities(),
        forall|i: int|
            0 <= i < w.spec_entities() && (#[trigger] w.wants_use@[i]) is Some ==> {
                let u = w.wants_use@[i]->Some_0;
                &&& u.item.0 < w.spec_entities()
                &&& (u.target is Some ==> m.in_bounds(
                    u.target->Some_0.x as int,
                    u.target->Some_0.y as int,
                ))
            },
        forall|ti: int, q: int|
            0 <= ti < m.tile_content@.len() && 0 <= q < m.tile_content@[ti]@.len() ==> (
            #[trigger] m.tile_content@[ti]@[q]).0 < w.spec_entities(),
        forall|i: int|
            0 <= i < k && (#[trigger] w.wants_use@[i]) is Some
                ==> !crate::inventory_system::targets_of(w, m, player, blasts, i).contains(e),
    ensures
        ({
            let r = crate::inventory_system::use_resolve(w, m, player, blasts, st0, k);
            &&& r.stats[e.0 as int] == st0.stats[e.0 as int]
            &&& r.suffer[e.0 as int] == st0.suffer[e.0 as int]
            &&& r.confusion[e.0 as int] == st0.confusion[e.0 as int]
            &&& r.stats.len() == st0.stats.len()
            &&& r.suffer.len() == st0.suffer.len()
            &&& r.confusion.len() == st0.confusion.len()
        }),
    decreases k,
{
    if k <= 0 {
    } else {
        lemma_use_spares_non_targets(w, m, player, blasts, st0, k - 1, e);
        let prev = crate::inventory_system::use_resolve(w, m, player, blasts, st0, k - 1);
        let cur = crate::inventory_system::use_resolve(w, m, player, blasts, st0, k);
        assert(cur == crate::inventory_system::use_step(w, m, player, blasts, prev, k - 1));
        if w.wants_use@[k - 1] is Some {
            let u = w.wants_use@[k - 1]->Some_0;
            let item = u.item.0 as int;
            let blast = crate::inventory_system::blast_of(w, blasts, k - 1);
            let tgts = crate::inventory_system::use_targets(w, m, player, k - 1, blast);
            let user_is_player = (k - 1) == player.0;
            assert(!crate::inventory_system::targets_of(w, m, player, blasts, k - 1).contains(e));
            lemma_use_targets_bound(w, m, player, blasts, k - 1);
            assert forall|q: int| 0 <= q < tgts.len() implies (#[trigger] tgts[q]) != e by {
                if tgts[q] == e {
                    assert(crate::inventory_system::targets_of(w, m, player, blasts, k - 1).contains(
                        e,
                    ));
                }
            }
            let st1 = equip_apply(w.equippables@[item], w.names@, player, item, tgts, prev);
            match w.equippables@[item] {
                Some(eqp) => {
                    lemma_unequip_fold_keeps_stats(
                        prev.equipped,
                        w.names@,
                        tgts[0],
                        eqp.slot,
                        player,
                        prev,
                        prev.equipped.len() as int,
                    );
                    lemma_unequip_fold_keeps_effects(
                        prev.equipped,
                        w.names@,
                        tgts[0],
                        eqp.slot,
                        player,
                        prev,
                        prev.equipped.len() as int,
                    );
                },
                None => {},
            }
            assert(st1.stats == prev.stats);
            assert(st1.suffer == prev.suffer);
            assert(st1.confusion == prev.confusion);
            let st2 = heal_apply(
                w.provides_healing@[item],
                w.names@,
                user_is_player,
                item,
                tgts,
                st1,
                tgts.len() as int,
            );
            lemma_heal_keeps_and_spares(
                w.provides_healing@[item],
                w.names@,
                user_is_player,
                item,
                tgts,
                st1,
                tgts.len() as int,
                e,
            );
            let st3 = crate::inventory_system::inflict_apply(
                w.inflicts_damage@[item],
                w.names@,
                user_is_player,
                item,
                tgts,
                st2,
                tgts.len() as int,
            );
            lemma_inflict_keeps_and_spares(
                w.inflicts_damage@[item],
                w.names@,
                user_is_player,
                item,
                tgts,
                st2,
                tgts.len() as int,
                e,
            );
            lemma_inflict_keeps_stats(
                w.inflicts_damage@[item],
                w.names@,
                user_is_player,
                item,
                tgts,
                st2,
                tgts.len() as int,
            );
            lemma_confusion_keeps_and_spares(
                st3.confusion[item],
                w.names@,
                user_is_player,
                item,
                tgts,
                st3,
                tgts.len() as int,
                e,
            );
            lemma_confusion_keeps_stats(
                st3.confusion[item],
                w.names@,
                user_is_player,
                item,
                tgts,
                st3,
                tgts.len() as int,
            );
        }
    }
}

/// Every blast target comes from a tile's occupant list, so its
/// entity index is in range.
proof fn lemma_blast_targets_bound(m: GameMap, blast: Seq<(i32, i32)>, k: int, n: int)
    requires
        m.wf(),
        forall|t: int, q: int|
            0 <= t < m.tile_content@.len() && 0 <= q < m.tile_content@[t]@.len() ==> (
            #[trigger] m.tile_content@[t]@[q]).0 < n,
    ensures
        forall|q: int|
            0 <= q < crate::inventory_system::blast_targets(m, blast, k).len() ==> (
            #[trigger] crate::inventory_system::blast_targets(m, blast, k)[q]).0 < n,
    decreases k,
{
    if k > 0 {
        lemma_blast_targets_bound(m, blast, k - 1, n);
        let pre = crate::inventory_system::blast_targets(m, blast, k - 1);
        let cur = crate::inventory_system::blast_targets(m, blast, k);
        if m.in_interior(blast[k - 1].0 as int, blast[k - 1].1 as int) {
            crate::map::lemma_idx_bound(
                m.width as int,
                m.height as int,
                blast[k - 1].0 as int,
                blast[k - 1].1 as int,
            );
            let row = m.tile_content@[crate::map::tile_idx(
                m.width as int,
                blast[k - 1].0 as int,
                blast[k - 1].1 as int,
            )]@;
            assert forall|q: int| 0 <= q < cur.len() implies (#[trigger] cur[q]).0 < n by {
                if q < pre.len() {
                    assert(cur[q] == pre[q]);
                } else {
                    assert(cur[q] == row[q - pre.len()]);
                }
            }
        }
    }
}

/// Every resolved target of a use intent is an existing entity.
proof fn lemma_use_targets_bound(
    w: World,
    m: GameMap,
    player: Entity,
    blasts: Seq<Seq<(i32, i32)>>,
    i: int,
)
    requires
        w.wf(),
        m.wf(),
        0 <= i < w.spec_entities(),
        player.0 < w.spec_entities(),
        w.wants_use@[i] is Some,
        w.wants_use@[i]->Some_0.target is Some ==> m.in_bounds(
            w.wants_use@[i]->Some_0.target->Some_0.x as int,
            w.wants_use@[i]->Some_0.target->Some_0.y as int,
        ),
        forall|t: int, q: int|
            0 <= t < m.tile_content@.len() && 0 <= q < m.tile_content@[t]@.len() ==> (
            #[trigger] m.tile_content@[t]@[q]).0 < w.spec_entities(),
    ensures
        ({
            let tgts = crate::inventory_system::use_targets(
                w,
                m,
                player,
                i,
                crate::inventory_system::blast_of(w, blasts, i),
            );
            forall|q: int| 0 <= q < tgts.len() ==> (#[trigger] tgts[q]).0 < w.spec_entities()
        }),
{
    let u = w.wants_use@[i]->Some_0;
    let blast = crate::inventory_system::blast_of(w, blasts, i);
    match u.target {
        None => {},
        Some(tp) => {
            if w.aoe@[u.item.0 as int] is Some {
                lemma_blast_targets_bound(m, blast, blast.len() as int, w.spec_entities() as int);
            } else {
                crate::map::lemma_idx_bound(
                    m.width as int,
                    m.height as int,
                    tp.x as int,
                    tp.y as int,
                );
            }
        },
    }
}

/// One use step keeps one statistics slot per entity.
proof fn lemma_use_step_stats_len(
    w: World,
    m: GameMap,
    player: Entity,
    blasts: Seq<Seq<(i32, i32)>>,
    st0: UseState,
    i: int,
)
    requires
        w.wf(),
        m.wf(),
        player.0 < w.spec_entities(),
        st0.stats.len() == w.spec_entities(),
        0 <= i < w.spec_entities(),
        forall|i2: int|
            0 <= i2 < w.spec_entities() && (#[trigger] w.wants_use@[i2]) is Some ==> {
                let u = w.wants_use@[i2]->Some_0;
                &&& u.item.0 < w.spec_entities()
                &&& (u.target is Some ==> m.in_bounds(
                    u.target->Some_0.x as int,
                    u.target->Some_0.y as int,
                ))
            },
        forall|ti: int, q: int|
            0 <= ti < m.tile_content@.len() && 0 <= q < m.tile_content@[ti]@.len() ==> (
            #[trigger] m.tile_content@[ti]@[q]).0 < w.spec_entities(),
        crate::inventory_system::use_resolve(w, m, player, blasts, st0, i).stats.len()
            == st0.stats.len(),
    ensures
        crate::inventory_system::use_resolve(w, m, player, blasts, st0, i + 1).stats.len()
            == st0.stats.len(),
{
    let prev = crate::inventory_system::use_resolve(w, m, player, blasts, st0, i);
    let cur = crate::inventory_system::use_resolve(w, m, player, blasts, st0, i + 1);
    assert(cur == crate::inventory_system::use_step(w, m, player, blasts, prev, i));
    if w.wants_use@[i] is Some {
        let u = w.wants_use@[i]->Some_0;
        let item = u.item.0 as int;
        let blast = crate::inventory_system::blast_of(w, blasts, i);
        let tgts = crate::inventory_system::use_targets(w, m, player, i, blast);
        let user_is_player = i == player.0;
        let st1 = equip_apply(w.equippables@[item], w.names@, player, item, tgts, prev);
        match w.equippables@[item] {
            Some(eqp) => {
                lemma_unequip_fold_keeps_stats(
                    prev.equipped,
                    w.names@,
                    tgts[0],
                    eqp.slot,
                    player,
                    prev,
                    prev.equipped.len() as int,
                );
            },
            None => {},
        }
        assert(st1.stats == prev.stats);
        lemma_use_targets_bound(w, m, player, blasts, i);
        let st2 = heal_apply(
            w.provides_healing@[item],
            w.names@,
            user_is_player,
            item,
            tgts,
            st1,
            tgts.len() as int,
        );
        crate::laws::lemma_heal_apply_len(
            w.provides_healing@[item],
            w.names@,
            user_is_player,
            item,
            tgts,
            st1,
            tgts.len() as int,
        );
        lemma_inflict_keeps_stats(
            w.inflicts_damage@[item],
            w.names@,
            user_is_player,
            item,
            tgts,
            st2,
            tgts.len() as int,
        );
        let st3 = crate::inventory_system::inflict_apply(
            w.inflicts_damage@[item],
            w.names@,
            user_is_player,
            item,
            tgts,
            st2,
            tgts.len() as int,
        );
        lemma_confusion_keeps_stats(
            st3.confusion[item],
            w.names@,
            user_is_player,
            item,
            tgts,
            st3,
            tgts.len() as int,
        );
    }
}

/// The item-use stage keeps one statistics slot per entity.
proof fn lemma_use_resolve_stats_len(
    w: World,
    m: GameMap,
    player: Entity,
    blasts: Seq<Seq<(i32, i32)>>,
    st0: UseState,
    k: int,
)
    requires
        w.wf(),
        m.wf(),
        player.0 < w.spec_entities(),
        st0.stats.len() == w.spec_entities(),
        0 <= k <= w.spec_entities(),
        forall|i2: int|
            0 <= i2 < w.spec_entities() && (#[trigger] w.wants_use@[i2]) is Some ==> {
                let u = w.wants_use@[i2]->Some_0;
                &&& u.item.0 < w.spec_entities()
                &&& (u.target is Some ==> m.in_bounds(
                    u.target->Some_0.x as int,
                    u.target->Some_0.y as int,
                ))
            },
        forall|ti: int, q: int|
            0 <= ti < m.tile_content@.len() && 0 <= q < m.tile_content@[ti]@.len() ==> (
            #[trigger] m.tile_content@[ti]@[q]).0 < w.spec_entities(),
    ensures
        crate::inventory_system::use_resolve(w, m, player, blasts, st0, k).stats.len()
            == st0.stats.len(),
    decreases k,
{
    if k > 0 {
        lemma_use_resolve_stats_len(w, m, player, blasts, st0, k - 1);
        lemma_use_step_stats_len(w, m, player, blasts, st0, k - 1);
    }
}

/// Item P2 at the whole-stage level: after the item-use stage, every
/// entity whose combat statistics the stage touched ends with hit
/// points at most its maximum — the only statistics writer is the
/// healing effect, and it clamps.
pub proof fn lemma_use_heals_clamped(
    w: World,
    m: GameMap,
    player: Entity,
    blasts: Seq<Seq<(i32, i32)>>,
    st0: UseState,
    k: int,
    t: int,
)
    requires
        w.wf(),
        m.wf(),
        player.0 < w.spec_entities(),
        st0.stats.len() == w.spec_entities(),
        0 <= t < st0.stats.len(),
        0 <= k <= w.spec_entities(),
        forall|i: int|
            0 <= i < w.spec_entities() && (#[trigger] w.wants_use@[i]) is Some ==> {
                let u = w.wants_use@[i]->Some_0;
                &&& u.item.0 < w.spec_entities()
                &&& (u.target is Some ==> m.in_bounds(
                    u.target->Some_0.x as int,
                    u.target->Some_0.y as int,
                ))
                &&& (w.provides_healing@[u.item.0 as int] is Some ==> w.provides_healing@[
                u.item.0 as int]->Some_0.heal_amount >= 0)
            },
        forall|ti: int, q: int|
            0 <= ti < m.tile_content@.len() && 0 <= q < m.tile_content@[ti]@.len() ==> (
            #[trigger] m.tile_content@[ti]@[q]).0 < w.spec_entities(),
        crate::inventory_system::use_resolve(w, m, player, blasts, st0, k).stats[t]
            != st0.stats[t],
    ensures
        crate::inventory_system::use_resolve(w, m, player, blasts, st0, k).stats[t] is Some,
        crate::inventory_system::use_resolve(w, m, player, blasts, st0, k).stats[t]->Some_0.hp
            <= crate::inventory_system::use_resolve(w, m, player, blasts, st0, k).stats[
        t]->Some_0.max_hp,
    decreases k,
{
    if k <= 0 {
    } else {
        let prev = crate::inventory_system::use_resolve(w, m, player, blasts, st0, k - 1);
        let cur = crate::inventory_system::use_resolve(w, m, player, blasts, st0, k);
        lemma_use_resolve_stats_len(w, m, player, blasts, st0, k - 1);
        if cur.stats[t] == prev.stats[t] {
            lemma_use_heals_clamped(w, m, player, blasts, st0, k - 1, t);
        } else {
            assert(cur == crate::inventory_system::use_step(w, m, player, blasts, prev, k - 1));
            let u = w.wants_use@[k - 1]->Some_0;
            let item = u.item.0 as int;
            let blast = crate::inventory_system::blast_of(w, blasts, k - 1);
            let tgts = crate::inventory_system::use_targets(w, m, player, k - 1, blast);
            let user_is_player = (k - 1) == player.0;
            let st1 = equip_apply(w.equippables@[item], w.names@, player, item, tgts, prev);
            match w.equippables@[item] {
                Some(eqp) => {
                    lemma_unequip_fold_keeps_stats(
                        prev.equipped,
                        w.names@,
                        tgts[0],
                        eqp.slot,
                        player,
                        prev,
                        prev.equipped.len() as int,
                    );
                },
                None => {},
            }
            assert(st1.stats == prev.stats);
            lemma_use_targets_bound(w, m, player, blasts, k - 1);
            let st2 = heal_apply(
                w.provides_healing@[item],
                w.names@,
                user_is_player,
                item,
                tgts,
                st1,
                tgts.len() as int,
            );
            let st3 = crate::inventory_system::inflict_apply(
                w.inflicts_damage@[item],
                w.names@,
                user_is_player,
                item,
                tgts,
                st2,
                tgts.len() as int,
            );
            lemma_inflict_keeps_stats(
                w.inflicts_damage@[item],
                w.names@,
                user_is_player,
                item,
                tgts,
                st2,
                tgts.len() as int,
            );
            lemma_confusion_keeps_stats(
                st3.confusion[item],
                w.names@,
                user_is_player,
                item,
                tgts,
                st3,
                tgts.len() as int,
            );
            assert(cur.stats == st2.stats);
            lemma_heal_never_exceeds_max(
                w.provides_healing@[item],
                w.names@,
                user_is_player,
                item,
                tgts,
                st1,
                tgts.len() as int,
                t,
            );
        }
    }
}

/// The whole item-use stage preserves placement exclusivity: its only
/// placement changes are the equip effect's, which keep every item in
/// at most one place.
pub proof fn lemma_use_preserves_exclusive(
    w: World,
    m: GameMap,
    player: Entity,
    blasts: Seq<Seq<(i32, i32)>>,
    st0: UseState,
    k: int,
)
    requires
        w.wf(),
        placements_exclusive(w.items@, st0.positions, st0.backpacks, st0.equipped),
        st0.positions.len() == w.spec_entities(),
        st0.backpacks.len() == w.spec_entities(),
        st0.equipped.len() == w.spec_entities(),
        forall|i: int|
            0 <= i < w.spec_entities() && (#[trigger] w.wants_use@[i]) is Some ==> {
                &&& w.wants_use@[i]->Some_0.item.0 < w.spec_entities()
                &&& (w.equippables@[w.wants_use@[i]->Some_0.item.0 as int] is Some
                    ==> crate::inventory_system::targets_of(w, m, player, blasts, i).len() > 0)
            },
        k <= w.spec_entities(),
    ensures
        ({
            let r = crate::inventory_system::use_resolve(w, m, player, blasts, st0, k);
            &&& placements_exclusive(w.items@, r.positions, r.backpacks, r.equipped)
            &&& r.positions.len() == st0.positions.len()
            &&& r.backpacks.len() == st0.backpacks.len()
            &&& r.equipped.len() == st0.equipped.len()
        }),
    decreases k,
{
    if k <= 0 {
    } else {
        lemma_use_preserves_exclusive(w, m, player, blasts, st0, k - 1);
        let prev = crate::inventory_system::use_resolve(w, m, player, blasts, st0, k - 1);
        if w.wants_use@[k - 1] is Some {
            let u = w.wants_use@[k - 1]->Some_0;
            let item = u.item.0 as int;
            let blast = crate::inventory_system::blast_of(w, blasts, k - 1);
            let tgts = crate::inventory_system::use_targets(w, m, player, k - 1, blast);
            let user_is_player = (k - 1) == player.0;
            let st1 = equip_apply(w.equippables@[item], w.names@, player, item, tgts, prev);
            match w.equippables@[item] {
                Some(eqp) => {
                    lemma_equip_displaces_slot(
                        w.items@,
                        eqp,
                        w.names@,
                        player,
                        item,
                        tgts,
                        prev,
                    );
                },
                None => {},
            }
            let st2 = heal_apply(
                w.provides_healing@[item],
                w.names@,
                user_is_player,
                item,
                tgts,
                st1,
                tgts.len() as int,
            );
            lemma_heal_moves_nothing(
                w.provides_healing@[item],
                w.names@,
                user_is_player,
                item,
                tgts,
                st1,
                tgts.len() as int,
            );
            let st3 = crate::inventory_system::inflict_apply(
                w.inflicts_damage@[item],
                w.names@,
                user_is_player,
                item,
                tgts,
                st2,
                tgts.len() as int,
            );
            lemma_inflict_moves_nothing(
                w.inflicts_damage@[item],
                w.names@,
                user_is_player,
                item,
                tgts,
                st2,
                tgts.len() as int,
            );
            let st4 = crate::inventory_system::confusion_apply(
                st3.confusion[item],
                w.names@,
                user_is_player,
                item,
                tgts,
                st3,
                tgts.len() as int,
            );
            lemma_confusion_moves_nothing(
                st3.confusion[item],
                w.names@,
                user_is_player,
                item,
                tgts,
                st3,
                tgts.len() as int,
            );
        }
    }
}

/// Equipping an item into slot `slot` on the first target displaces
/// every other item that target had in the slot (each returns to the
/// target's backpack), installs the new item there, and leaves the
/// target with exactly one item equipped in that slot. Placement
/// exclusivity is preserved.
pub proof fn lemma_equip_displaces_slot(
    items: Seq<Option<Item>>,
    eqp: Equippable,
    names: Seq<Option<Name>>,
    player: Entity,
    item: int,
    tgts: Seq<Entity>,
    st: UseState,
)
    requires
        placements_exclusive(items, st.positions, st.backpacks, st.equipped),
        tgts.len() > 0,
        0 <= item < st.equipped.len(),
        st.equipped.len() == items.len(),
        st.backpacks.len() == items.len(),
        st.positions.len() == items.len(),
    ensures
        ({
            let r = equip_apply(Some(eqp), names, player, item, tgts, st);
            let target = tgts[0];
            &&& placements_exclusive(items, r.positions, r.backpacks, r.equipped)
            &&& r.positions.len() == st.positions.len()
            &&& r.backpacks.len() == st.backpacks.len()
            &&& r.equipped.len() == st.equipped.len()
            &&& r.equipped[item] == Some(Equipped { owner: target, slot: eqp.slot })
            &&& forall|j: int|
                0 <= j < items.len() && j != item && slot_match(
                    #[trigger] st.equipped[j],
                    target,
                    eqp.slot,
                ) ==> r.equipped[j] is None && r.backpacks[j] == Some(
                    InBackpack { owner: target },
                )
            &&& forall|j: int|
                0 <= j < items.len() && j != item ==> !slot_match(
                    #[trigger] r.equipped[j],
                    target,
                    eqp.slot,
                )
        }),
{
    let target = tgts[0];
    lemma_unequip_fold_preserves(
        items,
        st.equipped,
        names,
        target,
        eqp.slot,
        player,
        st,
        st.equipped.len() as int,
    );
    let st1 = unequip_fold(st.equipped, names, target, eqp.slot, player, st, st.equipped.len() as int);
    let r = equip_apply(Some(eqp), names, player, item, tgts, st);
    assert forall|i: int|
        0 <= i < items.len() && (#[trigger] items[i]) is Some implies {
        &&& !(r.positions[i] is Some && r.backpacks[i] is Some)
        &&& !(r.positions[i] is Some && r.equipped[i] is Some)
        &&& !(r.backpacks[i] is Some && r.equipped[i] is Some)
    } by {
        if i == item {
        } else {
            assert(r.positions[i] == st1.positions[i]);
            assert(r.backpacks[i] == st1.backpacks[i]);
            assert(r.equipped[i] == st1.equipped[i]);
        }
    }
    assert forall|j: int|
        0 <= j < items.len() && j != item && slot_match(
            #[trigger] st.equipped[j],
            target,
            eqp.slot,
        ) implies r.equipped[j] is None && r.backpacks[j] == Some(InBackpack { owner: target }) by {
        assert(r.equipped[j] == st1.equipped[j]);
        assert(r.backpacks[j] == st1.backpacks[j]);
        assert(st1.equipped[j] is None);
        assert(st1.backpacks[j] == Some(InBackpack { owner: target }));
    }
    assert forall|j: int|
        0 <= j < items.len() && j != item implies !slot_match(
            #[trigger] r.equipped[j],
            target,
            eqp.slot,
        ) by {
        assert(r.equipped[j] == st1.equipped[j]);
        if slot_match(st.equipped[j], target, eqp.slot) {
            assert(st1.equipped[j] is None);
        } else {
            assert(st1.equipped[j] == st.equipped[j]);
        }
    }
}

} // verus!
