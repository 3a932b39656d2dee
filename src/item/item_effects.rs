use crate::check::{damage_multiplier, d20, melee_attack_check, spec_damage_multiplier, spec_melee_check};
use crate::creature::action::squares_within_reach;
use crate::grid::GridSquare;
use crate::info_message::{AttackMessage, AttackResult, MessageType};
use crate::item::effect::{Duration, Effect, EffectKind, EffectResult, EffectStat};
use crate::item::statistics::{new_single_target_damage, Rarity, Statistics};
use crate::grid::gridalgos::within_reach;
use crate::item::targeting::{affected_ids, get_affected_creatures, get_targeted_squares, targeted_squares, TargetKind};
use crate::item::ItemKind;
use crate::stat::Proficiency;
use crate::creature::changed_hp;
use crate::creature::Creature;
use crate::world::Layer;
use vstd::prelude::*;

verus! {

/// A melee attack effect of the given level and rarity, dealing high
/// single-target damage.
pub fn create_testeffect(level: i32, rarity: Rarity) -> (r: Effect)
    ensures
        r.duration == Duration::Instantaneous,
        r.kind == EffectKind::BasicMeleeAttack,
        r.stats.level == level,
        r.stats.rarity == rarity,
        r.stats.damage.wf(),
{
    let stats = Statistics::new(level, rarity, new_single_target_damage(Proficiency::High));
    Effect::new(Duration::Instantaneous, stats, EffectKind::BasicMeleeAttack)
}

/// The targeting of the item at `item_index`; `None` for a passive item.
fn get_target_kind(item_index: usize, layer: &Layer) -> (r: Option<TargetKind>)
    requires
        item_index < layer.items@.len(),
    ensures
        r == (match layer.items@[item_index as int].kind {
            ItemKind::Active(t) => Some(t),
            ItemKind::Passive => None,
        }),
{
    match layer.items[item_index].kind {
        ItemKind::Active(target_kind) => Some(target_kind),
        ItemKind::Passive => None,
    }
}

/// Damage dealt by an attack with the given item damage and outcome
/// multiplier, clamped to what a hit point change can take.
pub open spec fn attack_damage(item_damage: int, multiplier: int) -> int {
    let d = item_damage * multiplier;
    if d < -i32::MAX {
        -i32::MAX as int
    } else if d > i32::MAX {
        i32::MAX as int
    } else {
        d
    }
}

/// What stays the same of a layer while an action resolves: the grid, the
/// items, every creature's id, position and stats other than hit points.
pub open spec fn same_but_hp(a: Layer, b: Layer) -> bool {
    &&& b.grid == a.grid
    &&& b.items == a.items
    &&& b.effects == a.effects
    &&& b.creature_ai == a.creature_ai
    &&& b.creatures@.len() == a.creatures@.len()
    &&& forall|i: int|
        #![trigger b.creatures@[i]]
        0 <= i < a.creatures@.len() ==> {
            &&& b.creatures@[i].id == a.creatures@[i].id
            &&& b.creatures@[i].position == a.creatures@[i].position
            &&& b.creatures@[i].stats.level == a.creatures@[i].stats.level
            &&& b.creatures@[i].stats.max_hp == a.creatures@[i].stats.max_hp
            &&& b.creatures@[i].stats.melee_attack == a.creatures@[i].stats.melee_attack
            &&& b.creatures@[i].stats.armor_class == a.creatures@[i].stats.armor_class
            &&& b.creatures@[i].stats.movement_speed == a.creatures@[i].stats.movement_speed
            &&& b.creatures@[i].stats.wf()
            &&& b.creatures@[i].inventory == a.creatures@[i].inventory
        }
}

/// Damage of a hit on creature `defender` by creature `attacker` with the
/// given d20 roll.
pub open spec fn hit_damage(creatures: Seq<Creature>, attacker: int, item_damage: int, defender: int, roll: i32) -> int {
    attack_damage(
        item_damage,
        spec_damage_multiplier(
            spec_melee_check(roll as int, creatures[attacker].stats, creatures[defender].stats).outcome,
        ),
    )
}

/// Index of the creature with id `id`.
pub open spec fn index_of_id(creatures: Seq<Creature>, id: u128) -> int {
    choose|j: int| 0 <= j < creatures.len() && creatures[j].id == id
}

pub open spec fn has_id(creatures: Seq<Creature>, id: u128) -> bool {
    exists|j: int| 0 <= j < creatures.len() && creatures[j].id == id
}

/// The results of attacking `targets` in turn with `rolls`: one per target
/// present among `creatures`, in order.
pub open spec fn melee_results(
    creatures: Seq<Creature>,
    attacker: int,
    item_damage: int,
    targets: Seq<u128>,
    rolls: Seq<i32>,
) -> Seq<AttackResult>
    decreases targets.len(),
{
    if targets.len() == 0 {
        Seq::empty()
    } else {
        let prev = melee_results(creatures, attacker, item_damage, targets.drop_last(), rolls);
        let t = targets.last();
        let roll = rolls[targets.len() - 1];
        if has_id(creatures, t) {
            let j = index_of_id(creatures, t);
            let check = spec_melee_check(roll as int, creatures[attacker].stats, creatures[j].stats);
            prev.push(
                AttackResult {
                    target: t,
                    check,
                    damage: hit_damage(creatures, attacker, item_damage, j, roll) as i32,
                },
            )
        } else {
            prev
        }
    }
}

/// Position of `id` in `targets`.
pub open spec fn target_index(targets: Seq<u128>, id: u128) -> int {
    choose|k: int| 0 <= k < targets.len() && targets[k] == id
}

/// Hit points after the attack: each creature among the targets lost the
/// damage of its own roll, kept within its bounds; the others kept theirs.
pub open spec fn hp_after_attack(
    before: Seq<Creature>,
    after: Seq<Creature>,
    attacker: int,
    item_damage: int,
    targets: Seq<u128>,
    rolls: Seq<i32>,
) -> bool {
    forall|i: int|
        #![trigger after[i]]
        0 <= i < before.len() ==> after[i].stats.current_hp == if targets.contains(before[i].id) {
            changed_hp(
                before[i].stats.current_hp as int,
                -hit_damage(before, attacker, item_damage, i, rolls[target_index(targets, before[i].id)]),
                before[i].stats.max_hp.effective_value(before[i].stats.level as int),
            )
        } else {
            before[i].stats.current_hp as int
        }
}

/// Resolves a melee attack by the creature at `attacker` against each
/// creature of `targets` in turn, with `rolls[k]` as the d20 roll against
/// `targets[k]`. Each result records the check and the damage dealt, which
/// is subtracted from the defender's hit points; ids missing from the layer
/// are skipped.
pub fn apply_melee_attack(
    layer: &mut Layer,
    attacker: usize,
    item_id: u128,
    item_damage: i32,
    targets: &Vec<u128>,
    rolls: &Vec<i32>,
) -> (r: AttackMessage)
    requires
        old(layer).wf(),
        attacker < old(layer).creatures@.len(),
        rolls@.len() == targets@.len(),
        targets@.no_duplicates(),
        forall|k: int| 0 <= k < rolls@.len() ==> 1 <= #[trigger] rolls@[k] <= 20,
    ensures
        final(layer).wf(),
        same_but_hp(*old(layer), *final(layer)),
        r.attacker == old(layer).creatures@[attacker as int].id,
        r.item == item_id,
        r.results@ == melee_results(
            old(layer).creatures@,
            attacker as int,
            item_damage as int,
            targets@,
            rolls@,
        ),
        hp_after_attack(
            old(layer).creatures@,
            final(layer).creatures@,
            attacker as int,
            item_damage as int,
            targets@,
            rolls@,
        ),
{
    let ghost start = *layer;
    let attacker_id = layer.creatures[attacker].id;
    let mut results: Vec<AttackResult> = Vec::new();
    let mut k: usize = 0;
    while k < targets.len()
        invariant
            start.wf(),
            layer.wf(),
            attacker < start.creatures@.len(),
            attacker_id == start.creatures@[attacker as int].id,
            rolls@.len() == targets@.len(),
            targets@.no_duplicates(),
            forall|k: int| 0 <= k < rolls@.len() ==> 1 <= #[trigger] rolls@[k] <= 20,
            same_but_hp(start, *layer),
            0 <= k <= targets@.len(),
            results@ == melee_results(
                start.creatures@,
                attacker as int,
                item_damage as int,
                targets@.subrange(0, k as int),
                rolls@,
            ),
            hp_after_attack(
                start.creatures@,
                layer.creatures@,
                attacker as int,
                item_damage as int,
                targets@.subrange(0, k as int),
                rolls@,
            ),
        decreases targets@.len() - k,
    {
        let target_id = targets[k];
        let ghost done = targets@.subrange(0, k as int);
        let ghost next = targets@.subrange(0, k + 1);
        proof {
            assert(next.drop_last() == done);
            assert(next.last() == target_id);
            assert(!done.contains(target_id)) by {
                if done.contains(target_id) {
                    let m = choose|m: int| 0 <= m < done.len() && done[m] == target_id;
                    assert(targets@[m] == targets@[k as int]);
                }
            }
            assert forall|x: u128| done.contains(x) implies next.contains(x) && target_index(next, x) == target_index(done, x) by {
                let m = choose|m: int| 0 <= m < done.len() && done[m] == x;
                assert(next[m] == x);
                let a = target_index(next, x);
                let b = target_index(done, x);
                assert(next[b] == x);
                if a != b {
                    assert(targets@[a] == targets@[b]);
                }
            }
        }
        match layer.find_creature(target_id) {
            Some(j) => {
                proof {
                    assert(has_id(start.creatures@, target_id));
                    let c = index_of_id(start.creatures@, target_id);
                    if c != j {
                        assert(start.creatures@[c].id == start.creatures@[j as int].id);
                    }
                }
                let check = melee_attack_check(
                    rolls[k],
                    &layer.creatures[attacker].stats,
                    &layer.creatures[j].stats,
                );
                let multiplier = damage_multiplier(check.outcome);
                proof {
                    let a = item_damage as int;
                    let b = multiplier as int;
                    assert(-0x1_0000_0000 <= a * b <= 0x1_0000_0000) by (nonlinear_arith)
                        requires
                            -0x8000_0000 <= a < 0x8000_0000,
                            0 <= b <= 2,
                    ;
                }
                let d: i64 = item_damage as i64 * multiplier as i64;
                let damage: i32 = if d < -(i32::MAX as i64) {
                    -i32::MAX
                } else if d > i32::MAX as i64 {
                    i32::MAX
                } else {
                    d as i32
                };
                let ghost before = *layer;
                layer.creatures[j].change_hp(-damage);
                proof {
                    assert(layer.creatures@ == before.creatures@.update(j as int, layer.creatures@[j as int]));
                    assert(next.contains(target_id)) by {
                        assert(next[k as int] == target_id);
                    }
                    assert(target_index(next, target_id) == k) by {
                        let t = target_index(next, target_id);
                        if t != k {
                            assert(targets@[t] == targets@[k as int]);
                        }
                    }
                    assert forall|i: int|
                        #![trigger layer.creatures@[i]]
                        0 <= i < start.creatures@.len() implies layer.creatures@[i].stats.current_hp == if next.contains(start.creatures@[i].id) {
                            changed_hp(
                                start.creatures@[i].stats.current_hp as int,
                                -hit_damage(start.creatures@, attacker as int, item_damage as int, i, rolls@[target_index(next, start.creatures@[i].id)]),
                                start.creatures@[i].stats.max_hp.effective_value(start.creatures@[i].stats.level as int),
                            )
                        } else {
                            start.creatures@[i].stats.current_hp as int
                        } by {
                        assert(before.creatures@[i] == layer.creatures@[i] || i == j);
                        if i != j {
                            if next.contains(start.creatures@[i].id) && !done.contains(start.creatures@[i].id) {
                                let m = choose|m: int| 0 <= m < next.len() && next[m] == start.creatures@[i].id;
                                if m < k {
                                    assert(done[m] == next[m]);
                                } else {
                                    assert(start.creatures@[i].id == start.creatures@[j as int].id);
                                }
                            }
                        } else {
                            assert(!done.contains(start.creatures@[i].id));
                        }
                    }
                }
                results.push(AttackResult { target: target_id, check, damage });
            },
            None => {
                proof {
                    assert(!has_id(start.creatures@, target_id)) by {
                        if has_id(start.creatures@, target_id) {
                            let c = choose|c: int| 0 <= c < start.creatures@.len() && start.creatures@[c].id == target_id;
                            assert(layer.creatures@[c].id == target_id);
                        }
                    }
                    assert forall|i: int|
                        #![trigger layer.creatures@[i]]
                        0 <= i < start.creatures@.len() implies layer.creatures@[i].stats.current_hp == if next.contains(start.creatures@[i].id) {
                            changed_hp(
                                start.creatures@[i].stats.current_hp as int,
                                -hit_damage(start.creatures@, attacker as int, item_damage as int, i, rolls@[target_index(next, start.creatures@[i].id)]),
                                start.creatures@[i].stats.max_hp.effective_value(start.creatures@[i].stats.level as int),
                            )
                        } else {
                            start.creatures@[i].stats.current_hp as int
                        } by {
                        if next.contains(start.creatures@[i].id) && !done.contains(start.creatures@[i].id) {
                            let m = choose|m: int| 0 <= m < next.len() && next[m] == start.creatures@[i].id;
                            if m < k {
                                assert(done[m] == next[m]);
                            }
                        }
                    }
                }
            },
        }
        k = k + 1;
    }
    proof {
        assert(targets@.subrange(0, k as int) == targets@);
    }
    AttackMessage { attacker: attacker_id, item: item_id, results }
}

/// The item at `item_index` is active and, used by the creature at
/// `attacker` on `target`, the target is in range.
pub open spec fn attack_possible(layer: Layer, item_index: int, attacker: int, target: GridSquare) -> bool {
    let pos = layer.creatures@[attacker].position;
    match layer.items@[item_index].kind {
        ItemKind::Active(t) => within_reach(target, pos) && targeted_squares(target, t, pos) is Ok,
        ItemKind::Passive => false,
    }
}

/// The squares the attack covers.
pub open spec fn attack_squares(layer: Layer, item_index: int, attacker: int, target: GridSquare) -> Seq<GridSquare> {
    let pos = layer.creatures@[attacker].position;
    match layer.items@[item_index].kind {
        ItemKind::Active(t) => match targeted_squares(target, t, pos) {
            Ok(v) => v,
            Err(_) => Seq::empty(),
        },
        ItemKind::Passive => Seq::empty(),
    }
}

/// `message` narrates the attack from `before` to `after`: for some d20
/// roll per affected creature, one result per affected creature with its
/// check and damage, and each of them lost that damage.
pub open spec fn attack_done(
    before: Layer,
    after: Layer,
    item_index: int,
    attacker: int,
    target: GridSquare,
    message: MessageType,
) -> bool {
    let targets = affected_ids(before.creatures@, attack_squares(before, item_index, attacker, target));
    let damage = before.effects@[item_index].stat_value(EffectStat::Damage);
    match message {
        MessageType::Attack(m) => {
            &&& m.attacker == before.creatures@[attacker].id
            &&& m.item == before.items@[item_index].id
            &&& exists|rolls: Seq<i32>|
                #![trigger melee_results(before.creatures@, attacker, damage, targets, rolls)]
                rolls.len() == targets.len() && (forall|k: int|
                    0 <= k < rolls.len() ==> 1 <= #[trigger] rolls[k] <= 20) && m.results@
                    == melee_results(before.creatures@, attacker, damage, targets, rolls)
                    && hp_after_attack(
                    before.creatures@,
                    after.creatures@,
                    attacker,
                    damage,
                    targets,
                    rolls,
                )
        },
        _ => false,
    }
}

/// Uses the item at `item_index`, by the creature at `attacker`, on
/// `target`: a d20 melee attack roll against each living creature on the
/// targeted squares. Nothing happens, and `None` comes back, for a passive
/// item or a target out of range.
pub fn basic_melee_attack(item_index: usize, attacker: usize, target: GridSquare, layer: &mut Layer) -> (r:
    Option<EffectResult>)
    requires
        old(layer).wf(),
        item_index < old(layer).items@.len(),
        attacker < old(layer).creatures@.len(),
    ensures
        final(layer).wf(),
        same_but_hp(*old(layer), *final(layer)),
        r.is_some() == attack_possible(*old(layer), item_index as int, attacker as int, target),
        r is None ==> final(layer).creatures == old(layer).creatures,
        r matches Some(e) ==> e.ongoing_effect is None && attack_done(
            *old(layer),
            *final(layer),
            item_index as int,
            attacker as int,
            target,
            e.message,
        ),
{
    let target_kind = match get_target_kind(item_index, layer) {
        Some(t) => t,
        None => {
            return None;
        },
    };
    match layer.effects[item_index].kind {
        EffectKind::BasicMeleeAttack => {},
    }
    let actor_pos = layer.creatures[attacker].position;
    if !squares_within_reach(target, actor_pos) {
        return None;
    }
    let squares = match get_targeted_squares(target, target_kind, actor_pos) {
        Ok(v) => v,
        Err(_) => {
            return None;
        },
    };
    let item_damage = layer.effects[item_index].get_stat_value(EffectStat::Damage);
    let item_id = layer.items[item_index].id;
    let affected = get_affected_creatures(&squares, layer);
    let mut rolls: Vec<i32> = Vec::new();
    let mut k: usize = 0;
    while k < affected.len()
        invariant
            0 <= k <= affected@.len(),
            rolls@.len() == k,
            forall|m: int| 0 <= m < k ==> 1 <= #[trigger] rolls@[m] <= 20,
        decreases affected@.len() - k,
    {
        rolls.push(d20());
        k = k + 1;
    }
    let ghost before = *layer;
    let message = apply_melee_attack(layer, attacker, item_id, item_damage, &affected, &rolls);
    proof {
        let targets = affected_ids(before.creatures@, attack_squares(before, item_index as int, attacker as int, target));
        assert(affected@ == targets);
        assert(message.results@ == melee_results(before.creatures@, attacker as int, item_damage as int, targets, rolls@));
    }
    Some(EffectResult { ongoing_effect: None, message: MessageType::Attack(message) })
}

} // verus!
