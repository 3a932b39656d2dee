use luola::ai::{Behavior, AI};
use luola::check::{d20, damage_multiplier, get_outcome, melee_attack_check, Outcome};
use luola::constants::get_version;
use luola::creature::action::{execute, is_valid, Action, ActionError, MoveAction, UseItemAction};
use luola::creature::inventory::Inventory;
use luola::creature::perception::{update_all_observations, Awareness, Perception};
use luola::creature::statistics::{new_hp, Statistics};
use luola::creature::Creature;
use luola::gameplay::{someone_alerted, GameplayMode, Round};
use luola::grid::{GridSquare, Tile};
use luola::info_message::MessageType;
use luola::initiative::Initiative;
use luola::item::effect::{Duration, Effect, EffectKind};
use luola::item::statistics::{new_single_target_damage, Rarity};
use luola::item::targeting::{SquareParams, TargetKind};
use luola::item::{Item, ItemKind};
use luola::messages::{join_accepted, Header, JoinMsg};
use luola::stat::{LevelScaling, Proficiency, Stat};
use luola::terminal::{
    clear_screen, hide_cursor, is_bright, set_background_color, set_cursor_position,
    set_foreground_color, show_cursor, use_alternate_screen_buffer, use_main_screen_buffer, Color,
};
use luola::world::Layer;

fn creature_at(layer: &mut Layer, y: i32, x: i32, wander: Behavior, combat: Behavior) -> u128 {
    let c = Creature::new(String::from("c"), GridSquare { y, x }, Statistics::get_default());
    let id = c.get_id();
    layer.add_creature(c, AI::new(id, wander, combat));
    id
}

fn index_of(layer: &Layer, id: u128) -> usize {
    layer.find_creature(id).unwrap()
}

#[test]
fn stat_modifiers_compose() {
    let mut stat = Stat::new(10, LevelScaling::NoScaling);
    stat.apply_additive_modifier(1, 5);
    stat.apply_additive_modifier(2, -2);
    stat.apply_multiplicative_modifier(3, 1200);
    for level in [-1, 0, 1, 7, 20] {
        assert_eq!(stat.get_value(level), 15);
    }
    assert!(stat.is_modified());
    stat.remove_modifier(1);
    assert_eq!(stat.get_value(3), 9);
}

#[test]
fn stat_modifier_reapplied_by_same_source_replaces() {
    let mut stat = Stat::new(4, LevelScaling::Linear(2));
    assert_eq!(stat.get_value(3), 10);
    assert_eq!(stat.get_value_without_modifiers(3), 10);
    assert!(!stat.is_modified());
    stat.apply_additive_modifier(9, 3);
    stat.apply_additive_modifier(9, 1);
    assert_eq!(stat.get_total_additive_modifier(), 1);
    assert_eq!(stat.get_value(3), 11);
    assert_eq!(stat.get_raw_value(), 4);
    stat.remove_modifier(9);
    assert!(!stat.is_modified());
}

#[test]
fn stat_multiplicative_total_is_exact() {
    let mut stat = Stat::new(100, LevelScaling::NoScaling);
    stat.apply_multiplicative_modifier(1, 1500);
    stat.apply_multiplicative_modifier(2, 500);
    assert_eq!(stat.get_total_multiplicative_modifier(), Some((750000, 1000000)));
    assert_eq!(stat.get_value(1), 75);
}

#[test]
fn stat_takes_any_number_of_modifiers() {
    let mut stat = Stat::new(0, LevelScaling::NoScaling);
    for id in 0..20u128 {
        stat.apply_additive_modifier(id, 1);
        stat.apply_multiplicative_modifier(id, 1000);
    }
    stat.apply_additive_modifier(3, 10);
    assert_eq!(stat.get_value(0), 29);
    // Twenty factors of one: the exact product no longer fits, each factor
    // is applied in turn.
    assert_eq!(stat.get_total_multiplicative_modifier(), None);
    assert!(stat.is_modified());
}

#[test]
fn stat_exponential_scaling_is_exact() {
    let hp = new_hp(Proficiency::Moderate);
    // Level 1 is three levels above the lowest level minus one:
    // 8 * 1.414^3 = 22.6.
    assert_eq!(hp.get_value(1), 22);
    assert_eq!(hp.get_value(-1), 11);
    let half_again = Stat::new(1, LevelScaling::Exponential(1500));
    assert_eq!(half_again.get_value(0), 2);
    assert_eq!(half_again.get_value_without_modifiers(0), 2);
    let big = Stat::new(1000, LevelScaling::Exponential(2000));
    assert_eq!(big.get_value(100), i32::MAX);
}

#[test]
fn outcome_bands() {
    assert!(matches!(get_outcome(25, 15), Outcome::CriticalSuccess));
    assert!(matches!(get_outcome(24, 15), Outcome::Success));
    assert!(matches!(get_outcome(15, 15), Outcome::Success));
    assert!(matches!(get_outcome(14, 15), Outcome::Failure));
    assert!(matches!(get_outcome(6, 15), Outcome::Failure));
    assert!(matches!(get_outcome(5, 15), Outcome::CriticalFailure));
    assert!(matches!(get_outcome(i32::MIN, i32::MAX), Outcome::CriticalFailure));
    assert_eq!(damage_multiplier(Outcome::CriticalSuccess), 2);
    assert_eq!(damage_multiplier(Outcome::Success), 1);
    assert_eq!(damage_multiplier(Outcome::Failure), 0);
    assert_eq!(damage_multiplier(Outcome::CriticalFailure), 0);
}

#[test]
fn melee_check_adds_attack_to_roll() {
    let stats = Statistics::get_default();
    // Moderate attack at level 1 is +1, moderate armor class at level 1 is 11.
    let check = melee_attack_check(19, &stats, &stats);
    assert_eq!(check.roll, 19);
    assert_eq!(check.modifier, 1);
    assert_eq!(check.dc, 11);
    assert!(matches!(check.outcome, Outcome::Success));
    assert!(matches!(melee_attack_check(20, &stats, &stats).outcome, Outcome::CriticalSuccess));
    assert!(matches!(melee_attack_check(1, &stats, &stats).outcome, Outcome::Failure));
}

#[test]
fn d20_stays_in_range() {
    for _ in 0..200 {
        let r = d20();
        assert!((1..=20).contains(&r));
    }
}

#[test]
fn inventory_slots() {
    let mut inv = Inventory::new(2);
    assert_eq!(inv.len(), 2);
    assert!(inv.valid_slot(1));
    assert!(!inv.valid_slot(2));
    assert_eq!(inv.get_item(0), None);
    assert_eq!(inv.replace_item(0, 7), None);
    assert_eq!(inv.replace_item(0, 8), Some(7));
    assert_eq!(inv.get_item(0), Some(8));
    assert_eq!(inv.get_item(5), None);
    assert_eq!(inv.drop_item(0), Some(8));
    assert_eq!(inv.get_item(0), None);
}

#[test]
fn creature_hp_is_clamped() {
    let mut c = Creature::new(String::from("a"), GridSquare { y: 0, x: 0 }, Statistics::get_default());
    let max = c.stats.max_hp.get_value(c.stats.level);
    assert_eq!(c.stats.current_hp, max);
    assert!(c.is_alive());
    c.change_hp(-5);
    assert_eq!(c.stats.current_hp, max - 5);
    c.change_hp(1000);
    assert_eq!(c.stats.current_hp, max);
    c.change_hp(-1000);
    assert_eq!(c.stats.current_hp, 0);
    assert!(!c.is_alive());
    assert_eq!(c.inventory.len(), 4);
    let other = Creature::new(String::from("b"), GridSquare { y: 0, x: 0 }, Statistics::get_default());
    assert_ne!(c.get_id(), other.get_id());
}

#[test]
fn ai_override_and_restore() {
    let mut ai = AI::new(5, Behavior::Wandering, Behavior::MeleeBrute);
    assert_eq!(ai.get_wander_behavior(), Behavior::Wandering);
    assert_eq!(ai.get_combat_behavior(), Behavior::MeleeBrute);
    assert!(!ai.is_player_controlled());
    ai.set_override_behavior(Behavior::PlayerControlled(42));
    assert_eq!(ai.get_wander_behavior(), Behavior::PlayerControlled(42));
    assert_eq!(ai.get_controlling_player_id(), Some(42));
    assert!(ai.is_player_controlled());
    ai.restore_default_behavior();
    assert_eq!(ai.get_combat_behavior(), Behavior::MeleeBrute);
    assert_eq!(ai.get_controlling_player_id(), None);
}

#[test]
fn move_validation_reasons() {
    let mut layer = Layer::new(20, 20);
    layer.grid.set_tile(GridSquare { y: 1, x: 2 }, Tile::Wall);
    let actor = creature_at(&mut layer, 2, 2, Behavior::Inactive, Behavior::Inactive);
    creature_at(&mut layer, 2, 3, Behavior::Inactive, Behavior::Inactive);
    let a = layer.creatures[index_of(&layer, actor)].clone();
    let mv = |y: i32, x: i32| Action::Move(MoveAction { destination: GridSquare { y, x } });
    let none: Vec<Action> = Vec::new();
    assert_eq!(is_valid(&mv(-1, 0), &none, &a, &layer), Err(ActionError::OutsideGrid));
    assert_eq!(is_valid(&mv(1, 2), &none, &a, &layer), Err(ActionError::InsideWall));
    assert_eq!(is_valid(&mv(2, 3), &none, &a, &layer), Err(ActionError::Occupied));
    assert_eq!(is_valid(&mv(2, 15), &none, &a, &layer), Err(ActionError::Unreachable));
    assert_eq!(is_valid(&mv(2, 2), &none, &a, &layer), Ok(()));
    assert_eq!(is_valid(&mv(4, 4), &none, &a, &layer), Ok(()));
    assert_eq!(is_valid(&Action::Idle, &none, &a, &layer), Ok(()));
}

#[test]
fn item_use_validation_and_dead_actor() {
    let mut layer = Layer::new(5, 5);
    let actor = creature_at(&mut layer, 0, 0, Behavior::Inactive, Behavior::Inactive);
    let mut a = layer.creatures[index_of(&layer, actor)].clone();
    let none: Vec<Action> = Vec::new();
    let use_slot = |slot: usize| {
        Action::UseItem(UseItemAction { inventory_slot: slot, target: GridSquare { y: 0, x: 1 } })
    };
    assert_eq!(is_valid(&use_slot(9), &none, &a, &layer), Err(ActionError::NoSuchSlot(9)));
    assert_eq!(is_valid(&use_slot(0), &none, &a, &layer), Err(ActionError::EmptySlot(0)));
    a.inventory.replace_item(0, 3);
    assert_eq!(is_valid(&use_slot(0), &none, &a, &layer), Ok(()));
    a.change_hp(-1000);
    assert_eq!(is_valid(&Action::Idle, &none, &a, &layer), Err(ActionError::CreatureDead));
}

#[test]
fn execute_move_and_attack() {
    let mut layer = Layer::new(5, 5);
    let attacker = creature_at(&mut layer, 0, 0, Behavior::Inactive, Behavior::Inactive);
    let defender = creature_at(&mut layer, 0, 2, Behavior::Inactive, Behavior::Inactive);
    let moved = execute(&Action::Move(MoveAction { destination: GridSquare { y: 0, x: 1 } }), attacker, &mut layer);
    assert!(moved.is_none());
    assert_eq!(layer.creatures[index_of(&layer, attacker)].get_position(), GridSquare { y: 0, x: 1 });

    let stats = luola::item::statistics::Statistics::new(1, Rarity::Common, new_single_target_damage(Proficiency::High));
    let item = Item::new(
        String::from("sword"),
        String::from("sharp"),
        ItemKind::Active(TargetKind::Square(SquareParams { range: 1 })),
    );
    let item_id = item.get_id();
    layer.add_item(item, Effect::new(Duration::Instantaneous, stats, EffectKind::BasicMeleeAttack));
    let i = index_of(&layer, attacker);
    layer.creatures[i].inventory.replace_item(0, item_id);
    let before = layer.creatures[index_of(&layer, defender)].stats.current_hp;
    let action = Action::UseItem(UseItemAction { inventory_slot: 0, target: GridSquare { y: 0, x: 2 } });
    match execute(&action, attacker, &mut layer) {
        Some(MessageType::Attack(m)) => {
            assert_eq!(m.attacker, attacker);
            assert_eq!(m.results.len(), 1);
            assert_eq!(m.results[0].target, defender);
            let after = layer.creatures[index_of(&layer, defender)].stats.current_hp;
            assert_eq!(after, (before - m.results[0].damage).max(0));
        }
        _ => panic!("expected an attack message"),
    }
}

#[test]
fn perception_and_awareness() {
    let mut layer = Layer::new(10, 10);
    let player = creature_at(&mut layer, 0, 0, Behavior::Inactive, Behavior::Inactive);
    let monster = creature_at(&mut layer, 0, 3, Behavior::Wandering, Behavior::MeleeBrute);
    let far = creature_at(&mut layer, 9, 9, Behavior::Wandering, Behavior::MeleeBrute);
    let p = index_of(&layer, player);
    layer.creature_ai[p].set_override_behavior(Behavior::PlayerControlled(77));
    assert!(!someone_alerted(&layer));
    update_all_observations(&mut layer, 0);
    let m = index_of(&layer, monster);
    let f = index_of(&layer, far);
    assert_eq!(layer.creature_ai[m].perception.get_awareness(), Awareness::Combat);
    assert_eq!(layer.creature_ai[m].perception.get_hostile_observations().len(), 1);
    assert_eq!(layer.creature_ai[f].perception.get_awareness(), Awareness::Wander);
    assert!(someone_alerted(&layer));
    // Observations are forgotten after their lifetime.
    layer.creatures[p].set_position(&GridSquare { y: 9, x: 0 });
    update_all_observations(&mut layer, 3);
    assert_eq!(layer.creature_ai[m].perception.get_awareness(), Awareness::Combat);
    update_all_observations(&mut layer, 8);
    assert_eq!(layer.creature_ai[m].perception.get_awareness(), Awareness::Wander);
    let fresh = Perception::new(3);
    assert_eq!(fresh.get_awareness(), Awareness::Wander);
    assert!(fresh.get_friendly_observations().is_empty());
}

#[test]
fn initiative_orders_by_roll_and_keeps_ties() {
    let init = Initiative::from_rolls(&vec![(5, 1), (12, 2), (5, 3), (20, 4), (12, 5)]);
    assert_eq!(init.entries(), vec![(20, 4), (12, 2), (12, 5), (5, 1), (5, 3)]);
    let mut init = init;
    init.remove(2);
    assert_eq!(init.entries(), vec![(20, 4), (12, 5), (5, 1), (5, 3)]);
}

#[test]
fn initiative_ties_are_fair() {
    let n: u128 = 4;
    let trials = 4000;
    let mut first = [0usize; 4];
    for _ in 0..trials {
        let rolls: Vec<(i32, u128)> = (0..n).map(|id| (10, id)).collect();
        let init = Initiative::shuffle_and_order(rolls);
        first[init.entries()[0].1 as usize] += 1;
    }
    for count in first {
        let share = count as f64 / trials as f64;
        assert!((share - 0.25).abs() < 0.05, "share {}", share);
    }
}

#[test]
fn initiative_cohorts() {
    let mut layer = Layer::new(10, 10);
    let player = creature_at(&mut layer, 0, 0, Behavior::Inactive, Behavior::Inactive);
    let monster = creature_at(&mut layer, 9, 9, Behavior::Wandering, Behavior::MeleeBrute);
    let p = index_of(&layer, player);
    layer.creature_ai[p].set_override_behavior(Behavior::PlayerControlled(1));
    let init = Initiative::roll_initiative(&layer);
    assert_eq!(init.entries().len(), 2);
    let aware = init.get_aware(&layer);
    let wandering = init.get_wandering(&layer);
    assert_eq!(aware.len(), 1);
    assert_eq!(aware[0].1, player);
    assert_eq!(wandering.len(), 1);
    assert_eq!(wandering[0].1, monster);
}

#[test]
fn player_alert_turns_exploration_into_combat() {
    let aware = vec![(20, 1), (10, 2)];
    let wandering = vec![(5, 3)];
    let mut round = Round::new(GameplayMode::Exploration, &aware, &wandering);
    assert_eq!(round.current_actor(), Some(1));
    round.record_action(true, false, true);
    assert_eq!(round.outcome(), Some(GameplayMode::Combat));
    assert_eq!(round.current_actor(), None);
}

#[test]
fn wandering_alert_waits_for_round_end() {
    let aware = vec![(20, 1)];
    let wandering = vec![(9, 2), (5, 3)];
    let mut round = Round::new(GameplayMode::Exploration, &aware, &wandering);
    round.record_action(true, false, false);
    round.record_action(true, false, false);
    assert_eq!(round.current_actor(), Some(2));
    round.record_action(false, true, true);
    assert_eq!(round.current_actor(), Some(3));
    assert_eq!(round.outcome(), None);
    round.record_action(false, false, true);
    round.record_action(false, false, true);
    assert_eq!(round.outcome(), Some(GameplayMode::Combat));
}

#[test]
fn combat_ends_when_no_one_is_alerted() {
    let aware = vec![(20, 1), (10, 2)];
    let none: Vec<(i32, u128)> = Vec::new();
    let mut round = Round::new(GameplayMode::Combat, &aware, &none);
    round.record_action(true, false, true);
    assert_eq!(round.current_actor(), Some(1));
    round.record_action(true, false, true);
    assert_eq!(round.current_actor(), Some(2));
    round.record_action(false, false, false);
    round.record_action(false, false, false);
    assert_eq!(round.outcome(), Some(GameplayMode::Exploration));
    let empty = Round::new(GameplayMode::Exploration, &none, &none);
    assert_eq!(empty.outcome(), Some(GameplayMode::Exploration));
}

#[test]
fn wandering_ai_moves_within_reach() {
    let mut layer = Layer::new(10, 10);
    let id = creature_at(&mut layer, 5, 5, Behavior::Wandering, Behavior::Inactive);
    let i = index_of(&layer, id);
    for _ in 0..20 {
        let action = luola::ai::act(&layer.creature_ai[i], &layer);
        let none: Vec<Action> = Vec::new();
        assert_eq!(is_valid(&action, &none, &layer.creatures[i], &layer), Ok(()));
        assert!(matches!(action, Action::Move(_)));
    }
    let idle = creature_at(&mut layer, 0, 0, Behavior::Inactive, Behavior::Inactive);
    let j = index_of(&layer, idle);
    assert_eq!(luola::ai::act(&layer.creature_ai[j], &layer), Action::Idle);
}

#[test]
fn messages_and_versions() {
    assert_eq!(Header::new(17).payload_len, 17);
    assert_eq!(get_version(), "0.1.0");
    let ok = JoinMsg { version: String::from("0.1.0"), character_name: String::from("x") };
    let old = JoinMsg { version: String::from("0.0.9"), character_name: String::from("x") };
    assert!(join_accepted(&ok));
    assert!(!join_accepted(&old));
}

#[test]
fn ansi_sequences() {
    assert_eq!(clear_screen(), "\x1b[2J");
    assert_eq!(use_alternate_screen_buffer(), "\x1b[?1049h");
    assert_eq!(use_main_screen_buffer(), "\x1b[?1049l");
    assert_eq!(hide_cursor(), "\x1b[?25l");
    assert_eq!(show_cursor(), "\x1b[?25h");
    assert_eq!(set_cursor_position(12, 305), "\x1b[12;305H");
    assert!(is_bright(Color::BrightCyan));
    assert!(!is_bright(Color::Cyan));
    assert_eq!(set_foreground_color(Color::Red), "\x1b[31m");
    assert_eq!(set_foreground_color(Color::BrightRed), "\x1b[91m");
    assert_eq!(set_background_color(Color::Blue), "\x1b[44m");
    assert_eq!(set_background_color(Color::BrightWhite), "\x1b[107m");
    assert_eq!(set_foreground_color(Color::RGB(255, 0, 17)), "\x1b[38;2;255;0;17m");
}

#[test]
fn test_creature_and_item_builders() {
    let c = luola::creature::creature_types::create_testcreature(3, GridSquare { y: 1, x: 2 });
    assert_eq!(c.get_position(), GridSquare { y: 1, x: 2 });
    assert_eq!(c.stats.level, 3);
    assert_eq!(c.stats.current_hp, c.stats.max_hp.get_value(3));
    let (item, effect) = luola::item::item_types::create_testitem(2, Rarity::Rare);
    assert_eq!(item.get_max_effective_range(), Some(100));
    assert_eq!(effect.stats.get_level(), 4);
    // High single-target damage, 6, times 1.414^(4 - (-1) + 1) = 47.96.
    assert_eq!(effect.get_stat_value(luola::item::effect::EffectStat::Damage), 47);
}

#[test]
fn perception_skips_the_observer_itself() {
    let mut layer = Layer::new(10, 10);
    let monster = creature_at(&mut layer, 0, 3, Behavior::Wandering, Behavior::MeleeBrute);
    update_all_observations(&mut layer, 0);
    let m = index_of(&layer, monster);
    assert!(layer.creature_ai[m].perception.get_friendly_observations().is_empty());
    assert!(layer.creature_ai[m].perception.get_hostile_observations().is_empty());
}

#[test]
fn melee_brute_attacks_in_range_and_charges_otherwise() {
    let mut layer = Layer::new(20, 20);
    let player = creature_at(&mut layer, 0, 0, Behavior::Inactive, Behavior::Inactive);
    let brute = creature_at(&mut layer, 0, 1, Behavior::MeleeBrute, Behavior::MeleeBrute);
    let p = index_of(&layer, player);
    layer.creature_ai[p].set_override_behavior(Behavior::PlayerControlled(5));
    let (item, effect) = luola::item::item_types::create_testitem(1, Rarity::Common);
    let item_id = item.get_id();
    layer.add_item(item, effect);
    let b = index_of(&layer, brute);
    layer.creatures[b].inventory.replace_item(0, item_id);
    update_all_observations(&mut layer, 0);
    let action = luola::ai::act(&layer.creature_ai[b], &layer);
    assert_eq!(
        action,
        Action::UseItem(UseItemAction { inventory_slot: 0, target: GridSquare { y: 0, x: 0 } })
    );
}

#[test]
fn walled_in_wanderer_stays_idle() {
    let mut layer = Layer::new(3, 3);
    for (y, x) in [(0, 0), (0, 1), (0, 2), (1, 0), (1, 2), (2, 0), (2, 1), (2, 2)] {
        layer.grid.set_tile(GridSquare { y, x }, Tile::Wall);
    }
    let id = creature_at(&mut layer, 1, 1, Behavior::Wandering, Behavior::Inactive);
    let i = index_of(&layer, id);
    // Its own square is the only one within reach.
    assert_eq!(
        luola::ai::act(&layer.creature_ai[i], &layer),
        Action::Move(MoveAction { destination: GridSquare { y: 1, x: 1 } })
    );
}

#[test]
fn mode_changes_roll_initiative_anew() {
    assert_eq!(luola::gameplay::mode_step(GameplayMode::Start, GameplayMode::Exploration), (GameplayMode::Exploration, true));
    assert_eq!(luola::gameplay::mode_step(GameplayMode::Combat, GameplayMode::Combat), (GameplayMode::Combat, false));
}
