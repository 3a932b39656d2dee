use crate::stat::{LevelScaling, Proficiency, Stat};
use vstd::prelude::*;

verus! {

/// Growth of hit points and damage per level: doubling every two levels,
/// in thousandths.
pub const DOUBLE_EVERY_TWO_LEVELS: u32 = 1414;

#[derive(Clone, Debug)]
pub struct Statistics {
    pub level: i32,
    pub current_hp: i32,
    pub max_hp: Stat,
    pub armor_class: Stat,
    pub fortitude_dc: Stat,
    pub reflex_dc: Stat,
    pub will_dc: Stat,
    pub melee_attack: Stat,
    pub ranged_attack: Stat,
    pub magic_attack: Stat,
    pub movement_speed: Stat,
    pub initiative: Stat,
    pub n_actions: Stat,
    pub inventory_slots: Stat,
}

impl Statistics {
    pub open spec fn wf(&self) -> bool {
        &&& self.max_hp.wf()
        &&& self.armor_class.wf()
        &&& self.fortitude_dc.wf()
        &&& self.reflex_dc.wf()
        &&& self.will_dc.wf()
        &&& self.melee_attack.wf()
        &&& self.ranged_attack.wf()
        &&& self.magic_attack.wf()
        &&& self.movement_speed.wf()
        &&& self.initiative.wf()
        &&& self.n_actions.wf()
        &&& self.inventory_slots.wf()
    }

    /// Level 1, moderate in everything, no hit points yet.
    pub fn get_default() -> (r: Self)
        ensures
            r.wf(),
            r.level == 1,
            r.current_hp == 0,
    {
        Self {
            level: 1,
            current_hp: 0,
            max_hp: new_hp(Proficiency::Moderate),
            armor_class: new_defense(Proficiency::Moderate),
            fortitude_dc: new_defense(Proficiency::Moderate),
            reflex_dc: new_defense(Proficiency::Moderate),
            will_dc: new_defense(Proficiency::Moderate),
            melee_attack: new_attack(Proficiency::Moderate),
            ranged_attack: new_attack(Proficiency::Moderate),
            magic_attack: new_attack(Proficiency::Moderate),
            movement_speed: new_speed(Proficiency::Moderate),
            initiative: new_initiative(Proficiency::Moderate),
            n_actions: new_actions(Proficiency::Moderate),
            inventory_slots: new_inventory(Proficiency::Moderate),
        }
    }
}

/// Five values, from extreme down to terrible proficiency.
pub open spec fn by_proficiency(prof: Proficiency, e: int, h: int, m: int, l: int, t: int) -> int {
    match prof {
        Proficiency::Extreme => e,
        Proficiency::High => h,
        Proficiency::Moderate => m,
        Proficiency::Low => l,
        Proficiency::Terrible => t,
    }
}

fn pick(prof: Proficiency, e: i32, h: i32, m: i32, l: i32, t: i32) -> (r: i32)
    ensures
        r == by_proficiency(prof, e as int, h as int, m as int, l as int, t as int),
{
    match prof {
        Proficiency::Extreme => e,
        Proficiency::High => h,
        Proficiency::Moderate => m,
        Proficiency::Low => l,
        Proficiency::Terrible => t,
    }
}

/// Attack bonus: +1 per level. With no attacker advantage, moderate attacks
/// hit a moderate defense of the same level 55% of the time.
pub fn new_attack(prof: Proficiency) -> (r: Stat)
    ensures
        r.wf(),
        r.spec_raw() == by_proficiency(prof, 4, 2, 0, -2, -4),
        r.spec_scaling() == LevelScaling::Linear(1),
        r.additive().len() == 0,
        r.multiplicative().len() == 0,
{
    let attacker_advantage: i32 = 0;
    Stat::new(attacker_advantage + pick(prof, 4, 2, 0, -2, -4), LevelScaling::Linear(1))
}

pub fn new_defense(prof: Proficiency) -> (r: Stat)
    ensures
        r.wf(),
        r.spec_raw() == 10 + by_proficiency(prof, 4, 2, 0, -2, -4),
        r.spec_scaling() == LevelScaling::Linear(1),
        r.additive().len() == 0,
        r.multiplicative().len() == 0,
{
    Stat::new(10 + pick(prof, 4, 2, 0, -2, -4), LevelScaling::Linear(1))
}

/// Hit points double every two levels.
pub fn new_hp(prof: Proficiency) -> (r: Stat)
    ensures
        r.wf(),
        r.spec_raw() == by_proficiency(prof, 16, 12, 8, 6, 4),
        r.spec_scaling() == LevelScaling::Exponential(DOUBLE_EVERY_TWO_LEVELS),
        r.additive().len() == 0,
        r.multiplicative().len() == 0,
{
    Stat::new(pick(prof, 16, 12, 8, 6, 4), LevelScaling::Exponential(DOUBLE_EVERY_TWO_LEVELS))
}

pub fn new_initiative(prof: Proficiency) -> (r: Stat)
    ensures
        r.wf(),
        r.spec_raw() == by_proficiency(prof, 4, 2, 0, -2, -4),
        r.spec_scaling() == LevelScaling::Linear(1),
        r.additive().len() == 0,
        r.multiplicative().len() == 0,
{
    Stat::new(pick(prof, 4, 2, 0, -2, -4), LevelScaling::Linear(1))
}

pub fn new_speed(prof: Proficiency) -> (r: Stat)
    ensures
        r.wf(),
        r.spec_raw() == by_proficiency(prof, 10, 7, 5, 4, 2),
        r.spec_scaling() == LevelScaling::NoScaling,
        r.additive().len() == 0,
        r.multiplicative().len() == 0,
{
    Stat::new(pick(prof, 10, 7, 5, 4, 2), LevelScaling::NoScaling)
}

pub fn new_inventory(prof: Proficiency) -> (r: Stat)
    ensures
        r.wf(),
        r.spec_raw() == by_proficiency(prof, 10, 6, 4, 2, 1),
        r.spec_scaling() == LevelScaling::NoScaling,
        r.additive().len() == 0,
        r.multiplicative().len() == 0,
{
    Stat::new(pick(prof, 10, 6, 4, 2, 1), LevelScaling::NoScaling)
}

pub fn new_actions(prof: Proficiency) -> (r: Stat)
    ensures
        r.wf(),
        r.spec_raw() == by_proficiency(prof, 5, 4, 3, 2, 1),
        r.spec_scaling() == LevelScaling::NoScaling,
        r.additive().len() == 0,
        r.multiplicative().len() == 0,
{
    Stat::new(pick(prof, 5, 4, 3, 2, 1), LevelScaling::NoScaling)
}

} // verus!
