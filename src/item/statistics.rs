use crate::creature::statistics::DOUBLE_EVERY_TWO_LEVELS;
use crate::stat::{LevelScaling, Proficiency, Stat};
use vstd::prelude::*;

verus! {

#[derive(Clone, Copy, Debug, PartialEq, Eq, Structural)]
pub enum Rarity {
    Common,
    Uncommon,
    Rare,
    VeryRare,
    Legendary,
}

pub open spec fn rarity_bonus(rarity: Rarity) -> int {
    match rarity {
        Rarity::Common => 0,
        Rarity::Uncommon => 1,
        Rarity::Rare => 2,
        Rarity::VeryRare => 3,
        Rarity::Legendary => 4,
    }
}

/// Numbers of an item's effect; its level counts the rarity as extra levels.
#[derive(Clone, Debug)]
pub struct Statistics {
    pub rarity: Rarity,
    pub damage: Stat,
    pub level: i32,
}

impl Statistics {
    pub open spec fn wf(&self) -> bool {
        self.damage.wf() && self.level <= i32::MAX - 4
    }

    pub fn new(level: i32, rarity: Rarity, damage: Stat) -> (r: Self)
        ensures
            r.level == level,
            r.rarity == rarity,
            r.damage == damage,
    {
        Self { level, rarity, damage }
    }

    pub fn get_raw_level(&self) -> (r: i32)
        ensures
            r == self.level,
    {
        self.level
    }

    pub fn get_level(&self) -> (r: i32)
        requires
            self.wf(),
        ensures
            r == self.level + rarity_bonus(self.rarity),
    {
        let modifier: i32 = match self.rarity {
            Rarity::Common => 0,
            Rarity::Uncommon => 1,
            Rarity::Rare => 2,
            Rarity::VeryRare => 3,
            Rarity::Legendary => 4,
        };
        self.level + modifier
    }
}

/// Damage doubles every two levels.
pub fn new_single_target_damage(prof: Proficiency) -> (r: Stat)
    ensures
        r.wf(),
        r.spec_raw() == crate::creature::statistics::by_proficiency(prof, 8, 6, 4, 3, 2),
        r.spec_scaling() == LevelScaling::Exponential(DOUBLE_EVERY_TWO_LEVELS),
{
    let raw: i32 = match prof {
        Proficiency::Extreme => 8,
        Proficiency::High => 6,
        Proficiency::Moderate => 4,
        Proficiency::Low => 3,
        Proficiency::Terrible => 2,
    };
    Stat::new(raw, LevelScaling::Exponential(DOUBLE_EVERY_TWO_LEVELS))
}

pub fn new_area_damage(prof: Proficiency) -> (r: Stat)
    ensures
        r.wf(),
        r.spec_raw() == crate::creature::statistics::by_proficiency(prof, 6, 4, 3, 2, 1),
        r.spec_scaling() == LevelScaling::Exponential(DOUBLE_EVERY_TWO_LEVELS),
{
    let raw: i32 = match prof {
        Proficiency::Extreme => 6,
        Proficiency::High => 4,
        Proficiency::Moderate => 3,
        Proficiency::Low => 2,
        Proficiency::Terrible => 1,
    };
    Stat::new(raw, LevelScaling::Exponential(DOUBLE_EVERY_TWO_LEVELS))
}

} // verus!
