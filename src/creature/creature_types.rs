use crate::creature::statistics::{new_attack, new_defense, new_hp, Statistics};
use crate::creature::Creature;
use crate::grid::GridSquare;
use crate::stat::Proficiency;
use vstd::prelude::*;

verus! {

/// A creature of the given level, tough and good at melee, weak in magic.
pub fn create_testcreature(level: i32, position: GridSquare) -> (r: Creature)
    ensures
        r.position == position,
        r.stats.level == level,
        r.stats.wf(),
        r.stats.current_hp == r.stats.max_hp.effective_value(level as int),
{
    let name = String::from_str("testcreature");
    let mut stats = Statistics::get_default();
    stats.level = level;
    stats.max_hp = new_hp(Proficiency::High);
    stats.fortitude_dc = new_defense(Proficiency::High);
    stats.will_dc = new_defense(Proficiency::Low);
    stats.melee_attack = new_attack(Proficiency::High);
    stats.magic_attack = new_attack(Proficiency::Terrible);
    Creature::new(name, position, stats)
}

} // verus!
