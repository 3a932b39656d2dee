use crate::creature::statistics::Statistics;
use rand::Rng;
use vstd::prelude::*;

verus! {

/// Degree of success of a check.
#[derive(Clone, Copy, Debug, PartialEq, Eq, Structural)]
pub enum Outcome {
    CriticalSuccess,
    Success,
    Failure,
    CriticalFailure,
}

/// A d20 roll plus a modifier against a difficulty class.
#[derive(Clone, Copy, Debug, PartialEq, Eq, Structural)]
pub struct Check {
    pub roll: i32,
    pub modifier: i32,
    pub dc: i32,
    pub outcome: Outcome,
}

impl Check {
    pub fn new(roll: i32, modifier: i32, dc: i32, outcome: Outcome) -> (r: Self)
        ensures
            r == (Check { roll, modifier, dc, outcome }),
    {
        Self { roll, modifier, dc, outcome }
    }
}

/// The four bands of success around a difficulty class.
pub open spec fn outcome_of(result: int, dc: int) -> Outcome {
    if result >= dc + 10 {
        Outcome::CriticalSuccess
    } else if result >= dc {
        Outcome::Success
    } else if result > dc - 10 {
        Outcome::Failure
    } else {
        Outcome::CriticalFailure
    }
}

fn outcome_for(result: i64, dc: i32) -> (r: Outcome)
    requires
        -0x1_0000_0000 <= result <= 0x1_0000_0000,
    ensures
        r == outcome_of(result as int, dc as int),
{
    let dc = dc as i64;
    if result >= dc + 10 {
        Outcome::CriticalSuccess
    } else if result >= dc {
        Outcome::Success
    } else if result > dc - 10 {
        Outcome::Failure
    } else {
        Outcome::CriticalFailure
    }
}

pub fn get_outcome(result: i32, dc: i32) -> (r: Outcome)
    ensures
        r == outcome_of(result as int, dc as int),
        (r == Outcome::CriticalSuccess) == (result >= dc + 10),
        (r == Outcome::Success) == (dc <= result < dc + 10),
        (r == Outcome::Failure) == (dc - 10 < result < dc),
        (r == Outcome::CriticalFailure) == (result <= dc - 10),
{
    outcome_for(result as i64, dc)
}

/// Damage multiplier of an attack with the given outcome.
pub open spec fn spec_damage_multiplier(outcome: Outcome) -> int {
    match outcome {
        Outcome::CriticalSuccess => 2,
        Outcome::Success => 1,
        _ => 0,
    }
}

pub fn damage_multiplier(outcome: Outcome) -> (r: i32)
    ensures
        r == spec_damage_multiplier(outcome),
        0 <= r <= 2,
{
    match outcome {
        Outcome::CriticalSuccess => 2,
        Outcome::Success => 1,
        _ => 0,
    }
}

/// The check of a melee attack for a given d20 roll: the attacker's melee
/// attack against the defender's armor class, both at their own level.
pub open spec fn spec_melee_check(roll: int, att: Statistics, def: Statistics) -> Check {
    let modifier = att.melee_attack.effective_value(att.level as int);
    let dc = def.armor_class.effective_value(def.level as int);
    Check {
        roll: roll as i32,
        modifier: modifier as i32,
        dc: dc as i32,
        outcome: outcome_of(roll + modifier, dc),
    }
}

pub fn melee_attack_check(roll: i32, att_stats: &Statistics, def_stats: &Statistics) -> (r: Check)
    requires
        1 <= roll <= 20,
        att_stats.wf(),
        def_stats.wf(),
    ensures
        r == spec_melee_check(roll as int, *att_stats, *def_stats),
{
    let attack_bonus = att_stats.melee_attack.get_value(att_stats.level);
    let ac = def_stats.armor_class.get_value(def_stats.level);
    let outcome = outcome_for(roll as i64 + attack_bonus as i64, ac);
    Check::new(roll, attack_bonus, ac, outcome)
}

/// Rolls a d20 and makes the melee attack check with it.
pub fn melee_attack_roll(att_stats: &Statistics, def_stats: &Statistics) -> (r: Check)
    requires
        att_stats.wf(),
        def_stats.wf(),
    ensures
        1 <= r.roll <= 20,
        r == spec_melee_check(r.roll as int, *att_stats, *def_stats),
{
    let roll = d20();
    melee_attack_check(roll, att_stats, def_stats)
}

/// Relies on rand's `Rng::gen_range` over `1..=20` with the thread-local
/// generator: a roll from 1 to 20.
#[verifier::external_body]
pub fn d20() -> (r: i32)
    ensures
        1 <= r <= 20,
{
    rand::thread_rng().gen_range(1..=20)
}

} // verus!
