use crate::grid::GridSquare;
use crate::info_message::MessageType;
use crate::item::statistics::Statistics;
use crate::random::random_id;
use vstd::prelude::*;

verus! {

#[derive(Clone, Copy, Debug, PartialEq, Eq, Structural)]
pub enum Duration {
    Instantaneous,
    Temporary(i32),
    Permanent,
}

/// An effect still active on the layer.
#[derive(Clone, Copy, Debug, PartialEq, Eq, Structural)]
pub struct OngoingEffect {
    pub effect: u128,
    pub owner: u128,
    pub target: GridSquare,
    pub remaining_duration: Duration,
    pub id: u128,
}

impl OngoingEffect {
    /// An ongoing effect with a fresh random id.
    pub fn new(effect: u128, owner: u128, target: GridSquare, duration: Duration) -> (r: Self)
        ensures
            r.effect == effect,
            r.owner == owner,
            r.target == target,
            r.remaining_duration == duration,
    {
        Self { effect, id: random_id(), owner, target, remaining_duration: duration }
    }

    pub fn get_id(&self) -> (r: u128)
        ensures
            r == self.id,
    {
        self.id
    }
}

pub struct EffectResult {
    pub ongoing_effect: Option<OngoingEffect>,
    pub message: MessageType,
}

/// What an effect does when its item is used.
#[derive(Clone, Copy, Debug, PartialEq, Eq, Structural)]
pub enum EffectKind {
    /// A melee attack roll against each living creature on the targeted
    /// squares, dealing the effect's damage times the outcome's multiplier.
    BasicMeleeAttack,
}

/// The numbers an effect can ask for.
#[derive(Clone, Copy, Debug, PartialEq, Eq, Structural)]
pub enum EffectStat {
    Damage,
}

/// The executable side of an item.
#[derive(Clone, Debug)]
pub struct Effect {
    pub duration: Duration,
    pub stats: Statistics,
    pub kind: EffectKind,
    pub id: u128,
}

impl Effect {
    /// An effect with a fresh random id.
    pub fn new(duration: Duration, stats: Statistics, kind: EffectKind) -> (r: Self)
        ensures
            r.duration == duration,
            r.stats == stats,
            r.kind == kind,
    {
        Self { duration, stats, kind, id: random_id() }
    }

    pub open spec fn stat_value(&self, stat: EffectStat) -> int {
        match stat {
            EffectStat::Damage => self.stats.damage.effective_value(
                self.stats.level + crate::item::statistics::rarity_bonus(self.stats.rarity),
            ),
        }
    }

    /// The value of `stat` at the effect's level.
    pub fn get_stat_value(&self, stat: EffectStat) -> (r: i32)
        requires
            self.stats.wf(),
        ensures
            r == self.stat_value(stat),
    {
        let level = self.stats.get_level();
        match stat {
            EffectStat::Damage => self.stats.damage.get_value(level),
        }
    }

    pub fn get_id(&self) -> (r: u128)
        ensures
            r == self.id,
    {
        self.id
    }
}

} // verus!
