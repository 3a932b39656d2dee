use crate::creature::inventory::Inventory;
use crate::creature::statistics::Statistics;
use crate::grid::GridSquare;
use crate::random::random_id;
use vstd::prelude::*;

pub mod action;
pub mod creature_types;
pub mod inventory;
pub mod perception;
pub mod statistics;

verus! {

/// Hit points after a change of `amount`, kept within `[0, max_hp]`.
pub open spec fn changed_hp(current: int, amount: int, max_hp: int) -> int {
    let v = current + amount;
    if v < 0 {
        0
    } else if v > max_hp {
        max_hp
    } else {
        v
    }
}

#[derive(Clone, Debug)]
pub struct Creature {
    pub name: String,
    pub stats: Statistics,
    pub inventory: Inventory,
    pub id: u128,
    pub position: GridSquare,
}

impl Creature {
    pub open spec fn spec_id(&self) -> u128 {
        self.id
    }

    pub open spec fn spec_position(&self) -> GridSquare {
        self.position
    }

    /// Alive while it has hit points left.
    pub open spec fn spec_alive(&self) -> bool {
        self.stats.current_hp > 0
    }

    /// A creature with a fresh random id, full hit points and as many empty
    /// inventory slots as its stats give (none if they give a negative count).
    pub fn new(name: String, position: GridSquare, stats: Statistics) -> (r: Self)
        requires
            stats.wf(),
        ensures
            r.name == name,
            r.spec_position() == position,
            r.stats.wf(),
            r.stats.level == stats.level,
            r.stats.current_hp == stats.max_hp.effective_value(stats.level as int),
            r.stats.max_hp == stats.max_hp,
            r.stats.movement_speed == stats.movement_speed,
            r.stats.melee_attack == stats.melee_attack,
            r.stats.armor_class == stats.armor_class,
            r.inventory.slots().len() == (if stats.inventory_slots.effective_value(stats.level as int) < 0 {
                0
            } else {
                stats.inventory_slots.effective_value(stats.level as int)
            }),
    {
        let mut stats = stats;
        let slots = stats.inventory_slots.get_value(stats.level);
        let inventory_slots: usize = if slots < 0 {
            0
        } else {
            slots as usize
        };
        stats.current_hp = stats.max_hp.get_value(stats.level);
        Self { id: random_id(), name, position, stats, inventory: Inventory::new(inventory_slots) }
    }

    pub fn get_id(&self) -> (r: u128)
        ensures
            r == self.spec_id(),
    {
        self.id
    }

    pub fn get_position(&self) -> (r: GridSquare)
        ensures
            r == self.spec_position(),
    {
        self.position
    }

    pub fn set_position(&mut self, pos: &GridSquare)
        ensures
            final(self).spec_position() == *pos,
            final(self).spec_id() == old(self).spec_id(),
            final(self).stats == old(self).stats,
            final(self).inventory == old(self).inventory,
            final(self).name == old(self).name,
    {
        self.position = *pos;
    }

    /// Adds `amount` to the hit points, kept between 0 and the maximum.
    pub fn change_hp(&mut self, amount: i32)
        requires
            old(self).stats.wf(),
        ensures
            final(self).stats.current_hp == changed_hp(
                old(self).stats.current_hp as int,
                amount as int,
                old(self).stats.max_hp.effective_value(old(self).stats.level as int),
            ),
            final(self).stats.level == old(self).stats.level,
            final(self).stats.max_hp == old(self).stats.max_hp,
            final(self).stats.melee_attack == old(self).stats.melee_attack,
            final(self).stats.armor_class == old(self).stats.armor_class,
            final(self).stats.movement_speed == old(self).stats.movement_speed,
            final(self).stats.n_actions == old(self).stats.n_actions,
            final(self).stats.wf(),
            final(self).spec_id() == old(self).spec_id(),
            final(self).spec_position() == old(self).spec_position(),
            final(self).inventory == old(self).inventory,
    {
        let max_hp = self.stats.max_hp.get_value(self.stats.level);
        let v: i64 = self.stats.current_hp as i64 + amount as i64;
        self.stats.current_hp = if v < 0 {
            0
        } else if v > max_hp as i64 {
            max_hp
        } else {
            v as i32
        };
    }

    pub fn is_alive(&self) -> (r: bool)
        ensures
            r == self.spec_alive(),
    {
        self.stats.current_hp > 0
    }
}

} // verus!
