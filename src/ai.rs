use crate::creature::action::Action;
use crate::creature::perception::{Awareness, Perception};
use crate::world::Layer;
use vstd::prelude::*;

pub mod melee_brute;
pub mod wander;

verus! {

/// How a creature picks its actions, or the player that picks them.
#[derive(Clone, Copy, Debug, PartialEq, Eq, Structural)]
pub enum Behavior {
    PlayerControlled(u128),
    Inactive,
    Wandering,
    MeleeBrute,
}

/// Controller of one creature: a behavior while wandering, one in combat,
/// and an override that replaces both (used to hand a creature to a player).
#[derive(Clone, Debug)]
pub struct AI {
    pub owner_id: u128,
    pub perception: Perception,
    pub default_wander_behavior: Behavior,
    pub default_combat_behavior: Behavior,
    pub override_behavior: Option<Behavior>,
}

impl AI {
    pub open spec fn default_wander(&self) -> Behavior {
        self.default_wander_behavior
    }

    pub open spec fn default_combat(&self) -> Behavior {
        self.default_combat_behavior
    }

    pub open spec fn override_of(&self) -> Option<Behavior> {
        self.override_behavior
    }

    pub open spec fn wander_behavior(&self) -> Behavior {
        match self.override_of() {
            Some(b) => b,
            None => self.default_wander(),
        }
    }

    pub open spec fn combat_behavior(&self) -> Behavior {
        match self.override_of() {
            Some(b) => b,
            None => self.default_combat(),
        }
    }

    pub open spec fn controller(&self) -> Option<u128> {
        match self.combat_behavior() {
            Behavior::PlayerControlled(id) => Some(id),
            _ => None,
        }
    }

    pub open spec fn player_controlled(&self) -> bool {
        self.controller().is_some()
    }

    pub fn new(owner_id: u128, default_wander_behavior: Behavior, default_combat_behavior: Behavior) -> (r:
        Self)
        ensures
            r.owner_id == owner_id,
            r.perception.spec_owner() == owner_id,
            r.perception.spec_observations().len() == 0,
            r.default_wander() == default_wander_behavior,
            r.default_combat() == default_combat_behavior,
            r.override_of() is None,
    {
        Self {
            owner_id,
            perception: Perception::new(owner_id),
            default_wander_behavior,
            default_combat_behavior,
            override_behavior: None,
        }
    }

    pub fn get_wander_behavior(&self) -> (r: Behavior)
        ensures
            r == self.wander_behavior(),
    {
        match self.override_behavior {
            Some(b) => b,
            None => self.default_wander_behavior,
        }
    }

    pub fn get_combat_behavior(&self) -> (r: Behavior)
        ensures
            r == self.combat_behavior(),
    {
        match self.override_behavior {
            Some(b) => b,
            None => self.default_combat_behavior,
        }
    }

    pub fn set_override_behavior(&mut self, behavior: Behavior)
        ensures
            final(self).override_of() == Some(behavior),
            final(self).default_wander() == old(self).default_wander(),
            final(self).default_combat() == old(self).default_combat(),
            final(self).owner_id == old(self).owner_id,
            final(self).perception == old(self).perception,
    {
        self.override_behavior = Some(behavior);
    }

    pub fn restore_default_behavior(&mut self)
        ensures
            final(self).override_of() is None,
            final(self).default_wander() == old(self).default_wander(),
            final(self).default_combat() == old(self).default_combat(),
            final(self).owner_id == old(self).owner_id,
            final(self).perception == old(self).perception,
    {
        self.override_behavior = None;
    }

    pub fn get_controlling_player_id(&self) -> (r: Option<u128>)
        ensures
            r == self.controller(),
    {
        match self.get_combat_behavior() {
            Behavior::PlayerControlled(player_id) => Some(player_id),
            _ => None,
        }
    }

    pub fn is_player_controlled(&self) -> (r: bool)
        ensures
            r == self.player_controlled(),
    {
        self.get_controlling_player_id().is_some()
    }

    /// The same controller with another perception.
    pub fn with_perception(&self, perception: Perception) -> (r: Self)
        ensures
            r.owner_id == self.owner_id,
            r.perception == perception,
            r.default_wander() == self.default_wander(),
            r.default_combat() == self.default_combat(),
            r.override_of() == self.override_of(),
    {
        Self {
            owner_id: self.owner_id,
            perception,
            default_wander_behavior: self.default_wander_behavior,
            default_combat_behavior: self.default_combat_behavior,
            override_behavior: self.override_behavior,
        }
    }
}

/// The behavior that drives the creature now: its combat behavior when in
/// combat, its wandering one otherwise.
pub open spec fn current_behavior(actor: AI) -> Behavior {
    match actor.perception.spec_awareness() {
        Awareness::Wander => actor.wander_behavior(),
        Awareness::Combat => actor.combat_behavior(),
    }
}

/// One action for a creature no player controls, by the behavior its
/// awareness selects: idle when inactive, a wander or a melee charge
/// otherwise (see `wander_ok` and `melee_ok`).
pub fn act(actor: &AI, layer: &Layer) -> (r: Action)
    requires
        layer.wf(),
        layer.has_creature(actor.owner_id),
        !(current_behavior(*actor) is PlayerControlled),
    ensures
        current_behavior(*actor) is Inactive ==> r is Idle,
        current_behavior(*actor) is Wandering ==> wander::wander_ok(
            *layer,
            layer.creature_index(actor.owner_id),
            r,
        ),
        current_behavior(*actor) is MeleeBrute ==> melee_brute::melee_ok(
            *actor,
            *layer,
            layer.creature_index(actor.owner_id),
            r,
        ),
{
    let behavior = match actor.perception.get_awareness() {
        Awareness::Wander => actor.get_wander_behavior(),
        Awareness::Combat => actor.get_combat_behavior(),
    };
    let index = match layer.find_creature(actor.owner_id) {
        Some(i) => i,
        None => {
            return Action::Idle;
        },
    };
    proof {
        let c = layer.creature_index(actor.owner_id);
        if c != index {
            assert(layer.creatures@[c].id == layer.creatures@[index as int].id);
        }
    }
    match behavior {
        Behavior::PlayerControlled(_) => Action::Idle,
        Behavior::Inactive => Action::Idle,
        Behavior::MeleeBrute => melee_brute::act(actor, index, layer),
        Behavior::Wandering => wander::act(index, layer),
    }
}

} // verus!
