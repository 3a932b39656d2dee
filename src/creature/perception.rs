use crate::creature::Creature;
use crate::grid::gridalgos::{distance, spec_distance};
use crate::grid::{GridSquare, MAX_GRID_SIDE};
use crate::world::Layer;
use vstd::prelude::*;

verus! {

/// Rounds an observation is remembered after the round it was made in.
pub const OBSERVATION_LIFETIME_ROUNDS: i64 = 3;

/// How far a creature notices others.
pub const SENSING_DISTANCE: i32 = 5;

#[derive(Clone, Copy, Debug, PartialEq, Eq, Structural)]
pub enum Awareness {
    Wander,
    Combat,
}

/// What a creature noticed of another one. Players and the creatures they
/// do not control are hostile to each other.
#[derive(Clone, Copy, Debug, PartialEq, Eq, Structural)]
pub struct Observation {
    pub creature_id: u128,
    pub position: GridSquare,
    pub round: i64,
    pub direct: bool,
    pub hostile: bool,
}

/// A square with both coordinates inside the largest possible grid.
pub open spec fn on_some_grid(s: GridSquare) -> bool {
    0 <= s.y < MAX_GRID_SIDE && 0 <= s.x < MAX_GRID_SIDE
}

pub open spec fn is_recent(o: Observation, cur_round: int) -> bool {
    cur_round - o.round <= OBSERVATION_LIFETIME_ROUNDS
}

pub open spec fn hostility_is(hostile: bool) -> spec_fn(Observation) -> bool {
    |o: Observation| o.hostile == hostile
}

pub open spec fn is_hostile(o: Observation) -> bool {
    o.hostile
}

/// What the observer, creature `owner` standing at `owner_pos`, notices of
/// the other creatures, in their order; `controlled[i]` tells whether a
/// player controls creature `i`.
pub open spec fn sensed(
    owner: int,
    owner_pos: GridSquare,
    owner_player: bool,
    creatures: Seq<Creature>,
    controlled: Seq<bool>,
    cur_round: i64,
) -> Seq<Observation>
    decreases creatures.len(),
{
    if creatures.len() == 0 {
        Seq::empty()
    } else {
        let rest = sensed(
            owner,
            owner_pos,
            owner_player,
            creatures.drop_last(),
            controlled,
            cur_round,
        );
        let c = creatures.last();
        if creatures.len() - 1 != owner && spec_distance(owner_pos, c.position) <= SENSING_DISTANCE {
            rest.push(
                Observation {
                    creature_id: c.id,
                    position: c.position,
                    round: cur_round,
                    direct: true,
                    hostile: controlled[creatures.len() - 1] != owner_player,
                },
            )
        } else {
            rest
        }
    }
}

pub open spec fn awareness_of(observations: Seq<Observation>) -> Awareness {
    if exists|i: int| 0 <= i < observations.len() && (#[trigger] observations[i]).hostile {
        Awareness::Combat
    } else {
        Awareness::Wander
    }
}

/// A creature's memory of what it noticed, oldest first.
#[derive(Clone, Debug)]
pub struct Perception {
    observations: Vec<Observation>,
    owner_id: u128,
}

impl Perception {
    pub closed spec fn spec_observations(&self) -> Seq<Observation> {
        self.observations@
    }

    pub closed spec fn spec_owner(&self) -> u128 {
        self.owner_id
    }

    pub open spec fn spec_awareness(&self) -> Awareness {
        awareness_of(self.spec_observations())
    }

    pub fn new(owner_id: u128) -> (r: Self)
        ensures
            r.spec_observations().len() == 0,
            r.spec_owner() == owner_id,
    {
        Self { observations: Vec::new(), owner_id }
    }

    /// The creatures within sensing distance of `owner_pos`.
    pub fn seek(
        owner: usize,
        owner_pos: GridSquare,
        owner_player: bool,
        creatures: &Vec<Creature>,
        controlled: &Vec<bool>,
        cur_round: i64,
    ) -> (r: Vec<Observation>)
        requires
            on_some_grid(owner_pos),
            controlled@.len() == creatures@.len(),
            forall|i: int| 0 <= i < creatures@.len() ==> on_some_grid(#[trigger] creatures@[i].position),
        ensures
            r@ == sensed(owner as int, owner_pos, owner_player, creatures@, controlled@, cur_round),
    {
        let mut observations: Vec<Observation> = Vec::new();
        let mut i: usize = 0;
        while i < creatures.len()
            invariant
                on_some_grid(owner_pos),
                controlled@.len() == creatures@.len(),
                forall|i: int|
                    0 <= i < creatures@.len() ==> on_some_grid(#[trigger] creatures@[i].position),
                0 <= i <= creatures@.len(),
                observations@ == sensed(
                    owner as int,
                    owner_pos,
                    owner_player,
                    creatures@.subrange(0, i as int),
                    controlled@,
                    cur_round,
                ),
            decreases creatures@.len() - i,
        {
            proof {
                assert(creatures@.subrange(0, i + 1).drop_last() == creatures@.subrange(0, i as int));
            }
            let pos = creatures[i].position;
            if i != owner && distance(owner_pos, pos) <= SENSING_DISTANCE {
                observations.push(
                    Observation {
                        creature_id: creatures[i].id,
                        position: pos,
                        round: cur_round,
                        direct: true,
                        hostile: controlled[i] != owner_player,
                    },
                );
            }
            i = i + 1;
        }
        assert(creatures@.subrange(0, i as int) == creatures@);
        observations
    }

    /// Forgets observations older than the lifetime, then adds what the
    /// owner notices now.
    pub fn update_observations(
        &mut self,
        owner: usize,
        owner_pos: GridSquare,
        owner_player: bool,
        creatures: &Vec<Creature>,
        controlled: &Vec<bool>,
        cur_round: i64,
    )
        requires
            on_some_grid(owner_pos),
            controlled@.len() == creatures@.len(),
            forall|i: int| 0 <= i < creatures@.len() ==> on_some_grid(#[trigger] creatures@[i].position),
        ensures
            final(self).spec_owner() == old(self).spec_owner(),
            final(self).spec_observations() == old(self).spec_observations().filter(
                |o: Observation| is_recent(o, cur_round as int),
            ) + sensed(owner as int, owner_pos, owner_player, creatures@, controlled@, cur_round),
    {
        let ghost pred = |o: Observation| is_recent(o, cur_round as int);
        let mut kept: Vec<Observation> = Vec::new();
        let mut i: usize = 0;
        while i < self.observations.len()
            invariant
                0 <= i <= self.observations@.len(),
                pred == (|o: Observation| is_recent(o, cur_round as int)),
                kept@ == self.observations@.subrange(0, i as int).filter(pred),
            decreases self.observations@.len() - i,
        {
            proof {
                assert(self.observations@.subrange(0, i + 1).drop_last()
                    == self.observations@.subrange(0, i as int));
                reveal(Seq::filter);
            }
            let o = self.observations[i];
            if cur_round as i128 - o.round as i128 <= OBSERVATION_LIFETIME_ROUNDS as i128 {
                kept.push(o);
            }
            i = i + 1;
        }
        assert(self.observations@.subrange(0, i as int) == self.observations@);
        let mut new_obs = Self::seek(owner, owner_pos, owner_player, creatures, controlled, cur_round);
        kept.append(&mut new_obs);
        self.observations = kept;
    }

    fn filter_hostile(&self, hostile: bool) -> (r: Vec<Observation>)
        ensures
            r@ == self.spec_observations().filter(hostility_is(hostile)),
    {
        let ghost pred = hostility_is(hostile);
        let mut result: Vec<Observation> = Vec::new();
        let mut i: usize = 0;
        while i < self.observations.len()
            invariant
                0 <= i <= self.observations@.len(),
                pred == hostility_is(hostile),
                result@ == self.observations@.subrange(0, i as int).filter(pred),
            decreases self.observations@.len() - i,
        {
            proof {
                assert(self.observations@.subrange(0, i + 1).drop_last()
                    == self.observations@.subrange(0, i as int));
                reveal(Seq::filter);
            }
            let o = self.observations[i];
            if o.hostile == hostile {
                result.push(o);
            }
            i = i + 1;
        }
        assert(self.observations@.subrange(0, i as int) == self.observations@);
        result
    }

    pub fn get_friendly_observations(&self) -> (r: Vec<Observation>)
        ensures
            r@ == self.spec_observations().filter(hostility_is(false)),
    {
        self.filter_hostile(false)
    }

    pub fn get_hostile_observations(&self) -> (r: Vec<Observation>)
        ensures
            r@ == self.spec_observations().filter(hostility_is(true)),
    {
        self.filter_hostile(true)
    }

    /// Combat as soon as one observation is hostile.
    pub fn get_awareness(&self) -> (r: Awareness)
        ensures
            r == self.spec_awareness(),
    {
        let mut i: usize = 0;
        while i < self.observations.len()
            invariant
                0 <= i <= self.observations@.len(),
                forall|k: int| 0 <= k < i ==> !(#[trigger] self.observations@[k]).hostile,
            decreases self.observations@.len() - i,
        {
            if self.observations[i].hostile {
                return Awareness::Combat;
            }
            i = i + 1;
        }
        Awareness::Wander
    }
}

/// Refreshes the perception of every creature of the layer, each from its
/// own position, against the creatures as they stand now.
pub fn update_all_observations(layer: &mut Layer, cur_round: i64)
    requires
        old(layer).wf(),
    ensures
        final(layer).wf(),
        final(layer).grid == old(layer).grid,
        final(layer).creatures == old(layer).creatures,
        final(layer).items == old(layer).items,
        final(layer).effects == old(layer).effects,
        final(layer).creature_ai@.len() == old(layer).creature_ai@.len(),
        forall|i: int|
            #![trigger final(layer).creature_ai@[i]]
            0 <= i < old(layer).creature_ai@.len() ==> {
                let before = old(layer).creature_ai@[i];
                let after = final(layer).creature_ai@[i];
                &&& after.owner_id == before.owner_id
                &&& after.default_wander_behavior == before.default_wander_behavior
                &&& after.default_combat_behavior == before.default_combat_behavior
                &&& after.override_behavior == before.override_behavior
                &&& after.perception.spec_owner() == before.perception.spec_owner()
                &&& after.perception.spec_observations() == before.perception.spec_observations().filter(
                    |o: Observation| is_recent(o, cur_round as int),
                ) + sensed(
                    i,
                    old(layer).creatures@[i].position,
                    before.player_controlled(),
                    old(layer).creatures@,
                    Seq::new(
                        old(layer).creature_ai@.len(),
                        |k: int| old(layer).creature_ai@[k].player_controlled(),
                    ),
                    cur_round,
                )
            },
{
    let flags = layer.player_controlled_flags();
    let ghost start = *layer;
    proof {
        assert(flags@ == Seq::new(
            start.creature_ai@.len(),
            |k: int| start.creature_ai@[k].player_controlled(),
        ));
        assert forall|i: int| 0 <= i < layer.creatures@.len() implies on_some_grid(#[trigger] layer.creatures@[i].position) by {
            assert(layer.creature_ok(layer.creatures@[i]));
        }
    }
    let mut i: usize = 0;
    while i < layer.creature_ai.len()
        invariant
            start.wf(),
            layer.wf(),
            flags@ == Seq::new(
                start.creature_ai@.len(),
                |k: int| start.creature_ai@[k].player_controlled(),
            ),
            forall|i: int| 0 <= i < layer.creatures@.len() ==> on_some_grid(#[trigger] layer.creatures@[i].position),
            layer.grid == start.grid,
            layer.creatures == start.creatures,
            layer.items == start.items,
            layer.effects == start.effects,
            layer.creature_ai@.len() == start.creature_ai@.len(),
            0 <= i <= layer.creature_ai@.len(),
            forall|j: int|
                #![trigger layer.creature_ai@[j]]
                i <= j < start.creature_ai@.len() ==> layer.creature_ai@[j] == start.creature_ai@[j],
            forall|j: int|
                #![trigger layer.creature_ai@[j]]
                0 <= j < i ==> {
                    let before = start.creature_ai@[j];
                    let after = layer.creature_ai@[j];
                    &&& after.owner_id == before.owner_id
                    &&& after.default_wander_behavior == before.default_wander_behavior
                    &&& after.default_combat_behavior == before.default_combat_behavior
                    &&& after.override_behavior == before.override_behavior
                    &&& after.perception.spec_owner() == before.perception.spec_owner()
                    &&& after.perception.spec_observations() == before.perception.spec_observations().filter(
                        |o: Observation| is_recent(o, cur_round as int),
                    ) + sensed(
                        j,
                        start.creatures@[j].position,
                        before.player_controlled(),
                        start.creatures@,
                        flags@,
                        cur_round,
                    )
                },
        decreases layer.creature_ai@.len() - i,
    {
        let pos = layer.creatures[i].position;
        let controlled = flags[i];
        proof {
            assert(on_some_grid(layer.creatures@[i as int].position));
        }
        let ghost before = layer.creature_ai@;
        layer.creature_ai[i].perception.update_observations(i, pos, controlled, &layer.creatures, &flags, cur_round);
        proof {
            assert(layer.creature_ai@ == before.update(i as int, layer.creature_ai@[i as int]));
        }
        i = i + 1;
    }
}

} // verus!
