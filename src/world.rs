use crate::ai::AI;
use crate::creature::Creature;
use crate::grid::{Grid, GridSquare, MAX_GRID_SIDE};
use crate::item::effect::{Effect, OngoingEffect};
use crate::item::Item;
use vstd::prelude::*;

verus! {

/// Ids of the creatures standing on `square`, in order; only the living ones
/// when `living_only` holds.
pub open spec fn ids_at(creatures: Seq<Creature>, square: GridSquare, living_only: bool) -> Seq<u128>
    decreases creatures.len(),
{
    if creatures.len() == 0 {
        Seq::empty()
    } else {
        let rest = ids_at(creatures.drop_last(), square, living_only);
        let c = creatures.last();
        if c.position == square && (!living_only || c.spec_alive()) {
            rest.push(c.id)
        } else {
            rest
        }
    }
}

pub open spec fn occupied_by_living(creatures: Seq<Creature>, square: GridSquare) -> bool {
    exists|i: int|
        0 <= i < creatures.len() && (#[trigger] creatures[i]).position == square
            && creatures[i].spec_alive()
}

proof fn lemma_ids_at_empty(creatures: Seq<Creature>, square: GridSquare)
    ensures
        (ids_at(creatures, square, true).len() == 0) == !occupied_by_living(creatures, square),
    decreases creatures.len(),
{
    if creatures.len() > 0 {
        let rest = creatures.drop_last();
        lemma_ids_at_empty(rest, square);
        if occupied_by_living(rest, square) {
            let i = choose|i: int|
                0 <= i < rest.len() && (#[trigger] rest[i]).position == square
                    && rest[i].spec_alive();
            assert(creatures[i] == rest[i]);
        }
        if occupied_by_living(creatures, square) {
            let i = choose|i: int|
                0 <= i < creatures.len() && (#[trigger] creatures[i]).position == square
                    && creatures[i].spec_alive();
            if i < creatures.len() - 1 {
                assert(rest[i] == creatures[i]);
            }
        }
    }
}

/// One floor of the world: its grid, the creatures with their controllers
/// (same index, same id), and the items with their effects (same index).
pub struct Layer {
    pub grid: Grid,
    pub creatures: Vec<Creature>,
    pub creature_ai: Vec<AI>,
    pub items: Vec<Item>,
    pub effects: Vec<Effect>,
    pub ongoing_effects: Vec<OngoingEffect>,
}

impl Layer {
    pub open spec fn creature_ok(&self, c: Creature) -> bool {
        self.grid.in_bounds(c.position) && c.stats.wf()
    }

    pub open spec fn wf(&self) -> bool {
        &&& self.grid.wf()
        &&& self.creatures@.len() == self.creature_ai@.len()
        &&& forall|i: int|
            0 <= i < self.creatures@.len() ==> (#[trigger] self.creature_ai@[i]).owner_id
                == self.creatures@[i].id
        &&& forall|i: int, j: int|
            #![trigger self.creatures@[i], self.creatures@[j]]
            0 <= i < j < self.creatures@.len() ==> self.creatures@[i].id != self.creatures@[j].id
        &&& forall|i: int|
            0 <= i < self.creatures@.len() ==> self.creature_ok(#[trigger] self.creatures@[i])
        &&& self.items@.len() == self.effects@.len()
        &&& forall|i: int| 0 <= i < self.effects@.len() ==> (#[trigger] self.effects@[i]).stats.wf()
    }

    pub open spec fn has_item(&self, id: u128) -> bool {
        exists|k: int| 0 <= k < self.items@.len() && (#[trigger] self.items@[k]).id == id
    }

    /// Index of the first item with this id.
    pub open spec fn item_index(&self, id: u128) -> int {
        choose|k: int|
            0 <= k < self.items@.len() && self.items@[k].id == id && forall|j: int|
                0 <= j < k ==> (#[trigger] self.items@[j]).id != id
    }

    /// Index of the creature with this id.
    pub open spec fn creature_index(&self, id: u128) -> int {
        choose|i: int| 0 <= i < self.creatures@.len() && self.creatures@[i].id == id
    }

    pub open spec fn has_creature(&self, id: u128) -> bool {
        exists|i: int| 0 <= i < self.creatures@.len() && (#[trigger] self.creatures@[i]).id == id
    }

    /// An empty layer of the given size.
    pub fn new(height: i32, width: i32) -> (r: Self)
        requires
            0 < height <= MAX_GRID_SIDE,
            0 < width <= MAX_GRID_SIDE,
        ensures
            r.wf(),
            r.grid.spec_height() == height,
            r.grid.spec_width() == width,
            r.creatures@.len() == 0,
            r.items@.len() == 0,
    {
        Self {
            grid: Grid::new(height, width),
            creatures: Vec::new(),
            creature_ai: Vec::new(),
            items: Vec::new(),
            effects: Vec::new(),
            ongoing_effects: Vec::new(),
        }
    }

    /// Index of the creature with this id.
    pub fn find_creature(&self, id: u128) -> (r: Option<usize>)
        ensures
            r matches Some(i) ==> i < self.creatures@.len() && self.creatures@[i as int].id == id,
            r is None ==> !self.has_creature(id),
    {
        let mut i: usize = 0;
        while i < self.creatures.len()
            invariant
                0 <= i <= self.creatures@.len(),
                forall|k: int| 0 <= k < i ==> (#[trigger] self.creatures@[k]).id != id,
            decreases self.creatures@.len() - i,
        {
            if self.creatures[i].id == id {
                return Some(i);
            }
            i = i + 1;
        }
        None
    }

    /// Index of the first item with this id.
    pub fn find_item(&self, id: u128) -> (r: Option<usize>)
        ensures
            r matches Some(i) ==> i < self.items@.len() && self.items@[i as int].id == id
                && forall|k: int| 0 <= k < i ==> (#[trigger] self.items@[k]).id != id,
            r is None ==> forall|k: int| 0 <= k < self.items@.len() ==> (#[trigger] self.items@[k]).id != id,
    {
        let mut i: usize = 0;
        while i < self.items.len()
            invariant
                0 <= i <= self.items@.len(),
                forall|k: int| 0 <= k < i ==> (#[trigger] self.items@[k]).id != id,
            decreases self.items@.len() - i,
        {
            if self.items[i].id == id {
                return Some(i);
            }
            i = i + 1;
        }
        None
    }

    /// Adds a creature with its controller; one with the same id is replaced.
    pub fn add_creature(&mut self, creature: Creature, c_ai: AI)
        requires
            old(self).wf(),
            c_ai.owner_id == creature.id,
            old(self).creature_ok(creature),
        ensures
            final(self).wf(),
            final(self).grid == old(self).grid,
            final(self).items == old(self).items,
            final(self).effects == old(self).effects,
            old(self).has_creature(creature.id) ==> exists|i: int|
                0 <= i < old(self).creatures@.len() && old(self).creatures@[i].id == creature.id
                    && final(self).creatures@ == old(self).creatures@.update(i, creature)
                    && final(self).creature_ai@ == old(self).creature_ai@.update(i, c_ai),
            !old(self).has_creature(creature.id) ==> final(self).creatures@ == old(self).creatures@.push(creature) && final(self).creature_ai@ == old(self).creature_ai@.push(
                c_ai,
            ),
    {
        let id = creature.id;
        match self.find_creature(id) {
            Some(i) => {
                self.creatures.set(i, creature);
                self.creature_ai.set(i, c_ai);
            },
            None => {
                self.creatures.push(creature);
                self.creature_ai.push(c_ai);
            },
        }
    }

    /// Adds an item with its effect.
    pub fn add_item(&mut self, item: Item, effect: Effect)
        requires
            old(self).wf(),
            effect.stats.wf(),
        ensures
            final(self).wf(),
            final(self).items@ == old(self).items@.push(item),
            final(self).creatures == old(self).creatures,
            final(self).grid == old(self).grid,
    {
        self.items.push(item);
        self.effects.push(effect);
    }

    fn ids_on(&self, square: GridSquare, living_only: bool) -> (r: Vec<u128>)
        ensures
            r@ == ids_at(self.creatures@, square, living_only),
    {
        let mut result: Vec<u128> = Vec::new();
        let mut i: usize = 0;
        while i < self.creatures.len()
            invariant
                0 <= i <= self.creatures@.len(),
                result@ == ids_at(self.creatures@.subrange(0, i as int), square, living_only),
            decreases self.creatures@.len() - i,
        {
            proof {
                assert(self.creatures@.subrange(0, i + 1).drop_last() == self.creatures@.subrange(
                    0,
                    i as int,
                ));
            }
            let c = &self.creatures[i];
            if c.position == square && (!living_only || c.is_alive()) {
                result.push(c.id);
            }
            i = i + 1;
        }
        assert(self.creatures@.subrange(0, i as int) == self.creatures@);
        result
    }

    /// Ids of the creatures on `square`.
    pub fn get_creatures_at(&self, square: GridSquare) -> (r: Vec<u128>)
        ensures
            r@ == ids_at(self.creatures@, square, false),
    {
        self.ids_on(square, false)
    }

    /// Ids of the living creatures on `square`.
    pub fn get_living_creatures_at(&self, square: GridSquare) -> (r: Vec<u128>)
        ensures
            r@ == ids_at(self.creatures@, square, true),
            (r@.len() == 0) == !occupied_by_living(self.creatures@, square),
    {
        proof {
            lemma_ids_at_empty(self.creatures@, square);
        }
        self.ids_on(square, true)
    }

    /// Whether a player controls each creature, by index.
    pub fn player_controlled_flags(&self) -> (r: Vec<bool>)
        ensures
            r@.len() == self.creature_ai@.len(),
            forall|i: int| 0 <= i < r@.len() ==> r@[i] == (#[trigger] self.creature_ai@[i]).player_controlled(),
    {
        let mut flags: Vec<bool> = Vec::new();
        let mut i: usize = 0;
        while i < self.creature_ai.len()
            invariant
                0 <= i <= self.creature_ai@.len(),
                flags@.len() == i,
                forall|k: int| 0 <= k < i ==> flags@[k] == (#[trigger] self.creature_ai@[k]).player_controlled(),
            decreases self.creature_ai@.len() - i,
        {
            flags.push(self.creature_ai[i].is_player_controlled());
            i = i + 1;
        }
        flags
    }
}

pub struct World {
    pub layers: Vec<Layer>,
}

impl World {
    pub fn new() -> (r: Self)
        ensures
            r.layers@.len() == 0,
    {
        Self { layers: Vec::new() }
    }
}

} // verus!
