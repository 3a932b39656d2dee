use crate::creature::Creature;
use crate::grid::gridalgos::{
    extract_shortest_path, find_all_shortest_paths, lemma_search_results_agree, within_reach,
    ShortestPaths,
};
use crate::grid::{Grid, GridSquare};
use crate::info_message::MessageType;
use crate::item::item_effects::{attack_done, attack_possible, basic_melee_attack, same_but_hp};
use crate::world::{occupied_by_living, Layer};
use vstd::prelude::*;

verus! {

#[derive(Clone, Copy, Debug, PartialEq, Eq, Structural)]
pub enum Action {
    Idle,
    Move(MoveAction),
    UseItem(UseItemAction),
}

#[derive(Clone, Copy, Debug, PartialEq, Eq, Structural)]
pub struct MoveAction {
    pub destination: GridSquare,
}

#[derive(Clone, Copy, Debug, PartialEq, Eq, Structural)]
pub struct UseItemAction {
    pub inventory_slot: usize,
    pub target: GridSquare,
}

/// Why an action was refused.
#[derive(Clone, Copy, Debug, PartialEq, Eq, Structural)]
pub enum ActionError {
    CreatureDead,
    OutsideGrid,
    InsideWall,
    Occupied,
    Unreachable,
    NoSuchSlot(usize),
    EmptySlot(usize),
}

/// `p` is what `find_all_shortest_paths(sources, max_distance, grid)`
/// promises to return.
pub open spec fn is_search_of(p: ShortestPaths, sources: Seq<GridSquare>, max_distance: int, grid: Grid) -> bool {
    &&& p.wf()
    &&& p.spec_height() == grid.spec_height()
    &&& p.spec_width() == grid.spec_width()
    &&& p.source_squares() == sources
    &&& forall|i: int|
        0 <= i < sources.len() ==> p.reached(#[trigger] sources[i], 0) && p.state_dist(
            sources[i],
            0,
        ) == 0
    &&& p.closed_under_steps(&grid, max_distance)
}

/// `dest` is within the movement budget of the creature at `actor`, free,
/// and held by no other living creature.
pub open spec fn valid_move_for(layer: Layer, actor: int, dest: GridSquare) -> bool {
    exists|p: ShortestPaths|
        #![trigger is_search_of(p, seq![layer.creatures@[actor].position], speed_of(layer.creatures@[actor]), layer.grid)]
        is_search_of(
            p,
            seq![layer.creatures@[actor].position],
            speed_of(layer.creatures@[actor]),
            layer.grid,
        ) && p.best_distance(dest) is Some && layer.grid.is_free(dest) && (dest
            == layer.creatures@[actor].position || !occupied_by_living(layer.creatures@, dest))
}

/// A move the AI may propose is accepted: whatever search `is_valid` makes
/// for a living actor, a destination within `valid_move_for` passes it.
pub proof fn lemma_ai_moves_accepted(layer: Layer, actor: int, dest: GridSquare, p: ShortestPaths)
    requires
        layer.wf(),
        0 <= actor < layer.creatures@.len(),
        layer.creatures@[actor].spec_alive(),
        valid_move_for(layer, actor, dest),
        is_search_of(
            p,
            seq![layer.creatures@[actor].position],
            speed_of(layer.creatures@[actor]),
            layer.grid,
        ),
    ensures
        verdict(
            Action::Move(MoveAction { destination: dest }),
            layer.creatures@[actor],
            layer,
            p.best_distance(dest).is_some(),
        ) == Ok::<(), ActionError>(()),
{
    let c = layer.creatures@[actor];
    let q = choose|q: ShortestPaths|
        #![trigger is_search_of(q, seq![c.position], speed_of(c), layer.grid)]
        is_search_of(q, seq![c.position], speed_of(c), layer.grid) && q.best_distance(dest) is Some
            && layer.grid.is_free(dest) && (dest == c.position || !occupied_by_living(
            layer.creatures@,
            dest,
        ));
    lemma_search_results_agree(q, p, &layer.grid, speed_of(c));
    assert(p.best_distance(dest) == q.best_distance(dest));
}

/// The verdict on `action` by `actor`, given whether the destination of a
/// move is within the actor's movement budget.
pub open spec fn verdict(action: Action, actor: Creature, layer: Layer, reachable: bool) -> Result<(), ActionError> {
    if !actor.spec_alive() {
        Err(ActionError::CreatureDead)
    } else {
        match action {
            Action::Idle => Ok(()),
            Action::Move(m) => {
                let d = m.destination;
                if !layer.grid.in_bounds(d) {
                    Err(ActionError::OutsideGrid)
                } else if !layer.grid.is_free(d) {
                    Err(ActionError::InsideWall)
                } else if actor.position != d && occupied_by_living(layer.creatures@, d) {
                    Err(ActionError::Occupied)
                } else if !reachable {
                    Err(ActionError::Unreachable)
                } else {
                    Ok(())
                }
            },
            Action::UseItem(u) => {
                let slots = actor.inventory.slots();
                if u.inventory_slot >= slots.len() {
                    Err(ActionError::NoSuchSlot(u.inventory_slot))
                } else if slots[u.inventory_slot as int] is None {
                    Err(ActionError::EmptySlot(u.inventory_slot))
                } else {
                    Ok(())
                }
            },
        }
    }
}

/// A move by a living actor is refused for a destination outside the grid,
/// in a wall, held by another living creature, or beyond its movement
/// budget, each with its own reason; any other destination, its own square
/// included, is accepted.
pub proof fn lemma_move_verdicts(actor: Creature, layer: Layer, d: GridSquare, reachable: bool)
    requires
        actor.spec_alive(),
    ensures
        !layer.grid.in_bounds(d) ==> verdict(Action::Move(MoveAction { destination: d }), actor, layer, reachable)
            == Err::<(), ActionError>(ActionError::OutsideGrid),
        layer.grid.in_bounds(d) && layer.grid.tile_at(d) == crate::grid::Tile::Wall ==> verdict(
            Action::Move(MoveAction { destination: d }),
            actor,
            layer,
            reachable,
        ) == Err::<(), ActionError>(ActionError::InsideWall),
        layer.grid.is_free(d) && d != actor.position && occupied_by_living(layer.creatures@, d)
            ==> verdict(Action::Move(MoveAction { destination: d }), actor, layer, reachable)
            == Err::<(), ActionError>(ActionError::Occupied),
        layer.grid.is_free(d) && (d == actor.position || !occupied_by_living(layer.creatures@, d))
            ==> verdict(Action::Move(MoveAction { destination: d }), actor, layer, reachable) == if reachable {
            Ok::<(), ActionError>(())
        } else {
            Err::<(), ActionError>(ActionError::Unreachable)
        },
{
}

/// Movement budget of a creature.
pub open spec fn speed_of(actor: Creature) -> int {
    actor.stats.movement_speed.effective_value(actor.stats.level as int)
}

/// Whether `actor` may take `action` now. A move must end inside the grid,
/// off walls, on no other living creature, and within the actor's movement
/// budget of its position.
pub fn is_valid(action: &Action, _prev_actions: &Vec<Action>, actor: &Creature, layer: &Layer) -> (r:
    Result<(), ActionError>)
    requires
        layer.wf(),
        layer.creature_ok(*actor),
    ensures
        exists|p: ShortestPaths|
            is_search_of(p, seq![actor.position], speed_of(*actor), layer.grid) && r == verdict(
                *action,
                *actor,
                *layer,
                p.best_distance(
                    match *action {
                        Action::Move(m) => m.destination,
                        _ => actor.position,
                    },
                ).is_some(),
            ),
        forall|p: ShortestPaths|
            #![trigger is_search_of(p, seq![actor.position], speed_of(*actor), layer.grid)]
            is_search_of(p, seq![actor.position], speed_of(*actor), layer.grid) ==> r == verdict(
                *action,
                *actor,
                *layer,
                p.best_distance(
                    match *action {
                        Action::Move(m) => m.destination,
                        _ => actor.position,
                    },
                ).is_some(),
            ),
{
    let source = actor.get_position();
    let movement_speed = actor.stats.movement_speed.get_value(actor.stats.level);
    let mut sources: Vec<GridSquare> = Vec::new();
    sources.push(source);
    let all_paths = find_all_shortest_paths(&sources, movement_speed, &layer.grid);
    proof {
        assert(sources@ == seq![source]);
        assert(is_search_of(all_paths, seq![actor.position], speed_of(*actor), layer.grid));
        assert forall|p: ShortestPaths|
            #![trigger is_search_of(p, seq![actor.position], speed_of(*actor), layer.grid)]
            is_search_of(p, seq![actor.position], speed_of(*actor), layer.grid) implies forall|
                d: GridSquare,
            | #[trigger] p.best_distance(d) == all_paths.best_distance(d) by {
            lemma_search_results_agree(p, all_paths, &layer.grid, speed_of(*actor));
        }
    }
    if !actor.is_alive() {
        return Err(ActionError::CreatureDead);
    }
    match action {
        Action::Idle => Ok(()),
        Action::Move(m) => {
            if !layer.grid.valid_square(&m.destination) {
                return Err(ActionError::OutsideGrid);
            }
            if !layer.grid.free_square(&m.destination) {
                return Err(ActionError::InsideWall);
            }
            if source != m.destination && layer.get_living_creatures_at(m.destination).len() != 0 {
                return Err(ActionError::Occupied);
            }
            if extract_shortest_path(&all_paths, m.destination).is_none() {
                return Err(ActionError::Unreachable);
            }
            Ok(())
        },
        Action::UseItem(u) => {
            // The target's kind, range and line of sight are not checked yet.
            let inv = &actor.inventory;
            if !inv.valid_slot(u.inventory_slot) {
                return Err(ActionError::NoSuchSlot(u.inventory_slot));
            }
            if inv.get_item(u.inventory_slot).is_none() {
                return Err(ActionError::EmptySlot(u.inventory_slot));
            }
            Ok(())
        },
    }
}

pub(crate) fn squares_within_reach(a: GridSquare, b: GridSquare) -> (r: bool)
    ensures
        r == within_reach(a, b),
{
    let ddy: i64 = b.y as i64 - a.y as i64;
    let ddx: i64 = b.x as i64 - a.x as i64;
    let dy: i64 = if ddy < 0 { -ddy } else { ddy };
    let dx: i64 = if ddx < 0 { -ddx } else { ddx };
    let mx: i64 = if dy > dx { dy } else { dx };
    let mi: i64 = if dy > dx { dx } else { dy };
    mx + mi - (mi + 1) / 2 <= i32::MAX as i64
}

/// The item the actor holds in the slot `u` names, if any.
pub open spec fn held_item(layer: Layer, actor_id: u128, u: UseItemAction) -> Option<u128> {
    let slots = layer.creatures@[layer.creature_index(actor_id)].inventory.slots();
    if u.inventory_slot < slots.len() {
        slots[u.inventory_slot as int]
    } else {
        None
    }
}

/// Using an item: the actor's slot holds an item of the layer whose attack
/// is possible, and then the attack is done and narrated; otherwise nothing
/// happens and nothing is narrated.
pub open spec fn use_item_done(before: Layer, after: Layer, actor_id: u128, u: UseItemAction, r: Option<MessageType>) -> bool {
    let i = before.creature_index(actor_id);
    let possible = match held_item(before, actor_id, u) {
        Some(x) => before.has_item(x) && attack_possible(before, before.item_index(x), i, u.target),
        None => false,
    };
    &&& r.is_some() == possible
    &&& r is None ==> after.creatures == before.creatures
    &&& r matches Some(m) ==> attack_done(
        before,
        after,
        before.item_index(held_item(before, actor_id, u).unwrap()),
        i,
        u.target,
        m,
    )
}

/// Carries out an action already found valid. A move puts the actor on its
/// destination. Using an item resolves the item's effect and narrates it;
/// it does nothing when the slot, the item or its target does not allow it.
pub fn execute(action: &Action, actor_id: u128, layer: &mut Layer) -> (r: Option<MessageType>)
    requires
        old(layer).wf(),
        old(layer).has_creature(actor_id),
        action matches Action::Move(m) ==> old(layer).grid.in_bounds(m.destination),
    ensures
        final(layer).wf(),
        final(layer).grid == old(layer).grid,
        final(layer).creature_ai == old(layer).creature_ai,
        final(layer).creatures@.len() == old(layer).creatures@.len(),
        *action == Action::Idle ==> r is None && final(layer).creatures == old(layer).creatures,
        action matches Action::Move(m) ==> r is None && exists|i: int|
            0 <= i < old(layer).creatures@.len() && old(layer).creatures@[i].id == actor_id
                && final(layer).creatures@ == old(layer).creatures@.update(
                i,
                Creature { position: m.destination, ..old(layer).creatures@[i] },
            ),
        action matches Action::UseItem(u) ==> same_but_hp(*old(layer), *final(layer)) && use_item_done(
            *old(layer),
            *final(layer),
            actor_id,
            *u,
            r,
        ),
{
    let i = match layer.find_creature(actor_id) {
        Some(i) => i,
        None => {
            return None;
        },
    };
    match action {
        Action::Idle => None,
        Action::Move(m) => {
            let ghost before = layer.creatures@;
            layer.creatures[i].set_position(&m.destination);
            proof {
                assert(layer.creatures@ =~= before.update(
                    i as int,
                    Creature { position: m.destination, ..before[i as int] },
                ));
            }
            None
        },
        Action::UseItem(u) => {
            proof {
                let c = layer.creature_index(actor_id);
                if c != i {
                    assert(layer.creatures@[c].id == layer.creatures@[i as int].id);
                }
            }
            let item_id = match layer.creatures[i].inventory.get_item(u.inventory_slot) {
                Some(id) => id,
                None => {
                    return None;
                },
            };
            let item_index = match layer.find_item(item_id) {
                Some(k) => k,
                None => {
                    return None;
                },
            };
            proof {
                let f = layer.item_index(item_id);
                assert(layer.has_item(item_id));
                assert(0 <= f < layer.items@.len() && layer.items@[f].id == item_id);
                if f < item_index {
                    assert(layer.items@[f].id != item_id);
                } else if f > item_index {
                    assert(layer.items@[item_index as int].id != item_id);
                }
            }
            match basic_melee_attack(item_index, i, u.target, layer) {
                Some(result) => Some(result.message),
                None => None,
            }
        },
    }
}

} // verus!
