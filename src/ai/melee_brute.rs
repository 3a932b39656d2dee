use crate::ai::wander::{destinations, lemma_valid_move_for, move_target};
use crate::ai::AI;
use crate::creature::action::{valid_move_for, Action, MoveAction, UseItemAction};
use crate::creature::perception::{hostility_is, on_some_grid, Observation};
use crate::grid::gridalgos::{distance, spec_distance};
use crate::grid::{GridSquare, MAX_GRID_SIDE};
use crate::item::max_effective_range;
use crate::world::Layer;
use vstd::prelude::*;

verus! {

pub open spec fn on_grid_observation() -> spec_fn(Observation) -> bool {
    |o: Observation| on_some_grid(o.position)
}

/// The hostile observations of `actor` on some grid, oldest first.
pub open spec fn candidates(actor: AI) -> Seq<Observation> {
    actor.perception.spec_observations().filter(hostility_is(true)).filter(on_grid_observation())
}

/// The observation to go after: the closest to `pos`, and of those the
/// latest.
pub open spec fn picked(pos: GridSquare, obs: Seq<Observation>) -> Option<Observation>
    decreases obs.len(),
{
    if obs.len() == 0 {
        None
    } else {
        let o = obs.last();
        match picked(pos, obs.drop_last()) {
            None => Some(o),
            Some(b) => if spec_distance(pos, o.position) <= spec_distance(pos, b.position) {
                Some(o)
            } else {
                Some(b)
            },
        }
    }
}

/// Reach of the item in the first slot of creature `actor`, if any.
pub open spec fn weapon_range(layer: Layer, actor: int) -> Option<int> {
    let slots = layer.creatures@[actor].inventory.slots();
    if slots.len() == 0 {
        None
    } else {
        match slots[0] {
            None => None,
            Some(x) => if layer.has_item(x) {
                max_effective_range(layer.items@[layer.item_index(x)].kind)
            } else {
                None
            },
        }
    }
}

/// What a melee brute does: attack the picked target with its first item
/// when in range; else move to a reachable square closest to the target, if
/// one is closer than where it stands; else stay idle.
pub open spec fn melee_ok(actor_ai: AI, layer: Layer, actor: int, r: Action) -> bool {
    let pos = layer.creatures@[actor].position;
    match picked(pos, candidates(actor_ai)) {
        None => r is Idle,
        Some(o) => {
            let t = o.position;
            match weapon_range(layer, actor) {
                None => r is Idle,
                Some(range) => if spec_distance(pos, t) <= range {
                    r == Action::UseItem(UseItemAction { inventory_slot: 0, target: t })
                } else if exists|s: GridSquare|
                    #[trigger] valid_move_for(layer, actor, s) && spec_distance(s, t) < spec_distance(
                        pos,
                        t,
                    ) {
                    r matches Action::Move(m) && valid_move_for(layer, actor, m.destination)
                        && forall|s: GridSquare| #[trigger]
                        valid_move_for(layer, actor, s) ==> spec_distance(m.destination, t)
                            <= spec_distance(s, t)
                } else {
                    r is Idle
                },
            }
        },
    }
}

proof fn lemma_picked_in(pos: GridSquare, obs: Seq<Observation>)
    ensures
        picked(pos, obs) matches Some(o) ==> obs.contains(o),
    decreases obs.len(),
{
    if obs.len() > 0 {
        lemma_picked_in(pos, obs.drop_last());
        if let Some(b) = picked(pos, obs.drop_last()) {
            let k = choose|k: int| 0 <= k < obs.drop_last().len() && obs.drop_last()[k] == b;
            assert(obs[k] == b);
        }
        assert(obs[obs.len() - 1] == obs.last());
    }
}

fn pick_target(pos: GridSquare, hostile: &Vec<Observation>) -> (r: Option<Observation>)
    requires
        on_some_grid(pos),
        forall|i: int| 0 <= i < hostile@.len() ==> on_some_grid(#[trigger] hostile@[i].position),
    ensures
        r == picked(pos, hostile@),
{
    let mut best: Option<Observation> = None;
    let mut best_dist: i32 = 0;
    let mut i: usize = 0;
    while i < hostile.len()
        invariant
            on_some_grid(pos),
            forall|i: int| 0 <= i < hostile@.len() ==> on_some_grid(#[trigger] hostile@[i].position),
            0 <= i <= hostile@.len(),
            best == picked(pos, hostile@.subrange(0, i as int)),
            best matches Some(b) ==> best_dist == spec_distance(pos, b.position),
        decreases hostile@.len() - i,
    {
        proof {
            assert(hostile@.subrange(0, i + 1).drop_last() == hostile@.subrange(0, i as int));
        }
        let o = hostile[i];
        let d = distance(pos, o.position);
        if best.is_none() || d <= best_dist {
            best = Some(o);
            best_dist = d;
        }
        i = i + 1;
    }
    assert(hostile@.subrange(0, i as int) == hostile@);
    best
}

/// Charges the chosen hostile creature: attacks with the item in the first
/// slot when the creature's last known square is within the item's range,
/// else moves to the square within reach closest to it, if that is closer
/// than where it stands; otherwise stays idle.
pub fn act(actor_ai: &AI, actor: usize, layer: &Layer) -> (r: Action)
    requires
        layer.wf(),
        actor < layer.creatures@.len(),
    ensures
        melee_ok(*actor_ai, *layer, actor as int, r),
{
    let creature = &layer.creatures[actor];
    let pos = creature.position;
    proof {
        assert(layer.creature_ok(layer.creatures@[actor as int]));
    }
    let hostile = actor_ai.perception.get_hostile_observations();
    let ghost grid_pred = on_grid_observation();
    let mut in_grid: Vec<Observation> = Vec::new();
    let mut k: usize = 0;
    while k < hostile.len()
        invariant
            0 <= k <= hostile@.len(),
            grid_pred == on_grid_observation(),
            in_grid@ == hostile@.subrange(0, k as int).filter(grid_pred),
            forall|i: int| 0 <= i < in_grid@.len() ==> on_some_grid(#[trigger] in_grid@[i].position),
        decreases hostile@.len() - k,
    {
        proof {
            assert(hostile@.subrange(0, k + 1).drop_last() == hostile@.subrange(0, k as int));
            reveal(Seq::filter);
        }
        let o = hostile[k];
        if 0 <= o.position.y && o.position.y < MAX_GRID_SIDE && 0 <= o.position.x && o.position.x
            < MAX_GRID_SIDE {
            in_grid.push(o);
        }
        k = k + 1;
    }
    assert(hostile@.subrange(0, k as int) == hostile@);
    proof {
        lemma_picked_in(pos, in_grid@);
    }
    let target = match pick_target(pos, &in_grid) {
        Some(o) => {
            proof {
                let k = choose|k: int| 0 <= k < in_grid@.len() && in_grid@[k] == o;
                assert(on_some_grid(in_grid@[k].position));
            }
            o.position
        },
        None => {
            return Action::Idle;
        },
    };
    let item_id = match creature.inventory.get_item(0) {
        Some(id) => id,
        None => {
            return Action::Idle;
        },
    };
    let range = match layer.find_item(item_id) {
        Some(i) => {
            proof {
                let f = layer.item_index(item_id);
                assert(layer.has_item(item_id));
                assert(0 <= f < layer.items@.len() && layer.items@[f].id == item_id);
                if f < i {
                    assert(layer.items@[f].id != item_id);
                } else if f > i {
                    assert(layer.items@[i as int].id != item_id);
                }
            }
            match layer.items[i].get_max_effective_range() {
                Some(r) => r,
                None => {
                    return Action::Idle;
                },
            }
        },
        None => {
            return Action::Idle;
        },
    };
    let current = distance(pos, target);
    if current <= range {
        return Action::UseItem(UseItemAction { inventory_slot: 0, target });
    }
    let (squares, Ghost(paths)) = destinations(actor, layer);
    proof {
        lemma_valid_move_for(*layer, actor as int, paths);
    }
    let mut best: Option<GridSquare> = None;
    let mut best_dist: i32 = current;
    let mut i: usize = 0;
    while i < squares.len()
        invariant
            0 <= i <= squares@.len(),
            on_some_grid(target),
            layer.wf(),
            actor < layer.creatures@.len(),
            current == spec_distance(pos, target),
            pos == layer.creatures@[actor as int].position,
            forall|j: int| 0 <= j < squares@.len() ==> move_target(*layer, actor as int, paths, #[trigger] squares@[j]),
            best matches Some(b) ==> move_target(*layer, actor as int, paths, b) && best_dist
                == spec_distance(b, target),
            best is None ==> best_dist == current,
            best is Some ==> best_dist < current,
            best_dist <= current,
            forall|j: int| 0 <= j < i ==> best_dist <= spec_distance(#[trigger] squares@[j], target),
        decreases squares@.len() - i,
    {
        let s = squares[i];
        proof {
            assert(move_target(*layer, actor as int, paths, squares@[i as int]));
            assert(layer.creature_ok(layer.creatures@[actor as int]));
        }
        let d = distance(s, target);
        if d < best_dist {
            best = Some(s);
            best_dist = d;
        }
        i = i + 1;
    }
    match best {
        Some(d) => {
            proof {
                assert(candidates(*actor_ai) == in_grid@);
                assert(picked(pos, candidates(*actor_ai)) is Some);
                assert(picked(pos, candidates(*actor_ai)).unwrap().position == target);
                assert(weapon_range(*layer, actor as int) == Some(range as int));
                assert(!(spec_distance(pos, target) <= range));
                assert(valid_move_for(*layer, actor as int, d));
                assert(spec_distance(d, target) < spec_distance(pos, target));
                assert forall|s: GridSquare| #[trigger]
                    valid_move_for(*layer, actor as int, s) implies spec_distance(d, target)
                    <= spec_distance(s, target) by {
                    assert(squares@.contains(s));
                    let j = choose|j: int| 0 <= j < squares@.len() && squares@[j] == s;
                    assert(best_dist <= spec_distance(squares@[j], target));
                }
            }
            Action::Move(MoveAction { destination: d })
        },
        None => {
            proof {
                assert forall|s: GridSquare| #[trigger]
                    valid_move_for(*layer, actor as int, s) implies !(spec_distance(s, target)
                    < spec_distance(pos, target)) by {
                    assert(squares@.contains(s));
                    let j = choose|j: int| 0 <= j < squares@.len() && squares@[j] == s;
                    assert(best_dist <= spec_distance(squares@[j], target));
                }
            }
            Action::Idle
        },
    }
}

} // verus!
