use crate::creature::action::{is_search_of, speed_of, valid_move_for, Action, MoveAction};
use crate::grid::gridalgos::{find_all_shortest_paths, lemma_search_results_agree, ShortestPaths};
use crate::grid::GridSquare;
use crate::random::choose_square;
use crate::world::{occupied_by_living, Layer};
use vstd::prelude::*;

verus! {

/// A square the creature at `actor` may move to: within its movement budget
/// by the search `p`, free, and not taken by another living creature.
pub open spec fn move_target(layer: Layer, actor: int, p: ShortestPaths, s: GridSquare) -> bool {
    &&& p.best_distance(s) is Some
    &&& layer.grid.is_free(s)
    &&& (s == layer.creatures@[actor].position || !occupied_by_living(layer.creatures@, s))
}

/// The squares the creature at `actor` may move to, row by row, with the
/// search they come from.
pub fn destinations(actor: usize, layer: &Layer) -> (r: (Vec<GridSquare>, Ghost<ShortestPaths>))
    requires
        layer.wf(),
        actor < layer.creatures@.len(),
    ensures
        is_search_of(
            r.1@,
            seq![layer.creatures@[actor as int].position],
            speed_of(layer.creatures@[actor as int]),
            layer.grid,
        ),
        forall|i: int| 0 <= i < r.0@.len() ==> move_target(*layer, actor as int, r.1@, #[trigger] r.0@[i]),
        forall|s: GridSquare| move_target(*layer, actor as int, r.1@, s) ==> #[trigger] r.0@.contains(s),
{
    let creature = &layer.creatures[actor];
    let pos = creature.position;
    let speed = creature.stats.movement_speed.get_value(creature.stats.level);
    let mut sources: Vec<GridSquare> = Vec::new();
    sources.push(pos);
    proof {
        assert(layer.creature_ok(layer.creatures@[actor as int]));
        assert(sources@ == seq![pos]);
    }
    let paths = find_all_shortest_paths(&sources, speed, &layer.grid);
    let reachable = paths.reachable_squares();
    let mut result: Vec<GridSquare> = Vec::new();
    let mut i: usize = 0;
    while i < reachable.len()
        invariant
            layer.wf(),
            actor < layer.creatures@.len(),
            pos == layer.creatures@[actor as int].position,
            paths.wf(),
            forall|s: GridSquare| reachable@.contains(s) <==> paths.best_distance(s).is_some(),
            0 <= i <= reachable@.len(),
            forall|k: int| 0 <= k < result@.len() ==> move_target(*layer, actor as int, paths, #[trigger] result@[k]),
            forall|k: int| 0 <= k < i && move_target(*layer, actor as int, paths, #[trigger] reachable@[k]) ==> result@.contains(reachable@[k]),
        decreases reachable@.len() - i,
    {
        let s = reachable[i];
        proof {
            assert(reachable@.contains(s));
        }
        if layer.grid.free_square(&s) && (s == pos || layer.get_living_creatures_at(s).len() == 0) {
            let ghost before = result@;
            result.push(s);
            proof {
                assert(result@[result@.len() - 1] == s);
                assert forall|k: int| 0 <= k < i + 1 && move_target(*layer, actor as int, paths, #[trigger] reachable@[k]) implies result@.contains(reachable@[k]) by {
                    if k < i {
                        let m = choose|m: int| 0 <= m < before.len() && before[m] == reachable@[k];
                        assert(result@[m] == before[m]);
                    }
                }
                assert forall|k: int| 0 <= k < result@.len() implies move_target(*layer, actor as int, paths, #[trigger] result@[k]) by {
                    if k < before.len() {
                        assert(result@[k] == before[k]);
                    }
                }
            }
        }
        i = i + 1;
    }
    proof {
        assert forall|s: GridSquare| move_target(*layer, actor as int, paths, s) implies #[trigger] result@.contains(s) by {
            assert(reachable@.contains(s));
            let k = choose|k: int| 0 <= k < reachable@.len() && reachable@[k] == s;
            assert(move_target(*layer, actor as int, paths, reachable@[k]));
        }
    }
    (result, Ghost(paths))
}

/// What a wandering creature does: a move to some square it may move to,
/// if there is one; otherwise it stays idle.
pub open spec fn wander_ok(layer: Layer, actor: int, r: Action) -> bool {
    if exists|s: GridSquare| #[trigger] valid_move_for(layer, actor, s) {
        r matches Action::Move(m) && valid_move_for(layer, actor, m.destination)
    } else {
        r is Idle
    }
}

/// Moves to a random square within reach, or stays idle if there is none.
pub fn act(actor: usize, layer: &Layer) -> (r: Action)
    requires
        layer.wf(),
        actor < layer.creatures@.len(),
    ensures
        wander_ok(*layer, actor as int, r),
{
    let (squares, Ghost(paths)) = destinations(actor, layer);
    proof {
        lemma_valid_move_for(*layer, actor as int, paths);
    }
    match choose_square(&squares) {
        Some(d) => {
            proof {
                let k = choose|k: int| 0 <= k < squares@.len() && squares@[k] == d;
                assert(move_target(*layer, actor as int, paths, squares@[k]));
            }
            Action::Move(MoveAction { destination: d })
        },
        None => {
            proof {
                assert forall|s: GridSquare| !#[trigger] valid_move_for(*layer, actor as int, s) by {
                    if valid_move_for(*layer, actor as int, s) {
                        assert(squares@.contains(s));
                    }
                }
            }
            Action::Idle
        },
    }
}

/// For any search from the creature's square, the squares it may move to
/// are those `move_target` admits.
pub proof fn lemma_valid_move_for(layer: Layer, actor: int, p: ShortestPaths)
    requires
        layer.wf(),
        0 <= actor < layer.creatures@.len(),
        is_search_of(
            p,
            seq![layer.creatures@[actor].position],
            speed_of(layer.creatures@[actor]),
            layer.grid,
        ),
    ensures
        forall|s: GridSquare| #[trigger] valid_move_for(layer, actor, s) <==> move_target(layer, actor, p, s),
{
    assert forall|s: GridSquare| #[trigger] valid_move_for(layer, actor, s) <==> move_target(layer, actor, p, s) by {
        let c = layer.creatures@[actor];
        if valid_move_for(layer, actor, s) {
            let q = choose|q: ShortestPaths|
                #![trigger is_search_of(q, seq![c.position], speed_of(c), layer.grid)]
                is_search_of(q, seq![c.position], speed_of(c), layer.grid) && q.best_distance(s) is Some
                    && layer.grid.is_free(s) && (s == c.position || !occupied_by_living(
                    layer.creatures@,
                    s,
                ));
            lemma_search_results_agree(q, p, &layer.grid, speed_of(c));
            assert(p.best_distance(s) == q.best_distance(s));
        }
        if move_target(layer, actor, p, s) {
            assert(is_search_of(p, seq![c.position], speed_of(c), layer.grid));
        }
    }
}

} // verus!
