use crate::grid::gridalgos::{distance, spec_distance, within_reach};
use crate::creature::Creature;
use crate::grid::GridSquare;
use crate::world::{ids_at, Layer};
use vstd::prelude::*;

verus! {

#[derive(Clone, Copy, Debug, PartialEq, Eq, Structural)]
pub enum TargetKind {
    Square(SquareParams),
    Burst(BurstParams),
    BurstVolumetric(BurstVolumetricParams),
    Cone(ConeParams),
    Emanation(EmanationParams),
    Line(LineParams),
    LineReflecting(LineReflectingParams),
}

#[derive(Clone, Copy, Debug, PartialEq, Eq, Structural)]
pub struct SquareParams {
    pub range: i32,
}

#[derive(Clone, Copy, Debug, PartialEq, Eq, Structural)]
pub struct BurstParams {
    pub range: i32,
    pub radius: i32,
}

#[derive(Clone, Copy, Debug, PartialEq, Eq, Structural)]
pub struct BurstVolumetricParams {
    pub range: i32,
    pub volume: i32,
}

#[derive(Clone, Copy, Debug, PartialEq, Eq, Structural)]
pub struct ConeParams {
    pub length: i32,
}

#[derive(Clone, Copy, Debug, PartialEq, Eq, Structural)]
pub struct EmanationParams {
    pub radius: i32,
}

#[derive(Clone, Copy, Debug, PartialEq, Eq, Structural)]
pub struct LineParams {
    pub length: i32,
    pub width: i32,
}

#[derive(Clone, Copy, Debug, PartialEq, Eq, Structural)]
pub struct LineReflectingParams {
    pub length: i32,
    pub width: i32,
}

#[derive(Clone, Copy, Debug, PartialEq, Eq, Structural)]
pub enum TargetingError {
    OutOfRange,
    /// The shape has no targeting rule yet.
    Unsupported,
}

/// The squares an item of kind `target_kind` used at `target` by an actor at
/// `actor_pos` affects.
pub open spec fn targeted_squares(target: GridSquare, target_kind: TargetKind, actor_pos: GridSquare) -> Result<Seq<GridSquare>, TargetingError> {
    match target_kind {
        TargetKind::Square(params) => if spec_distance(target, actor_pos) > params.range {
            Err(TargetingError::OutOfRange)
        } else {
            Ok(seq![target])
        },
        _ => Err(TargetingError::Unsupported),
    }
}

pub fn get_targeted_squares(target: GridSquare, target_kind: TargetKind, actor_pos: GridSquare) -> (r:
    Result<Vec<GridSquare>, TargetingError>)
    requires
        within_reach(target, actor_pos),
    ensures
        r matches Ok(v) ==> targeted_squares(target, target_kind, actor_pos) == Ok::<Seq<GridSquare>, TargetingError>(v@),
        r matches Err(e) ==> targeted_squares(target, target_kind, actor_pos) == Err::<Seq<GridSquare>, TargetingError>(e),
{
    match target_kind {
        TargetKind::Square(params) => {
            if distance(target, actor_pos) > params.range {
                return Err(TargetingError::OutOfRange);
            }
            let mut v: Vec<GridSquare> = Vec::new();
            v.push(target);
            proof {
                assert(v@ == seq![target]);
            }
            Ok(v)
        },
        _ => Err(TargetingError::Unsupported),
    }
}

/// Ids of the living creatures on `squares`, square by square.
pub open spec fn affected_ids(creatures: Seq<Creature>, squares: Seq<GridSquare>) -> Seq<u128>
    decreases squares.len(),
{
    if squares.len() == 0 {
        Seq::empty()
    } else {
        affected_ids(creatures, squares.drop_last()) + ids_at(creatures, squares.last(), true)
    }
}

/// `id` is a living creature standing on one of `squares`.
pub open spec fn is_affected(creatures: Seq<Creature>, squares: Seq<GridSquare>, id: u128) -> bool {
    exists|i: int|
        0 <= i < creatures.len() && (#[trigger] creatures[i]).id == id && creatures[i].spec_alive()
            && squares.contains(creatures[i].position)
}

pub open spec fn ids_unique(creatures: Seq<Creature>) -> bool {
    forall|i: int, j: int|
        #![trigger creatures[i], creatures[j]]
        0 <= i < j < creatures.len() ==> creatures[i].id != creatures[j].id
}

proof fn lemma_ids_at(creatures: Seq<Creature>, square: GridSquare)
    ensures
        forall|x: u128|
            #[trigger] ids_at(creatures, square, true).contains(x) <==> exists|i: int|
                0 <= i < creatures.len() && (#[trigger] creatures[i]).id == x
                    && creatures[i].spec_alive() && creatures[i].position == square,
        ids_unique(creatures) ==> ids_at(creatures, square, true).no_duplicates(),
    decreases creatures.len(),
{
    if creatures.len() > 0 {
        let rest = creatures.drop_last();
        lemma_ids_at(rest, square);
        let ids = ids_at(creatures, square, true);
        let rest_ids = ids_at(rest, square, true);
        let c = creatures.last();
        assert forall|x: u128|
            #[trigger] ids.contains(x) <==> exists|i: int|
                0 <= i < creatures.len() && (#[trigger] creatures[i]).id == x
                    && creatures[i].spec_alive() && creatures[i].position == square by {
            if ids.contains(x) {
                if rest_ids.contains(x) {
                    let i = choose|i: int|
                        0 <= i < rest.len() && (#[trigger] rest[i]).id == x && rest[i].spec_alive()
                            && rest[i].position == square;
                    assert(creatures[i] == rest[i]);
                } else {
                    let k = choose|k: int| 0 <= k < ids.len() && ids[k] == x;
                    if k < rest_ids.len() {
                        assert(ids[k] == rest_ids[k]);
                    }
                    assert(creatures[creatures.len() - 1] == c);
                }
            }
            if exists|i: int|
                0 <= i < creatures.len() && (#[trigger] creatures[i]).id == x
                    && creatures[i].spec_alive() && creatures[i].position == square {
                let i = choose|i: int|
                    0 <= i < creatures.len() && (#[trigger] creatures[i]).id == x
                        && creatures[i].spec_alive() && creatures[i].position == square;
                if i < creatures.len() - 1 {
                    assert(rest[i] == creatures[i]);
                    assert(rest_ids.contains(x));
                    let k = choose|k: int| 0 <= k < rest_ids.len() && rest_ids[k] == x;
                    assert(ids[k] == x);
                } else {
                    assert(ids[ids.len() - 1] == x);
                }
            }
        }
        if ids_unique(creatures) {
            assert(ids_unique(rest)) by {
                assert forall|i: int, j: int|
                    #![trigger rest[i], rest[j]]
                    0 <= i < j < rest.len() implies rest[i].id != rest[j].id by {
                    assert(rest[i] == creatures[i] && rest[j] == creatures[j]);
                }
            }
            if c.position == square && c.spec_alive() {
                assert(!rest_ids.contains(c.id)) by {
                    if rest_ids.contains(c.id) {
                        let i = choose|i: int|
                            0 <= i < rest.len() && (#[trigger] rest[i]).id == c.id
                                && rest[i].spec_alive() && rest[i].position == square;
                        assert(creatures[i] == rest[i]);
                        assert(creatures[creatures.len() - 1] == c);
                    }
                }
                assert forall|i: int, j: int| 0 <= i < ids.len() && 0 <= j < ids.len() && i != j implies ids[i] != ids[j] by {
                    if i < rest_ids.len() && j < rest_ids.len() {
                        assert(ids[i] == rest_ids[i] && ids[j] == rest_ids[j]);
                    } else if i < rest_ids.len() {
                        assert(ids[i] == rest_ids[i]);
                        assert(rest_ids.contains(ids[i]));
                    } else if j < rest_ids.len() {
                        assert(ids[j] == rest_ids[j]);
                        assert(rest_ids.contains(ids[j]));
                    }
                }
            }
        }
    }
}

proof fn lemma_affected_ids(creatures: Seq<Creature>, squares: Seq<GridSquare>)
    ensures
        forall|x: u128|
            #[trigger] affected_ids(creatures, squares).contains(x) <==> is_affected(
                creatures,
                squares,
                x,
            ),
        ids_unique(creatures) && squares.no_duplicates() ==> affected_ids(
            creatures,
            squares,
        ).no_duplicates(),
    decreases squares.len(),
{
    if squares.len() > 0 {
        let front = squares.drop_last();
        let sq = squares.last();
        lemma_affected_ids(creatures, front);
        lemma_ids_at(creatures, sq);
        let a = affected_ids(creatures, front);
        let b = ids_at(creatures, sq, true);
        let all = a + b;
        assert forall|x: u128|
            #[trigger] all.contains(x) <==> is_affected(creatures, squares, x) by {
            if all.contains(x) {
                let k = choose|k: int| 0 <= k < all.len() && all[k] == x;
                if k < a.len() {
                    assert(a[k] == x);
                    assert(a.contains(x));
                    let i = choose|i: int|
                        0 <= i < creatures.len() && (#[trigger] creatures[i]).id == x
                            && creatures[i].spec_alive() && front.contains(creatures[i].position);
                    let m = choose|m: int| 0 <= m < front.len() && front[m] == creatures[i].position;
                    assert(squares[m] == front[m]);
                } else {
                    assert(b[k - a.len()] == x);
                    assert(b.contains(x));
                    assert(squares[squares.len() - 1] == sq);
                }
            }
            if is_affected(creatures, squares, x) {
                let i = choose|i: int|
                    0 <= i < creatures.len() && (#[trigger] creatures[i]).id == x
                        && creatures[i].spec_alive() && squares.contains(creatures[i].position);
                let m = choose|m: int| 0 <= m < squares.len() && squares[m] == creatures[i].position;
                if m < squares.len() - 1 {
                    assert(front[m] == squares[m]);
                    assert(front.contains(creatures[i].position));
                    assert(is_affected(creatures, front, x));
                    assert(affected_ids(creatures, front).contains(x));
                    let k = choose|k: int| 0 <= k < a.len() && a[k] == x;
                    assert(all[k] == x);
                } else {
                    assert(b.contains(x));
                    let k = choose|k: int| 0 <= k < b.len() && b[k] == x;
                    assert(all[a.len() + k] == x);
                }
            }
        }
        if ids_unique(creatures) && squares.no_duplicates() {
            assert(front.no_duplicates()) by {
                assert forall|i: int, j: int| 0 <= i < front.len() && 0 <= j < front.len() && i != j implies front[i] != front[j] by {
                    assert(front[i] == squares[i] && front[j] == squares[j]);
                }
            }
            assert forall|i: int, j: int| 0 <= i < all.len() && 0 <= j < all.len() && i != j implies all[i] != all[j] by {
                if i < a.len() && j < a.len() {
                    assert(all[i] == a[i] && all[j] == a[j]);
                } else if i >= a.len() && j >= a.len() {
                    assert(all[i] == b[i - a.len()] && all[j] == b[j - a.len()]);
                } else {
                    let (ia, jb) = if i < a.len() { (i, j) } else { (j, i) };
                    let x = all[ia];
                    assert(all[ia] == a[ia]);
                    assert(all[jb] == b[jb - a.len()]);
                    if all[jb] == x {
                        assert(a.contains(x));
                        assert(b.contains(x));
                        let c1 = choose|c: int|
                            0 <= c < creatures.len() && (#[trigger] creatures[c]).id == x
                                && creatures[c].spec_alive() && front.contains(creatures[c].position);
                        let c2 = choose|c: int|
                            0 <= c < creatures.len() && (#[trigger] creatures[c]).id == x
                                && creatures[c].spec_alive() && creatures[c].position == sq;
                        if c1 < c2 {
                            assert(creatures[c1].id != creatures[c2].id);
                        } else if c2 < c1 {
                            assert(creatures[c2].id != creatures[c1].id);
                        }
                        let m = choose|m: int| 0 <= m < front.len() && front[m] == sq;
                        assert(squares[m] == squares[squares.len() - 1]);
                    }
                }
            }
        }
    }
}

/// Ids of the living creatures on the targeted squares, square by square:
/// each such creature once when the squares are distinct.
pub fn get_affected_creatures(targeted_squares: &Vec<GridSquare>, layer: &Layer) -> (r: Vec<u128>)
    requires
        layer.wf(),
    ensures
        r@ == affected_ids(layer.creatures@, targeted_squares@),
        forall|x: u128| #[trigger] r@.contains(x) <==> is_affected(layer.creatures@, targeted_squares@, x),
        targeted_squares@.no_duplicates() ==> r@.no_duplicates(),
{
    let mut creatures: Vec<u128> = Vec::new();
    let mut k: usize = 0;
    while k < targeted_squares.len()
        invariant
            0 <= k <= targeted_squares@.len(),
            creatures@ == affected_ids(layer.creatures@, targeted_squares@.subrange(0, k as int)),
        decreases targeted_squares@.len() - k,
    {
        let square = targeted_squares[k];
        let mut at_square = layer.get_living_creatures_at(square);
        proof {
            assert(targeted_squares@.subrange(0, k + 1).drop_last() == targeted_squares@.subrange(0, k as int));
        }
        creatures.append(&mut at_square);
        k = k + 1;
    }
    proof {
        assert(targeted_squares@.subrange(0, k as int) == targeted_squares@);
        lemma_affected_ids(layer.creatures@, targeted_squares@);
        assert(ids_unique(layer.creatures@));
    }
    creatures
}

} // verus!
